use bevy_rmmz_assets::notes::tokens::{NoteTag, NoteTokens};

#[test]
fn parses_value_flag_and_block_amid_prose() {
    let note = "Intro prose.\n<element:fire> some text <boss>\n<lore>\nAncient relic.\nForged in flame.\n</lore>\ntrailing";
    let t = NoteTokens::parse(note);

    assert_eq!(t.value("element"), Some("fire"));
    assert!(t.has_flag("boss"));
    assert_eq!(t.block("lore"), Some("Ancient relic.\nForged in flame."));
    assert_eq!(t.tags().len(), 3);
    assert!(t.contains("element"));
    assert!(t.contains("lore"));
    assert!(!t.contains("missing"));
}

#[test]
fn trims_keys_and_values() {
    let t = NoteTokens::parse("<  speed : 12  >");
    assert_eq!(t.value("speed"), Some("12"));
}

#[test]
fn collects_repeated_values() {
    let t = NoteTokens::parse("<drop:1><drop:2><drop:3>");
    let drops: Vec<&str> = t.values("drop");
    assert_eq!(drops, ["1", "2", "3"]);
    assert_eq!(t.value("drop"), Some("1"));
}

#[test]
fn flag_vs_block_disambiguation() {
    // `<note>` with no close is a flag; with a close it's a block.
    let flag = NoteTokens::parse("<sticky>");
    assert!(flag.has_flag("sticky"));
    assert_eq!(flag.block("sticky"), None);

    let block = NoteTokens::parse("<sticky>body</sticky>");
    assert!(!block.has_flag("sticky"));
    assert_eq!(block.block("sticky"), Some("body"));
}

#[test]
fn empty_value_is_allowed() {
    let t = NoteTokens::parse("<hidden:>");
    assert_eq!(t.value("hidden"), Some(""));
}

#[test]
fn ignores_empty_and_stray_closing_tags() {
    let t = NoteTokens::parse("<></foo>plain text");
    assert!(t.tags().is_empty());
    assert_eq!(t.raw(), "<></foo>plain text");
}

#[test]
fn empty_note_has_no_tags() {
    let t = NoteTokens::parse("");
    assert!(t.tags().is_empty());
}

#[test]
fn tags_keep_source_order_and_kinds() {
    let t = NoteTokens::parse("<a:1> <b> <c>x</c>");
    let tags = t.tags();
    assert_eq!(tags.len(), 3);
    assert!(matches!(&tags[0], NoteTag::Value { key, value } if key == "a" && value == "1"));
    assert!(matches!(&tags[1], NoteTag::Flag { key } if key == "b"));
    assert!(matches!(&tags[2], NoteTag::Block { key, body } if key == "c" && body == "x"));
    assert_eq!(tags[0].key(), "a");
    assert_eq!(tags[1].key(), "b");
    assert_eq!(tags[2].key(), "c");
}

#[test]
fn unclosed_angle_bracket_ends_tag_scanning() {
    let t = NoteTokens::parse("<a:1> text <unterminated");
    assert_eq!(t.tags().len(), 1);
    assert_eq!(t.value("a"), Some("1"));
    assert!(!t.contains("unterminated"));
}

#[test]
fn block_body_is_trimmed_including_unicode_whitespace() {
    let t = NoteTokens::parse("<lore>\u{3000} deep \u{3000}</lore>");
    assert_eq!(t.block("lore"), Some("deep"));
}

#[test]
fn colon_splits_at_first_colon_only() {
    let t = NoteTokens::parse("<time: 12:30 >");
    assert_eq!(t.value("time"), Some("12:30"));
}

#[test]
fn flag_lookup_ignores_values_and_blocks() {
    let t = NoteTokens::parse("<x:1><y>body</y>");
    assert!(!t.has_flag("x"));
    assert!(!t.has_flag("y"));
    assert_eq!(t.value("y"), None);
    assert_eq!(t.block("x"), None);
    assert!(t.contains("x") && t.contains("y"));
}

#[test]
fn prose_without_tags_yields_nothing() {
    let t = NoteTokens::parse("just a description, no metadata");
    assert!(t.tags().is_empty());
    assert_eq!(t.raw(), "just a description, no metadata");
    assert!(t.values("anything").is_empty());
}

#[test]
fn leading_prose_does_not_change_the_tags() {
    let note = "<element:fire> text <boss>\n<lore>old</lore>";
    let plain = NoteTokens::parse(note);
    let prefixed = NoteTokens::parse(&format!("An intro, with > and / in it.\n{note}"));
    assert_eq!(plain.tags(), prefixed.tags());
    assert_eq!(prefixed.tags().len(), 3);
}

#[test]
fn trailing_prose_does_not_change_the_tags() {
    let note = "<element:fire> text <boss>\n<lore>old</lore>";
    let plain = NoteTokens::parse(note);
    let suffixed = NoteTokens::parse(&format!("{note}\nSome closing words, no brackets."));
    assert_eq!(plain.tags(), suffixed.tags());
}

#[test]
fn keys_never_hold_colons_or_start_with_a_slash() {
    let t = NoteTokens::parse("<a:b:c> <flag> </x> <blk>in</blk>");
    for tag in t.tags() {
        assert!(!tag.key().contains(':'));
        assert!(!tag.key().starts_with('/'));
    }
    assert_eq!(t.value("a"), Some("b:c"));
}
