use std::any::{Any, TypeId};

use bevy_rmmz_assets::notes::cache::{notes_dirty, RmmzNoteCache};
use bevy_rmmz_assets::snapshot::AssetChange;
use bevy_rmmz_assets::notes::registry::{NoteBaker, NoteRegistry, ParsedNote, RegisterOutcome};
use bevy_rmmz_assets::notes::tokens::NoteTokens;
use bevy_rmmz_assets::asset::{BakedRecordNotes, Table};
use bevy_rmmz_assets::data::Item;

#[derive(Debug, PartialEq, Eq)]
struct Element(String);

#[derive(Debug, PartialEq, Eq)]
struct Boss;

/// The parsers these tests register.
#[derive(Debug, Clone, Copy, PartialEq, Eq)]
enum TestParser {
    Element,
    Boss,
}

type Meta = Box<dyn Any>;

fn run(p: &TestParser, tokens: &NoteTokens) -> Option<Meta> {
    match p {
        TestParser::Element => tokens.value("element").map(|v| Box::new(Element(v.to_owned())) as Meta),
        TestParser::Boss => {
            if tokens.has_flag("boss") {
                Some(Box::new(Boss) as Meta)
            } else {
                None
            }
        }
    }
}

fn ser(p: &TestParser, tokens: &NoteTokens) -> Option<Vec<u8>> {
    match p {
        TestParser::Element => tokens
            .value("element")
            .and_then(|v| postcard::to_stdvec(&v.to_owned()).ok()),
        TestParser::Boss => {
            if tokens.has_flag("boss") {
                postcard::to_stdvec(&()).ok()
            } else {
                None
            }
        }
    }
}

fn de(p: &TestParser, bytes: &Vec<u8>) -> Option<Meta> {
    match p {
        TestParser::Element => postcard::from_bytes::<String>(bytes)
            .ok()
            .map(|s| Box::new(Element(s)) as Meta),
        TestParser::Boss => postcard::from_bytes::<()>(bytes).ok().map(|_| Box::new(Boss) as Meta),
    }
}

fn registry() -> NoteRegistry<TestParser> {
    let mut reg = NoteRegistry::new();
    reg.register(TypeId::of::<Element>(), "element".to_owned(), TestParser::Element);
    reg.register(TypeId::of::<Boss>(), "boss".to_owned(), TestParser::Boss);
    reg
}

fn get<'a, T: 'static>(note: &'a ParsedNote<Meta>) -> Option<&'a T> {
    note.get(&TypeId::of::<T>()).and_then(|b| b.downcast_ref::<T>())
}

#[test]
fn parses_single_type() {
    let reg = registry();
    let tokens = NoteTokens::parse("<element:fire>");
    let element = reg
        .parse(&TypeId::of::<Element>(), &tokens, run)
        .and_then(|b| b.downcast::<Element>().ok())
        .map(|b| *b);
    assert_eq!(element, Some(Element("fire".to_owned())));
    let boss = reg
        .parse(&TypeId::of::<Boss>(), &tokens, run)
        .and_then(|b| b.downcast::<Boss>().ok())
        .map(|b| *b);
    assert_eq!(boss, None);
}

#[test]
fn parse_all_collects_present_metadata() {
    let reg = registry();
    let parsed = reg.parse_all(&NoteTokens::parse("<element:ice> <boss>"), run);
    assert_eq!(get::<Element>(&parsed), Some(&Element("ice".to_owned())));
    assert_eq!(get::<Boss>(&parsed), Some(&Boss));

    let empty = reg.parse_all(&NoteTokens::parse("nothing here"), run);
    assert!(empty.is_empty());
}

#[test]
fn bake_round_trips_through_unbake() {
    let reg = registry();
    let baked = reg.bake(&NoteTokens::parse("<element:fire> <boss>"), ser);
    assert_eq!(baked.len(), 2);

    let note = reg.unbake(&baked, de);
    assert_eq!(get::<Element>(&note), Some(&Element("fire".to_owned())));
    assert_eq!(get::<Boss>(&note), Some(&Boss));
}

#[test]
fn unregistered_type_yields_none() {
    let reg: NoteRegistry<TestParser> = NoteRegistry::new();
    assert!(!reg.has(&TypeId::of::<Element>()));
    assert!(reg
        .parse(&TypeId::of::<Element>(), &NoteTokens::parse("<element:fire>"), run)
        .is_none());
}

#[test]
fn baked_entries_are_sorted_by_tag() {
    let mut reg: NoteRegistry<TestParser> = NoteRegistry::new();
    // Registered in reverse alphabetical order on purpose.
    reg.register(TypeId::of::<Element>(), "zeta".to_owned(), TestParser::Element);
    reg.register(TypeId::of::<Boss>(), "alpha".to_owned(), TestParser::Boss);
    let baked = reg.bake(&NoteTokens::parse("<element:x><boss>"), ser);
    let tags: Vec<&str> = baked.iter().map(|(t, _)| t.as_str()).collect();
    assert_eq!(tags, ["alpha", "zeta"]);
}

#[test]
fn unbake_skips_unknown_tags() {
    let reg = registry();
    let baked = vec![("mystery".to_owned(), vec![1u8, 2, 3])];
    assert!(reg.unbake(&baked, de).is_empty());
}

#[test]
fn a_tag_cannot_be_taken_by_another_output_type() {
    let mut reg = registry();
    let outcome = reg.register(TypeId::of::<String>(), "element".to_owned(), TestParser::Boss);
    assert_eq!(outcome, RegisterOutcome::TagTaken);
    assert!(!reg.has(&TypeId::of::<String>()));
    assert_eq!(reg.parser(&TypeId::of::<Element>()), Some(&TestParser::Element));
    // Re-registering the same output type replaces its parser.
    let again = reg.register(TypeId::of::<Element>(), "element".to_owned(), TestParser::Boss);
    assert_eq!(again, RegisterOutcome::Replaced);
    assert_eq!(reg.parser(&TypeId::of::<Element>()), Some(&TestParser::Boss));
    let fresh = reg.register(TypeId::of::<u32>(), "count".to_owned(), TestParser::Element);
    assert_eq!(fresh, RegisterOutcome::Added);
}

#[test]
fn baker_snapshot_bakes_like_the_registry() {
    let reg = registry();
    let baker: NoteBaker<TestParser> = reg.baker();
    assert!(!baker.is_empty());
    let tokens = NoteTokens::parse("<element:fire> <boss>");
    assert_eq!(baker.bake(&tokens, ser), reg.bake(&tokens, ser));
    let empty: NoteBaker<TestParser> = NoteBaker::default();
    assert!(empty.is_empty());
    assert!(empty.bake(&tokens, ser).is_empty());
}

#[test]
fn parsed_note_reports_its_contents() {
    let mut note: ParsedNote<u32> = ParsedNote::new();
    assert!(note.is_empty());
    note.insert_raw(TypeId::of::<u32>(), 7);
    assert!(note.contains(&TypeId::of::<u32>()));
    assert!(!note.contains(&TypeId::of::<u8>()));
    assert_eq!(note.get(&TypeId::of::<u32>()), Some(&7));
    assert!(!note.is_empty());
}

fn item(id: i32, note: &str) -> Item {
    Item { id, note: note.to_owned(), ..Default::default() }
}

#[test]
fn note_cache_parses_each_record_once_and_keeps_only_matches() {
    let reg = registry();
    let table = Table::new(vec![None, Some(item(1, "<element:fire>")), Some(item(2, "plain")), None, Some(item(4, "<boss>"))]);
    let mut cache: RmmzNoteCache<Meta> = RmmzNoteCache::new();
    let ty = TypeId::of::<Item>();
    cache.cache_table(ty, &[&table], &reg, &run, &de);
    let one = cache.get(&ty, 1).expect("item 1 has metadata");
    assert_eq!(get::<Element>(one), Some(&Element("fire".to_owned())));
    assert!(cache.get(&ty, 2).is_none());
    assert!(cache.get(&ty, 4).is_some());
    assert!(cache
        .note_meta(&ty, 4, &TypeId::of::<Boss>())
        .and_then(|b| b.downcast_ref::<Boss>())
        .is_some());
    assert!(cache.note_meta(&ty, 4, &TypeId::of::<Element>()).is_none());

    // A reload replaces the old entries of that table.
    let reloaded = Table::new(vec![None, Some(item(1, "<element:ice>"))]);
    cache.cache_table(ty, &[&reloaded], &reg, &run, &de);
    let one = cache.get(&ty, 1).expect("item 1 still has metadata");
    assert_eq!(get::<Element>(one), Some(&Element("ice".to_owned())));
    assert!(cache.get(&ty, 4).is_none());

    cache.clear_type(&ty);
    assert!(cache.get(&ty, 1).is_none());
}

#[test]
fn baked_notes_load_into_cache_without_reparsing() {
    // Bake the item's note ahead of time (as the processing transformer does).
    let bake_registry = registry();
    let mut table = Table::new(vec![None, Some(item(1, "<element:fire>"))]);
    let baked: Vec<BakedRecordNotes> = table
        .iter()
        .into_iter()
        .map(|record| BakedRecordNotes {
            id: record.id,
            tags: bake_registry.bake(&NoteTokens::parse(&record.note), ser),
        })
        .collect();
    table.set_baked(baked);

    // The runtime registry knows how to deserialize the baked metadata, but the
    // cache must not parse the note.
    let runtime_registry = registry();
    let no_parse = |_p: &TestParser, _t: &NoteTokens| -> Option<Meta> {
        panic!("baked notes must not be re-parsed")
    };
    let mut cache: RmmzNoteCache<Meta> = RmmzNoteCache::new();
    cache.cache_table(TypeId::of::<Item>(), &[&table], &runtime_registry, &no_parse, &de);
    let element = cache
        .get(&TypeId::of::<Item>(), 1)
        .and_then(|note| get::<Element>(note))
        .map(|e| e.0.clone());
    assert_eq!(element.as_deref(), Some("fire"));
}

#[test]
fn only_loads_and_reloads_dirty_the_note_cache() {
    assert!(!notes_dirty(&[]));
    assert!(!notes_dirty(&[AssetChange::Removed, AssetChange::Unused]));
    assert!(notes_dirty(&[AssetChange::Removed, AssetChange::Modified]));
    assert!(notes_dirty(&[AssetChange::Added]));
    assert!(notes_dirty(&[AssetChange::LoadedWithDependencies]));
}

#[test]
fn bake_does_not_depend_on_registration_order() {
    let forward = registry();
    let mut backward: NoteRegistry<TestParser> = NoteRegistry::new();
    backward.register(TypeId::of::<Boss>(), "boss".to_owned(), TestParser::Boss);
    backward.register(TypeId::of::<Element>(), "element".to_owned(), TestParser::Element);
    let tokens = NoteTokens::parse("<boss> <element:storm>");
    assert_eq!(forward.bake(&tokens, ser), backward.bake(&tokens, ser));
}

#[test]
fn unbake_of_bake_matches_parse_all() {
    let reg = registry();
    for note in ["<element:fire> <boss>", "<boss>", "nothing", "<element:>"] {
        let tokens = NoteTokens::parse(note);
        let parsed = reg.parse_all(&tokens, run);
        let round = reg.unbake(&reg.bake(&tokens, ser), de);
        assert_eq!(get::<Element>(&parsed), get::<Element>(&round));
        assert_eq!(get::<Boss>(&parsed), get::<Boss>(&round));
        assert_eq!(parsed.is_empty(), round.is_empty());
    }
}

#[test]
fn routing_check_runs_on_any_registry() {
    let reg = registry();
    reg.tags_route_to_their_types();
    let empty: NoteRegistry<TestParser> = NoteRegistry::new();
    empty.tags_route_to_their_types();
    assert!(reg.has(&TypeId::of::<Element>()));
}
