//! Tokenizer for the RPG Maker `note` convention.
//!
//! Community plugins embed structured metadata in the free-text `note` field
//! using angle-bracket tags. [`NoteTokens::parse`] recognizes three shapes and
//! ignores the surrounding prose:
//!
//! - `<key>` — a [flag](NoteTag::Flag).
//! - `<key:value>` — a [key/value](NoteTag::Value) pair.
//! - `<key> … </key>` — a [block](NoteTag::Block) with multi-line body.
//!
//! Keys and values are matched case-sensitively and trimmed of surrounding
//! whitespace. This layer only tokenizes; turning tags into typed metadata is
//! the job of the note-parser registry.
use vstd::prelude::*;

use crate::text::{
    chars_of, copy_range, find_char, is_trimmed, lemma_trim_is_trimmed, find_char_in, find_seq, find_seq_in, lemma_find_char_bounds,
    lemma_find_seq_bounds, occurs_at, string_of, trim, trim_chars, is_ws, skip_ws_fwd, skip_ws_back, lemma_skip_ws_fwd, lemma_skip_ws_back,
};

verus! {

/// The mathematical value of a [`NoteTag`].
pub enum SpecTag {
    Flag { key: Seq<char> },
    Value { key: Seq<char>, value: Seq<char> },
    Block { key: Seq<char>, body: Seq<char> },
}

impl SpecTag {
    pub open spec fn key(self) -> Seq<char> {
        match self {
            SpecTag::Flag { key } => key,
            SpecTag::Value { key, .. } => key,
            SpecTag::Block { key, .. } => key,
        }
    }
}

/// The close tag `</key>` that ends a `<key>` block.
pub open spec fn closing_tag(key: Seq<char>) -> Seq<char> {
    seq!['<', '/'] + key + seq!['>']
}

/// The tags recognized in `s` from position `cursor` on.
///
/// The next `<` opens a tag, closed by the next `>`; the text between them,
/// trimmed, is the tag's inner text. Empty inner text and inner text starting
/// with `/` (a stray close tag) are skipped. Inner text with a `:` is a
/// key/value pair split at the first `:`, both halves trimmed. Otherwise it is a
/// key: a block if `</key>` follows (its body is the trimmed text in between,
/// and scanning resumes after the close tag), else a flag. An unclosed `<` ends
/// the scan.
pub open spec fn tokenize_from(s: Seq<char>, cursor: int) -> Seq<SpecTag>
    decreases s.len() - cursor,
{
    if cursor < 0 || cursor > s.len() {
        seq![]
    } else {
        match find_char(s, '<', cursor) {
            None => seq![],
            Some(open) => {
                match find_char(s, '>', open + 1) {
                    None => seq![],
                    Some(close) => {
                        proof {
                            lemma_find_char_bounds(s, '<', cursor);
                            lemma_find_char_bounds(s, '>', open + 1);
                        }
                        let inner = trim(s.subrange(open + 1, close));
                        let next = close + 1;
                        if inner.len() == 0 || inner[0] == '/' {
                            tokenize_from(s, next)
                        } else {
                            match find_char(inner, ':', 0) {
                                Some(colon) => seq![
                                    SpecTag::Value {
                                        key: trim(inner.subrange(0, colon)),
                                        value: trim(inner.subrange(colon + 1, inner.len() as int)),
                                    },
                                ] + tokenize_from(s, next),
                                None => {
                                    match find_seq(s, closing_tag(inner), next) {
                                        Some(body_end) => {
                                            proof {
                                                lemma_find_seq_bounds(s, closing_tag(inner), next);
                                            }
                                            seq![
                                                SpecTag::Block {
                                                    key: inner,
                                                    body: trim(s.subrange(next, body_end)),
                                                },
                                            ] + tokenize_from(
                                                s,
                                                body_end + closing_tag(inner).len(),
                                            )
                                        },
                                        None => seq![SpecTag::Flag { key: inner }] + tokenize_from(
                                            s,
                                            next,
                                        ),
                                    }
                                },
                            }
                        }
                    },
                }
            },
        }
    }
}

/// The tags recognized in a whole note.
pub open spec fn tokenize(s: Seq<char>) -> Seq<SpecTag> {
    tokenize_from(s, 0)
}

/// The shape every produced tag has: keys, values and bodies carry no
/// surrounding whitespace; no key starts with `/` (a close tag) or holds a
/// `:`; and flag and block keys are non-empty.
pub open spec fn tag_well_formed(t: SpecTag) -> bool {
    match t {
        SpecTag::Flag { key } => key.len() > 0 && key[0] != '/' && is_trimmed(key) && !key.contains(
            ':',
        ),
        SpecTag::Value { key, value } => (key.len() > 0 ==> key[0] != '/') && is_trimmed(key)
            && !key.contains(':') && is_trimmed(value),
        SpecTag::Block { key, body } => key.len() > 0 && key[0] != '/' && is_trimmed(key)
            && !key.contains(':') && is_trimmed(body),
    }
}

/// The characters of `trim(x)` are a contiguous run of `x`, starting at the
/// first non-whitespace character.
proof fn lemma_trim_is_run(x: Seq<char>)
    ensures
        forall|i: int|
            0 <= i < trim(x).len() ==> #[trigger] trim(x)[i] == x[skip_ws_fwd(x, 0) + i],
        trim(x).len() > 0 ==> skip_ws_fwd(x, 0) + trim(x).len() <= x.len(),
{
    lemma_skip_ws_fwd(x, 0);
    lemma_skip_ws_back(x, x.len() as int);
}

proof fn lemma_tokenize_from_well_formed(s: Seq<char>, cursor: int)
    ensures
        forall|i: int|
            0 <= i < tokenize_from(s, cursor).len() ==> tag_well_formed(
                #[trigger] tokenize_from(s, cursor)[i],
            ),
    decreases s.len() - cursor,
{
    if cursor < 0 || cursor > s.len() {
    } else {
        match find_char(s, '<', cursor) {
            None => {},
            Some(open) => {
                lemma_find_char_bounds(s, '<', cursor);
                match find_char(s, '>', open + 1) {
                    None => {},
                    Some(close) => {
                        lemma_find_char_bounds(s, '>', open + 1);
                        let inner = trim(s.subrange(open + 1, close));
                        let next = close + 1;
                        lemma_trim_is_trimmed(s.subrange(open + 1, close));
                        lemma_tokenize_from_well_formed(s, next);
                        if inner.len() == 0 || inner[0] == '/' {
                        } else {
                            match find_char(inner, ':', 0) {
                                Some(colon) => {
                                    lemma_find_char_bounds(inner, ':', 0);
                                    lemma_trim_is_run(inner.subrange(0, colon));
                                    let kx = inner.subrange(0, colon);
                                    assert(!trim(kx).contains(':')) by {
                                        if trim(kx).contains(':') {
                                            let q = choose|q: int| 0 <= q < trim(kx).len() && trim(kx)[q] == ':';
                                            assert(trim(kx)[q] == kx[skip_ws_fwd(kx, 0) + q]);
                                        }
                                    }
                                    if trim(kx).len() > 0 {
                                        assert(!is_ws(inner[0]));
                                        assert(kx[0] == inner[0]);
                                        assert(skip_ws_fwd(kx, 0) == 0);
                                        assert(trim(kx)[0] == kx[0]);
                                    }
                                    lemma_trim_is_trimmed(inner.subrange(0, colon));
                                    lemma_trim_is_trimmed(
                                        inner.subrange(colon + 1, inner.len() as int),
                                    );
                                    let t = SpecTag::Value {
                                        key: trim(inner.subrange(0, colon)),
                                        value: trim(inner.subrange(colon + 1, inner.len() as int)),
                                    };
                                    assert(tag_well_formed(t));
                                    assert forall|i: int|
                                        0 <= i < tokenize_from(s, cursor).len() implies tag_well_formed(
                                        #[trigger] tokenize_from(s, cursor)[i],
                                    ) by {
                                        if i > 0 {
                                            assert(tokenize_from(s, cursor)[i] == tokenize_from(
                                                s,
                                                next,
                                            )[i - 1]);
                                        }
                                    }
                                },
                                None => {
                                    lemma_find_char_bounds(inner, ':', 0);
                                    assert(!inner.contains(':'));
                                    match find_seq(s, closing_tag(inner), next) {
                                        Some(body_end) => {
                                            lemma_find_seq_bounds(s, closing_tag(inner), next);
                                            lemma_trim_is_trimmed(s.subrange(next, body_end));
                                            let after = body_end + closing_tag(inner).len();
                                            lemma_tokenize_from_well_formed(s, after);
                                            assert forall|i: int|
                                                0 <= i < tokenize_from(s, cursor).len()
                                                    implies tag_well_formed(
                                                #[trigger] tokenize_from(s, cursor)[i],
                                            ) by {
                                                if i > 0 {
                                                    assert(tokenize_from(s, cursor)[i]
                                                        == tokenize_from(s, after)[i - 1]);
                                                }
                                            }
                                        },
                                        None => {
                                            assert forall|i: int|
                                                0 <= i < tokenize_from(s, cursor).len()
                                                    implies tag_well_formed(
                                                #[trigger] tokenize_from(s, cursor)[i],
                                            ) by {
                                                if i > 0 {
                                                    assert(tokenize_from(s, cursor)[i]
                                                        == tokenize_from(s, next)[i - 1]);
                                                }
                                            }
                                        },
                                    }
                                },
                            }
                        }
                    },
                }
            },
        }
    }
}

/// Every tag a note yields has its key, value and body trimmed of surrounding
/// whitespace; no key starts with `/` or holds a `:`; a flag or block key is
/// never empty.
pub proof fn law_tags_are_well_formed(note: Seq<char>)
    ensures
        forall|i: int|
            0 <= i < tokenize(note).len() ==> tag_well_formed(#[trigger] tokenize(note)[i]),
{
    lemma_tokenize_from_well_formed(note, 0);
}

/// A note without any `<` yields no tags: prose alone is ignored.
pub proof fn law_prose_has_no_tags(note: Seq<char>)
    requires
        forall|i: int| 0 <= i < note.len() ==> note[i] != '<',
    ensures
        tokenize(note).len() == 0,
{
    lemma_find_char_bounds(note, '<', 0);
}

proof fn lemma_find_char_shift(p: Seq<char>, s: Seq<char>, c: char, from: int)
    requires
        0 <= from,
    ensures
        find_char(p + s, c, p.len() + from) == match find_char(s, c, from) {
            Some(i) => Some(p.len() + i),
            None => None,
        },
    decreases s.len() - from,
{
    if from < s.len() {
        assert((p + s)[p.len() + from] == s[from]);
        if s[from] != c {
            lemma_find_char_shift(p, s, c, from + 1);
        }
    }
}

proof fn lemma_find_char_skip(p: Seq<char>, s: Seq<char>, c: char, k: int)
    requires
        0 <= k <= p.len(),
        forall|i: int| 0 <= i < p.len() ==> p[i] != c,
    ensures
        find_char(p + s, c, k) == find_char(p + s, c, p.len() as int),
    decreases p.len() - k,
{
    if k < p.len() {
        assert((p + s)[k] == p[k]);
        lemma_find_char_skip(p, s, c, k + 1);
    }
}

proof fn lemma_find_seq_shift(p: Seq<char>, s: Seq<char>, pat: Seq<char>, from: int)
    requires
        0 <= from,
    ensures
        find_seq(p + s, pat, p.len() + from) == match find_seq(s, pat, from) {
            Some(i) => Some(p.len() + i),
            None => None,
        },
    decreases s.len() - from,
{
    if from + pat.len() <= s.len() {
        assert((p + s).subrange(p.len() + from, p.len() + from + pat.len()) =~= s.subrange(
            from,
            from + pat.len(),
        ));
        if !occurs_at(s, pat, from) && from < s.len() {
            lemma_find_seq_shift(p, s, pat, from + 1);
        }
    }
}

proof fn lemma_tokenize_shift(p: Seq<char>, s: Seq<char>, cursor: int)
    requires
        0 <= cursor,
    ensures
        tokenize_from(p + s, p.len() + cursor) == tokenize_from(s, cursor),
    decreases s.len() - cursor,
{
    let t = p + s;
    let d = p.len() as int;
    if cursor <= s.len() {
        lemma_find_char_shift(p, s, '<', cursor);
        match find_char(s, '<', cursor) {
            None => {},
            Some(open) => {
                lemma_find_char_bounds(s, '<', cursor);
                lemma_find_char_shift(p, s, '>', open + 1);
                match find_char(s, '>', open + 1) {
                    None => {},
                    Some(close) => {
                        lemma_find_char_bounds(s, '>', open + 1);
                        assert(t.subrange(d + open + 1, d + close) =~= s.subrange(open + 1, close));
                        let inner = trim(s.subrange(open + 1, close));
                        let next = close + 1;
                        lemma_tokenize_shift(p, s, next);
                        if !(inner.len() == 0 || inner[0] == '/') {
                            match find_char(inner, ':', 0) {
                                Some(colon) => {},
                                None => {
                                    lemma_find_seq_shift(p, s, closing_tag(inner), next);
                                    match find_seq(s, closing_tag(inner), next) {
                                        Some(body_end) => {
                                            lemma_find_seq_bounds(s, closing_tag(inner), next);
                                            assert(t.subrange(d + next, d + body_end) =~= s.subrange(
                                                next,
                                                body_end,
                                            ));
                                            lemma_tokenize_shift(
                                                p,
                                                s,
                                                body_end + closing_tag(inner).len(),
                                            );
                                        },
                                        None => {},
                                    }
                                },
                            }
                        }
                    },
                }
            },
        }
    }
}

/// Prose before the first tag is ignored: putting text without any `<` in
/// front of a note does not change the tags it yields.
pub proof fn law_leading_prose_is_ignored(prose: Seq<char>, note: Seq<char>)
    requires
        forall|i: int| 0 <= i < prose.len() ==> prose[i] != '<',
    ensures
        tokenize(prose + note) == tokenize(note),
{
    lemma_find_char_skip(prose, note, '<', 0);
    lemma_tokenize_shift(prose, note, 0);
    assert(tokenize_from(prose + note, 0) == tokenize_from(prose + note, prose.len() as int));
}

proof fn lemma_find_char_suffix(s: Seq<char>, p: Seq<char>, c: char, from: int)
    requires
        0 <= from,
        forall|i: int| 0 <= i < p.len() ==> p[i] != c,
    ensures
        find_char(s + p, c, from) == find_char(s, c, from),
    decreases (s + p).len() - from,
{
    let t = s + p;
    if from < t.len() {
        if from < s.len() {
            assert(t[from] == s[from]);
            if s[from] != c {
                lemma_find_char_suffix(s, p, c, from + 1);
            }
        } else {
            assert(t[from] == p[from - s.len()]);
            lemma_find_char_suffix(s, p, c, from + 1);
        }
    }
}

proof fn lemma_find_seq_suffix(s: Seq<char>, p: Seq<char>, pat: Seq<char>, from: int)
    requires
        0 <= from,
        pat.len() > 0,
        pat[pat.len() - 1] == '>',
        forall|i: int| 0 <= i < p.len() ==> p[i] != '>',
    ensures
        find_seq(s + p, pat, from) == find_seq(s, pat, from),
    decreases (s + p).len() - from,
{
    let t = s + p;
    if from + pat.len() <= t.len() {
        if from + pat.len() <= s.len() {
            assert(t.subrange(from, from + pat.len()) =~= s.subrange(from, from + pat.len()));
            if !occurs_at(s, pat, from) {
                lemma_find_seq_suffix(s, p, pat, from + 1);
            }
        } else {
            let last = from + pat.len() - 1;
            assert(t[last] == p[last - s.len()]);
            if occurs_at(t, pat, from) {
                assert(t.subrange(from, from + pat.len())[pat.len() - 1] == t[last]);
            }
            lemma_find_seq_suffix(s, p, pat, from + 1);
        }
    }
}

proof fn lemma_tokenize_suffix(s: Seq<char>, p: Seq<char>, cursor: int)
    requires
        0 <= cursor <= s.len(),
        forall|i: int| 0 <= i < p.len() ==> p[i] != '<' && p[i] != '>',
    ensures
        tokenize_from(s + p, cursor) == tokenize_from(s, cursor),
    decreases s.len() - cursor,
{
    let t = s + p;
    lemma_find_char_suffix(s, p, '<', cursor);
    match find_char(s, '<', cursor) {
        None => {},
        Some(open) => {
            lemma_find_char_bounds(s, '<', cursor);
            lemma_find_char_suffix(s, p, '>', open + 1);
            match find_char(s, '>', open + 1) {
                None => {},
                Some(close) => {
                    lemma_find_char_bounds(s, '>', open + 1);
                    assert(t.subrange(open + 1, close) =~= s.subrange(open + 1, close));
                    let inner = trim(s.subrange(open + 1, close));
                    let next = close + 1;
                    lemma_tokenize_suffix(s, p, next);
                    if !(inner.len() == 0 || inner[0] == '/') {
                        match find_char(inner, ':', 0) {
                            Some(colon) => {},
                            None => {
                                let tag = closing_tag(inner);
                                assert(tag[tag.len() - 1] == '>');
                                lemma_find_seq_suffix(s, p, tag, next);
                                match find_seq(s, tag, next) {
                                    Some(body_end) => {
                                        lemma_find_seq_bounds(s, tag, next);
                                        assert(t.subrange(next, body_end) =~= s.subrange(
                                            next,
                                            body_end,
                                        ));
                                        lemma_tokenize_suffix(s, p, body_end + tag.len());
                                    },
                                    None => {},
                                }
                            },
                        }
                    }
                },
            }
        },
    }
}

/// Prose after a note is ignored: appending text with no `<` and no `>` to a
/// note does not change the tags it yields.
pub proof fn law_trailing_prose_is_ignored(note: Seq<char>, prose: Seq<char>)
    requires
        forall|i: int| 0 <= i < prose.len() ==> prose[i] != '<' && prose[i] != '>',
    ensures
        tokenize(note + prose) == tokenize(note),
{
    lemma_tokenize_suffix(note, prose, 0);
}

/// `t` is a `<key:value>` tag with key `key`.
pub open spec fn is_value_of(t: SpecTag, key: Seq<char>) -> bool {
    t matches SpecTag::Value { key: k, .. } && k == key
}

/// `t` is a `<key> … </key>` block with key `key`.
pub open spec fn is_block_of(t: SpecTag, key: Seq<char>) -> bool {
    t matches SpecTag::Block { key: k, .. } && k == key
}

proof fn lemma_first_value_from(tags: Seq<SpecTag>, key: Seq<char>, i: int)
    requires
        0 <= i,
    ensures
        forall|v: Seq<char>|
            first_value_from(tags, key, i) == Some(v) <==> exists|m: int|
                i <= m < tags.len() && #[trigger] tags[m] == (SpecTag::Value { key: key, value: v })
                    && forall|j: int| i <= j < m ==> !is_value_of(#[trigger] tags[j], key),
        first_value_from(tags, key, i) is None <==> forall|m: int|
            i <= m < tags.len() ==> !is_value_of(#[trigger] tags[m], key),
    decreases tags.len() - i,
{
    if i < tags.len() {
        lemma_first_value_from(tags, key, i + 1);
        assert forall|v: Seq<char>|
            first_value_from(tags, key, i) == Some(v) <==> exists|m: int|
                i <= m < tags.len() && #[trigger] tags[m] == (SpecTag::Value { key: key, value: v })
                    && forall|j: int| i <= j < m ==> !is_value_of(#[trigger] tags[j], key) by {
            if first_value_from(tags, key, i) == Some(v) {
                if is_value_of(tags[i], key) {
                    assert(tags[i] == (SpecTag::Value { key: key, value: v }));
                } else {
                    let m = choose|m: int|
                        i + 1 <= m < tags.len() && #[trigger] tags[m] == (SpecTag::Value {
                            key: key,
                            value: v,
                        }) && forall|j: int| i + 1 <= j < m ==> !is_value_of(#[trigger] tags[j], key);
                    assert forall|j: int| i <= j < m implies !is_value_of(#[trigger] tags[j], key) by {}
                }
            }
            if exists|m: int|
                i <= m < tags.len() && #[trigger] tags[m] == (SpecTag::Value { key: key, value: v })
                    && forall|j: int| i <= j < m ==> !is_value_of(#[trigger] tags[j], key) {
                let m = choose|m: int|
                    i <= m < tags.len() && #[trigger] tags[m] == (SpecTag::Value { key: key, value: v })
                        && forall|j: int| i <= j < m ==> !is_value_of(#[trigger] tags[j], key);
                if m > i {
                    assert(!is_value_of(tags[i], key));
                    assert(forall|j: int| i + 1 <= j < m ==> !is_value_of(#[trigger] tags[j], key));
                }
            }
        }
    }
}

/// The value looked up for a key is that of the first `<key:value>` tag with
/// that key, whatever other tags (flags, blocks, other keys) come before it;
/// there is none exactly when no tag is a value with that key.
pub proof fn law_value_is_first_matching_value(tags: Seq<SpecTag>, key: Seq<char>)
    ensures
        forall|v: Seq<char>|
            first_value_from(tags, key, 0) == Some(v) <==> exists|m: int|
                0 <= m < tags.len() && #[trigger] tags[m] == (SpecTag::Value { key: key, value: v })
                    && forall|j: int| 0 <= j < m ==> !is_value_of(#[trigger] tags[j], key),
        first_value_from(tags, key, 0) is None <==> forall|m: int|
            0 <= m < tags.len() ==> !is_value_of(#[trigger] tags[m], key),
{
    lemma_first_value_from(tags, key, 0);
}

proof fn lemma_first_block_from(tags: Seq<SpecTag>, key: Seq<char>, i: int)
    requires
        0 <= i,
    ensures
        forall|b: Seq<char>|
            first_block_from(tags, key, i) == Some(b) <==> exists|m: int|
                i <= m < tags.len() && #[trigger] tags[m] == (SpecTag::Block { key: key, body: b })
                    && forall|j: int| i <= j < m ==> !is_block_of(#[trigger] tags[j], key),
        first_block_from(tags, key, i) is None <==> forall|m: int|
            i <= m < tags.len() ==> !is_block_of(#[trigger] tags[m], key),
    decreases tags.len() - i,
{
    if i < tags.len() {
        lemma_first_block_from(tags, key, i + 1);
        assert forall|b: Seq<char>|
            first_block_from(tags, key, i) == Some(b) <==> exists|m: int|
                i <= m < tags.len() && #[trigger] tags[m] == (SpecTag::Block { key: key, body: b })
                    && forall|j: int| i <= j < m ==> !is_block_of(#[trigger] tags[j], key) by {
            if first_block_from(tags, key, i) == Some(b) {
                if is_block_of(tags[i], key) {
                    assert(tags[i] == (SpecTag::Block { key: key, body: b }));
                } else {
                    let m = choose|m: int|
                        i + 1 <= m < tags.len() && #[trigger] tags[m] == (SpecTag::Block {
                            key: key,
                            body: b,
                        }) && forall|j: int| i + 1 <= j < m ==> !is_block_of(#[trigger] tags[j], key);
                    assert forall|j: int| i <= j < m implies !is_block_of(#[trigger] tags[j], key) by {}
                }
            }
            if exists|m: int|
                i <= m < tags.len() && #[trigger] tags[m] == (SpecTag::Block { key: key, body: b })
                    && forall|j: int| i <= j < m ==> !is_block_of(#[trigger] tags[j], key) {
                let m = choose|m: int|
                    i <= m < tags.len() && #[trigger] tags[m] == (SpecTag::Block { key: key, body: b })
                        && forall|j: int| i <= j < m ==> !is_block_of(#[trigger] tags[j], key);
                if m > i {
                    assert(!is_block_of(tags[i], key));
                    assert(forall|j: int| i + 1 <= j < m ==> !is_block_of(#[trigger] tags[j], key));
                }
            }
        }
    }
}

/// The block looked up for a key is the body of the first `<key> … </key>`
/// block with that key, whatever tags come before it; there is none exactly
/// when no tag is a block with that key.
pub proof fn law_block_is_first_matching_block(tags: Seq<SpecTag>, key: Seq<char>)
    ensures
        forall|b: Seq<char>|
            first_block_from(tags, key, 0) == Some(b) <==> exists|m: int|
                0 <= m < tags.len() && #[trigger] tags[m] == (SpecTag::Block { key: key, body: b })
                    && forall|j: int| 0 <= j < m ==> !is_block_of(#[trigger] tags[j], key),
        first_block_from(tags, key, 0) is None <==> forall|m: int|
            0 <= m < tags.len() ==> !is_block_of(#[trigger] tags[m], key),
{
    lemma_first_block_from(tags, key, 0);
}

proof fn lemma_values_from(tags: Seq<SpecTag>, key: Seq<char>, i: int)
    requires
        0 <= i <= tags.len(),
    ensures
        values_from(tags, key, i) == tags.subrange(i, tags.len() as int).filter(
            |t: SpecTag| is_value_of(t, key),
        ).map_values(|t: SpecTag| t->Value_value),
    decreases tags.len() - i,
{
    let p = |t: SpecTag| is_value_of(t, key);
    let f = |t: SpecTag| t->Value_value;
    if i == tags.len() {
        assert(tags.subrange(i, tags.len() as int) =~= Seq::<SpecTag>::empty());
        reveal(Seq::filter);
        assert(tags.subrange(i, tags.len() as int).filter(p) =~= Seq::<SpecTag>::empty());
    } else {
        lemma_values_from(tags, key, i + 1);
        let head = seq![tags[i]];
        let rest = tags.subrange(i + 1, tags.len() as int);
        assert(tags.subrange(i, tags.len() as int) =~= head + rest);
        Seq::filter_distributes_over_add(head, rest, p);
        reveal(Seq::filter);
        assert(head.drop_last() =~= Seq::<SpecTag>::empty());
        assert(head.drop_last().filter(p) =~= Seq::<SpecTag>::empty());
        if p(tags[i]) {
            assert(head.filter(p) =~= seq![tags[i]]);
            assert((head.filter(p) + rest.filter(p)).map_values(f) =~= seq![f(tags[i])] + rest.filter(
                p,
            ).map_values(f));
        } else {
            assert(head.filter(p) =~= Seq::<SpecTag>::empty());
            assert((head.filter(p) + rest.filter(p)) =~= rest.filter(p));
        }
    }
}

/// The values looked up for a key are exactly the values of all
/// `<key:value>` tags with that key, in order, skipping every other tag.
pub proof fn law_values_are_all_matching_values(tags: Seq<SpecTag>, key: Seq<char>)
    ensures
        values_from(tags, key, 0) == tags.filter(|t: SpecTag| is_value_of(t, key)).map_values(
            |t: SpecTag| t->Value_value,
        ),
{
    lemma_values_from(tags, key, 0);
    assert(tags.subrange(0, tags.len() as int) =~= tags);
}

proof fn lemma_trim_of_trimmed(x: Seq<char>)
    requires
        x.len() > 0,
        is_trimmed(x),
    ensures
        trim(x) == x,
{
    assert(skip_ws_fwd(x, 0) == 0);
    assert(skip_ws_back(x, x.len() as int) == x.len());
    assert(x.subrange(0, x.len() as int) =~= x);
}

proof fn lemma_find_char_first(s: Seq<char>, c: char, from: int, target: int)
    requires
        0 <= from <= target < s.len(),
        s[target] == c,
        forall|i: int| from <= i < target ==> s[i] != c,
    ensures
        find_char(s, c, from) == Some(target),
    decreases target - from,
{
    if from < target {
        lemma_find_char_first(s, c, from + 1, target);
    }
}

proof fn lemma_find_char_absent(s: Seq<char>, c: char)
    requires
        forall|i: int| 0 <= i < s.len() ==> s[i] != c,
    ensures
        find_char(s, c, 0) is None,
{
    lemma_find_char_bounds(s, c, 0);
}

proof fn lemma_find_seq_first(s: Seq<char>, pat: Seq<char>, from: int, target: int)
    requires
        0 <= from <= target,
        pat.len() > 0,
        occurs_at(s, pat, target),
        forall|i: int| from <= i < target ==> s[i] != pat[0],
    ensures
        find_seq(s, pat, from) == Some(target),
    decreases target - from,
{
    if from < target {
        assert(s.subrange(from, from + pat.len())[0] == s[from]);
        lemma_find_seq_first(s, pat, from + 1, target);
    }
}

proof fn lemma_find_seq_absent(s: Seq<char>, pat: Seq<char>, from: int)
    requires
        0 <= from,
        forall|i: int| from <= i ==> !occurs_at(s, pat, i),
    ensures
        find_seq(s, pat, from) is None,
    decreases s.len() - from,
{
    if from + pat.len() <= s.len() && from < s.len() {
        lemma_find_seq_absent(s, pat, from + 1);
    }
}

/// One step of the scan from the start: the first tag is a `<key:value>` tag.
proof fn lemma_value_step(s: Seq<char>, open: int, close: int, colon: int)
    requires
        0 <= open < close < s.len(),
        find_char(s, '<', 0) == Some(open),
        find_char(s, '>', open + 1) == Some(close),
        trim(s.subrange(open + 1, close)).len() > 0,
        trim(s.subrange(open + 1, close))[0] != '/',
        find_char(trim(s.subrange(open + 1, close)), ':', 0) == Some(colon),
    ensures
        tokenize_from(s, 0) == seq![
            SpecTag::Value {
                key: trim(trim(s.subrange(open + 1, close)).subrange(0, colon)),
                value: trim(
                    trim(s.subrange(open + 1, close)).subrange(
                        colon + 1,
                        trim(s.subrange(open + 1, close)).len() as int,
                    ),
                ),
            },
        ] + tokenize_from(s, close + 1),
{
}

/// One step of the scan from the start: the first tag opens a block closed
/// at `body_end`.
proof fn lemma_block_step(s: Seq<char>, open: int, close: int, body_end: int)
    requires
        0 <= open < close < s.len(),
        find_char(s, '<', 0) == Some(open),
        find_char(s, '>', open + 1) == Some(close),
        trim(s.subrange(open + 1, close)).len() > 0,
        trim(s.subrange(open + 1, close))[0] != '/',
        find_char(trim(s.subrange(open + 1, close)), ':', 0) is None,
        find_seq(s, closing_tag(trim(s.subrange(open + 1, close))), close + 1) == Some(body_end),
    ensures
        tokenize_from(s, 0) == seq![
            SpecTag::Block {
                key: trim(s.subrange(open + 1, close)),
                body: trim(s.subrange(close + 1, body_end)),
            },
        ] + tokenize_from(s, body_end + closing_tag(trim(s.subrange(open + 1, close))).len()),
{
}

/// One step of the scan from the start: the first tag is a flag.
proof fn lemma_flag_step(s: Seq<char>, open: int, close: int)
    requires
        0 <= open < close < s.len(),
        find_char(s, '<', 0) == Some(open),
        find_char(s, '>', open + 1) == Some(close),
        trim(s.subrange(open + 1, close)).len() > 0,
        trim(s.subrange(open + 1, close))[0] != '/',
        find_char(trim(s.subrange(open + 1, close)), ':', 0) is None,
        find_seq(s, closing_tag(trim(s.subrange(open + 1, close))), close + 1) is None,
    ensures
        tokenize_from(s, 0) == seq![SpecTag::Flag { key: trim(s.subrange(open + 1, close)) }]
            + tokenize_from(s, close + 1),
{
}

/// After a `<key> … </key>` block the scan resumes right after the close tag:
/// prose (without `<`), then a block, then any text `rest`, yields the block
/// followed by exactly the tags of `rest` on its own. The key is a proper
/// flag/block key (non-empty, trimmed, no `/` first, no `:` or `>`), and the
/// body holds no `<`.
#[verifier::rlimit(30)]
pub proof fn law_block_then_rest(
    pre: Seq<char>,
    key: Seq<char>,
    body: Seq<char>,
    rest: Seq<char>,
)
    requires
        forall|i: int| 0 <= i < pre.len() ==> pre[i] != '<',
        key.len() > 0,
        key[0] != '/',
        is_trimmed(key),
        forall|i: int| 0 <= i < key.len() ==> key[i] != ':' && key[i] != '>',
        forall|i: int| 0 <= i < body.len() ==> body[i] != '<',
    ensures
        tokenize(pre + seq!['<'] + key + seq!['>'] + body + closing_tag(key) + rest) == seq![
            SpecTag::Block { key: key, body: trim(body) },
        ] + tokenize(rest),
{
    let head = pre + seq!['<'] + key + seq!['>'] + body + closing_tag(key);
    let s = head + rest;
    assert(s =~= pre + seq!['<'] + key + seq!['>'] + body + closing_tag(key) + rest);
    let open = pre.len() as int;
    let close = open + 1 + key.len();
    let next = close + 1;
    let body_end = next + body.len();
    let ct = closing_tag(key);
    assert forall|i: int| 0 <= i < open implies s[i] != '<' by {
        assert(s[i] == pre[i]);
    }
    assert(s[open] == '<');
    lemma_find_char_first(s, '<', 0, open);
    assert forall|i: int| open + 1 <= i < close implies s[i] != '>' by {
        assert(s[i] == key[i - open - 1]);
    }
    assert(s[close] == '>');
    lemma_find_char_first(s, '>', open + 1, close);
    assert(s.subrange(open + 1, close) =~= key);
    lemma_trim_of_trimmed(key);
    lemma_find_char_absent(key, ':');
    assert(s.subrange(body_end, body_end + ct.len()) =~= ct);
    assert forall|i: int| next <= i < body_end implies s[i] != ct[0] by {
        assert(s[i] == body[i - next]);
    }
    lemma_find_seq_first(s, ct, next, body_end);
    assert(s.subrange(next, body_end) =~= body);
    assert(body_end + ct.len() == head.len());
    lemma_block_step(s, open, close, body_end);
    lemma_tokenize_shift(head, rest, 0);
}

/// After a `<key:value>` tag the scan resumes right after its `>`: prose
/// (without `<`), then such a tag, then any text `rest`, yields the tag
/// followed by exactly the tags of `rest` on its own. The tag's inner text
/// `key:value` has no `>`, no whitespace at either end, no leading `/`, and
/// `key` holds no `:`.
#[verifier::rlimit(30)]
pub proof fn law_value_then_rest(
    pre: Seq<char>,
    key: Seq<char>,
    value: Seq<char>,
    rest: Seq<char>,
)
    requires
        forall|i: int| 0 <= i < pre.len() ==> pre[i] != '<',
        forall|i: int| 0 <= i < key.len() ==> key[i] != ':',
        is_trimmed(key + seq![':'] + value),
        (key + seq![':'] + value)[0] != '/',
        forall|i: int|
            0 <= i < (key + seq![':'] + value).len() ==> (key + seq![':'] + value)[i] != '>',
    ensures
        tokenize(pre + seq!['<'] + (key + seq![':'] + value) + seq!['>'] + rest) == seq![
            SpecTag::Value { key: trim(key), value: trim(value) },
        ] + tokenize(rest),
{
    let inner = key + seq![':'] + value;
    let head = pre + seq!['<'] + inner + seq!['>'];
    let s = head + rest;
    assert(s =~= pre + seq!['<'] + inner + seq!['>'] + rest);
    let open = pre.len() as int;
    let close = open + 1 + inner.len();
    assert forall|i: int| 0 <= i < open implies s[i] != '<' by {
        assert(s[i] == pre[i]);
    }
    assert(s[open] == '<');
    lemma_find_char_first(s, '<', 0, open);
    assert forall|i: int| open + 1 <= i < close implies s[i] != '>' by {
        assert(s[i] == inner[i - open - 1]);
    }
    assert(s[close] == '>');
    lemma_find_char_first(s, '>', open + 1, close);
    assert(s.subrange(open + 1, close) =~= inner);
    lemma_trim_of_trimmed(inner);
    assert forall|i: int| 0 <= i < key.len() implies inner[i] != ':' by {
        assert(inner[i] == key[i]);
    }
    assert(inner[key.len() as int] == ':');
    lemma_find_char_first(inner, ':', 0, key.len() as int);
    assert(inner.subrange(0, key.len() as int) =~= key);
    assert(inner.subrange((key.len() + 1) as int, inner.len() as int) =~= value);
    assert(close + 1 == head.len());
    lemma_value_step(s, open, close, key.len() as int);
    lemma_tokenize_shift(head, rest, 0);
}

/// After a `<key>` flag (one with no `</key>` anywhere after it) the scan
/// resumes right after its `>`: prose (without `<`), then the flag, then any
/// text `rest` without `</key>`, yields the flag followed by exactly the tags
/// of `rest` on its own.
#[verifier::rlimit(30)]
pub proof fn law_flag_then_rest(pre: Seq<char>, key: Seq<char>, rest: Seq<char>)
    requires
        forall|i: int| 0 <= i < pre.len() ==> pre[i] != '<',
        key.len() > 0,
        key[0] != '/',
        is_trimmed(key),
        forall|i: int| 0 <= i < key.len() ==> key[i] != ':' && key[i] != '>',
        forall|i: int| 0 <= i ==> !occurs_at(rest, closing_tag(key), i),
    ensures
        tokenize(pre + seq!['<'] + key + seq!['>'] + rest) == seq![SpecTag::Flag { key: key }]
            + tokenize(rest),
{
    let head = pre + seq!['<'] + key + seq!['>'];
    let s = head + rest;
    assert(s =~= pre + seq!['<'] + key + seq!['>'] + rest);
    let open = pre.len() as int;
    let close = open + 1 + key.len();
    assert forall|i: int| 0 <= i < open implies s[i] != '<' by {
        assert(s[i] == pre[i]);
    }
    assert(s[open] == '<');
    lemma_find_char_first(s, '<', 0, open);
    assert forall|i: int| open + 1 <= i < close implies s[i] != '>' by {
        assert(s[i] == key[i - open - 1]);
    }
    assert(s[close] == '>');
    lemma_find_char_first(s, '>', open + 1, close);
    assert(s.subrange(open + 1, close) =~= key);
    lemma_trim_of_trimmed(key);
    lemma_find_char_absent(key, ':');
    lemma_find_seq_absent(rest, closing_tag(key), 0);
    lemma_find_seq_shift(head, rest, closing_tag(key), 0);
    assert(close + 1 == head.len());
    lemma_flag_step(s, open, close);
    lemma_tokenize_shift(head, rest, 0);
}

proof fn lemma_value_first_of_values(tags: Seq<SpecTag>, key: Seq<char>, i: int)
    ensures
        first_value_from(tags, key, i) == (if values_from(tags, key, i).len() > 0 {
            Some(values_from(tags, key, i)[0])
        } else {
            None
        }),
    decreases tags.len() - i,
{
    if i < 0 || i >= tags.len() {
    } else {
        lemma_value_first_of_values(tags, key, i + 1);
    }
}

/// The value looked up for a key is the first of all its values, and there is
/// one exactly when there are any.
pub proof fn law_value_is_first_of_values(tokens: NoteTokens, key: Seq<char>)
    ensures
        first_value_from(tokens.tags_view(), key, 0) == (if values_from(
            tokens.tags_view(),
            key,
            0,
        ).len() > 0 {
            Some(values_from(tokens.tags_view(), key, 0)[0])
        } else {
            None
        }),
{
    lemma_value_first_of_values(tokens.tags_view(), key, 0);
}

proof fn lemma_found_implies_key(tags: Seq<SpecTag>, key: Seq<char>, i: int)
    requires
        0 <= i,
    ensures
        first_value_from(tags, key, i) is Some ==> exists|j: int|
            i <= j < tags.len() && (#[trigger] tags[j]).key() == key,
        first_block_from(tags, key, i) is Some ==> exists|j: int|
            i <= j < tags.len() && (#[trigger] tags[j]).key() == key,
    decreases tags.len() - i,
{
    if i >= tags.len() {
    } else {
        lemma_found_implies_key(tags, key, i + 1);
        if tags[i].key() == key {
        }
    }
}

/// Any key reported as a flag, a value or a block is reported by `contains`.
pub proof fn law_lookups_imply_contains(tokens: NoteTokens, key: Seq<char>)
    ensures
        (exists|i: int|
            0 <= i < tokens.tags_view().len() && #[trigger] tokens.tags_view()[i]
                == (SpecTag::Flag { key })) ==> (exists|i: int|
            0 <= i < tokens.tags_view().len() && (#[trigger] tokens.tags_view()[i]).key()
                == key),
        first_value_from(tokens.tags_view(), key, 0) is Some ==> (exists|i: int|
            0 <= i < tokens.tags_view().len() && (#[trigger] tokens.tags_view()[i]).key()
                == key),
        first_block_from(tokens.tags_view(), key, 0) is Some ==> (exists|i: int|
            0 <= i < tokens.tags_view().len() && (#[trigger] tokens.tags_view()[i]).key()
                == key),
{
    lemma_found_implies_key(tokens.tags_view(), key, 0);
    if exists|i: int|
        0 <= i < tokens.tags_view().len() && #[trigger] tokens.tags_view()[i] == (SpecTag::Flag {
            key,
        }) {
        let i = choose|i: int|
            0 <= i < tokens.tags_view().len() && #[trigger] tokens.tags_view()[i] == (
            SpecTag::Flag { key });
        assert(tokens.tags_view()[i].key() == key);
    }
}

/// A single recognized tag within a note.
#[derive(Debug, Clone, PartialEq, Eq)]
pub enum NoteTag {
    /// A bare `<key>` with no value and no matching close tag.
    Flag {
        /// The tag key.
        key: String,
    },
    /// A `<key:value>` pair.
    Value {
        /// The tag key.
        key: String,
        /// The (trimmed) value text.
        value: String,
    },
    /// A `<key> … </key>` block.
    Block {
        /// The tag key.
        key: String,
        /// The (trimmed) body between the open and close tags.
        body: String,
    },
}

impl View for NoteTag {
    type V = SpecTag;

    open spec fn view(&self) -> SpecTag {
        match self {
            NoteTag::Flag { key } => SpecTag::Flag { key: key@ },
            NoteTag::Value { key, value } => SpecTag::Value { key: key@, value: value@ },
            NoteTag::Block { key, body } => SpecTag::Block { key: key@, body: body@ },
        }
    }
}

/// The views of a sequence of tags.
pub open spec fn tags_view(tags: Seq<NoteTag>) -> Seq<SpecTag> {
    tags.map_values(|t: NoteTag| t@)
}

impl NoteTag {
    /// The key of this tag.
    pub fn key(&self) -> (r: &str)
        ensures
            r@ == self@.key(),
    {
        match self {
            NoteTag::Flag { key } => key.as_str(),
            NoteTag::Value { key, .. } => key.as_str(),
            NoteTag::Block { key, .. } => key.as_str(),
        }
    }
}

/// The first `<key:value>` value with `key` among `tags[i..]`.
pub open spec fn first_value_from(tags: Seq<SpecTag>, key: Seq<char>, i: int) -> Option<
    Seq<char>,
>
    decreases tags.len() - i,
{
    if i < 0 || i >= tags.len() {
        None
    } else {
        match tags[i] {
            SpecTag::Value { key: k, value } => if k == key {
                Some(value)
            } else {
                first_value_from(tags, key, i + 1)
            },
            _ => first_value_from(tags, key, i + 1),
        }
    }
}

/// Every `<key:value>` value with `key` among `tags[i..]`, in order.
pub open spec fn values_from(tags: Seq<SpecTag>, key: Seq<char>, i: int) -> Seq<Seq<char>>
    decreases tags.len() - i,
{
    if i < 0 || i >= tags.len() {
        seq![]
    } else {
        match tags[i] {
            SpecTag::Value { key: k, value } => if k == key {
                seq![value] + values_from(tags, key, i + 1)
            } else {
                values_from(tags, key, i + 1)
            },
            _ => values_from(tags, key, i + 1),
        }
    }
}

/// The first `<key> … </key>` body with `key` among `tags[i..]`.
pub open spec fn first_block_from(tags: Seq<SpecTag>, key: Seq<char>, i: int) -> Option<
    Seq<char>,
>
    decreases tags.len() - i,
{
    if i < 0 || i >= tags.len() {
        None
    } else {
        match tags[i] {
            SpecTag::Block { key: k, body } => if k == key {
                Some(body)
            } else {
                first_block_from(tags, key, i + 1)
            },
            _ => first_block_from(tags, key, i + 1),
        }
    }
}

/// The parsed tags of a single note, plus the note text itself.
#[derive(Debug, Clone, PartialEq, Eq, Default)]
pub struct NoteTokens {
    raw: String,
    tags: Vec<NoteTag>,
}

impl NoteTokens {
    /// The note text, unmodified.
    pub closed spec fn raw_view(&self) -> Seq<char> {
        self.raw@
    }

    /// The recognized tags, in source order.
    pub closed spec fn tags_view(&self) -> Seq<SpecTag> {
        tags_view(self.tags@)
    }

    /// Tokenizes a note string into its recognized tags. Text outside of tags is
    /// ignored. Stray/unmatched closing tags and empty `<>` are skipped.
    pub fn parse(note: &str) -> (r: Self)
        ensures
            r.raw_view() == note@,
            r.tags_view() == tokenize(note@),
    {
        let v = chars_of(note);
        let n = v.len();
        let mut tags: Vec<NoteTag> = Vec::new();
        let mut cursor: usize = 0;
        loop
            invariant
                n == v@.len(),
                cursor <= n,
                tags_view(tags@) + tokenize_from(v@, cursor as int) == tokenize(v@),
            ensures
                tags_view(tags@) =~= tokenize(v@),
            decreases n - cursor,
        {
            let ghost before = tags_view(tags@);
            let open = match find_char_in(&v, '<', cursor) {
                Some(i) => i,
                None => {
                    assert(tokenize_from(v@, cursor as int) =~= seq![]);
                    assert(tags_view(tags@) + seq![] =~= tags_view(tags@));
                    break;
                },
            };
            proof {
                lemma_find_char_bounds(v@, '<', cursor as int);
            }
            let close = match find_char_in(&v, '>', open + 1) {
                Some(i) => i,
                None => {
                    assert(tokenize_from(v@, cursor as int) =~= seq![]);
                    assert(tags_view(tags@) + seq![] =~= tags_view(tags@));
                    break;
                },
            };
            proof {
                lemma_find_char_bounds(v@, '>', open + 1);
            }
            let inner_raw = copy_range(&v, open + 1, close);
            let inner = trim_chars(&inner_raw);
            let next = close + 1;
            if inner.len() == 0 || inner[0] == '/' {
                cursor = next;
                continue ;
            }
            match find_char_in(&inner, ':', 0) {
                Some(colon) => {
                    proof {
                        lemma_find_char_bounds(inner@, ':', 0);
                    }
                    let key_raw = copy_range(&inner, 0, colon);
                    let value_raw = copy_range(&inner, colon + 1, inner.len());
                    let key = trim_chars(&key_raw);
                    let value = trim_chars(&value_raw);
                    let tag = NoteTag::Value { key: string_of(&key), value: string_of(&value) };
                    tags.push(tag);
                    cursor = next;
                    assert(tags_view(tags@) =~= before.push(tag@));
                },
                None => {
                    let mut closing: Vec<char> = Vec::new();
                    closing.push('<');
                    closing.push('/');
                    let mut k: usize = 0;
                    while k < inner.len()
                        invariant
                            k <= inner@.len(),
                            closing@ == seq!['<', '/'] + inner@.take(k as int),
                        decreases inner@.len() - k,
                    {
                        closing.push(inner[k]);
                        assert(inner@.take(k + 1) =~= inner@.take(k as int).push(inner@[k as int]));
                        k = k + 1;
                    }
                    closing.push('>');
                    assert(inner@.take(inner@.len() as int) =~= inner@);
                    assert(closing@ =~= closing_tag(inner@));
                    match find_seq_in(&v, &closing, next) {
                        Some(body_end) => {
                            proof {
                                lemma_find_seq_bounds(v@, closing@, next as int);
                            }
                            let body_raw = copy_range(&v, next, body_end);
                            let body = trim_chars(&body_raw);
                            let tag = NoteTag::Block { key: string_of(&inner), body: string_of(&body) };
                            tags.push(tag);
                            cursor = body_end + closing.len();
                            assert(tags_view(tags@) =~= before.push(tag@));
                        },
                        None => {
                            let tag = NoteTag::Flag { key: string_of(&inner) };
                            tags.push(tag);
                            cursor = next;
                            assert(tags_view(tags@) =~= before.push(tag@));
                        },
                    }
                },
            }
        }
        NoteTokens { raw: note.to_owned(), tags }
    }

    /// The untokenized note text, as given.
    pub fn raw(&self) -> (r: &str)
        ensures
            r@ == self.raw_view(),
    {
        self.raw.as_str()
    }

    /// All recognized tags, in source order.
    pub fn tags(&self) -> (r: &[NoteTag])
        ensures
            tags_view(r@) == self.tags_view(),
    {
        self.tags.as_slice()
    }

    /// Whether any tag (of any kind) uses `key`.
    pub fn contains(&self, key: &str) -> (r: bool)
        ensures
            r == exists|i: int|
                0 <= i < self.tags_view().len() && (#[trigger] self.tags_view()[i]).key() == key@,
    {
        let k = key.to_owned();
        let mut i: usize = 0;
        while i < self.tags.len()
            invariant
                i <= self.tags@.len(),
                k@ == key@,
                forall|j: int| 0 <= j < i ==> (#[trigger] self.tags_view()[j]).key() != key@,
            decreases self.tags@.len() - i,
        {
            let ghost t = self.tags_view()[i as int];
            let matched = match &self.tags[i] {
                NoteTag::Flag { key: tk } => *tk == k,
                NoteTag::Value { key: tk, .. } => *tk == k,
                NoteTag::Block { key: tk, .. } => *tk == k,
            };
            if matched {
                assert(t.key() == key@);
                return true;
            }
            i = i + 1;
        }
        false
    }

    /// Whether a bare `<key>` flag is present.
    pub fn has_flag(&self, key: &str) -> (r: bool)
        ensures
            r == exists|i: int|
                0 <= i < self.tags_view().len() && #[trigger] self.tags_view()[i]
                    == (SpecTag::Flag { key: key@ }),
    {
        let k = key.to_owned();
        let mut i: usize = 0;
        while i < self.tags.len()
            invariant
                i <= self.tags@.len(),
                k@ == key@,
                forall|j: int|
                    0 <= j < i ==> #[trigger] self.tags_view()[j] != (SpecTag::Flag { key: key@ }),
            decreases self.tags@.len() - i,
        {
            let ghost t = self.tags_view()[i as int];
            if let NoteTag::Flag { key: tk } = &self.tags[i] {
                if *tk == k {
                    assert(t == SpecTag::Flag { key: key@ });
                    return true;
                }
            }
            i = i + 1;
        }
        false
    }

    /// The value of the first `<key:value>` tag with `key`.
    pub fn value(&self, key: &str) -> (r: Option<&str>)
        ensures
            r matches Some(v) ==> first_value_from(self.tags_view(), key@, 0) == Some(v@),
            r is None ==> first_value_from(self.tags_view(), key@, 0) is None,
    {
        let k = key.to_owned();
        let mut i: usize = 0;
        while i < self.tags.len()
            invariant
                i <= self.tags@.len(),
                k@ == key@,
                first_value_from(self.tags_view(), key@, 0) == first_value_from(
                    self.tags_view(),
                    key@,
                    i as int,
                ),
            decreases self.tags@.len() - i,
        {
            if let NoteTag::Value { key: tk, value } = &self.tags[i] {
                if *tk == k {
                    return Some(value.as_str());
                }
            }
            i = i + 1;
        }
        None
    }

    /// All values of `<key:value>` tags with `key`, in source order.
    pub fn values(&self, key: &str) -> (r: Vec<&str>)
        ensures
            r@.map_values(|s: &str| s@) == values_from(self.tags_view(), key@, 0),
    {
        let k = key.to_owned();
        let mut out: Vec<&str> = Vec::new();
        let mut i: usize = 0;
        while i < self.tags.len()
            invariant
                i <= self.tags@.len(),
                k@ == key@,
                out@.map_values(|s: &str| s@) + values_from(self.tags_view(), key@, i as int)
                    == values_from(self.tags_view(), key@, 0),
            decreases self.tags@.len() - i,
        {
            let ghost before = out@.map_values(|s: &str| s@);
            if let NoteTag::Value { key: tk, value } = &self.tags[i] {
                if *tk == k {
                    out.push(value.as_str());
                    assert(out@.map_values(|s: &str| s@) =~= before.push(value@));
                }
            }
            i = i + 1;
        }
        out
    }

    /// The body of the first `<key> … </key>` block with `key`.
    pub fn block(&self, key: &str) -> (r: Option<&str>)
        ensures
            r matches Some(b) ==> first_block_from(self.tags_view(), key@, 0) == Some(b@),
            r is None ==> first_block_from(self.tags_view(), key@, 0) is None,
    {
        let k = key.to_owned();
        let mut i: usize = 0;
        while i < self.tags.len()
            invariant
                i <= self.tags@.len(),
                k@ == key@,
                first_block_from(self.tags_view(), key@, 0) == first_block_from(
                    self.tags_view(),
                    key@,
                    i as int,
                ),
            decreases self.tags@.len() - i,
        {
            if let NoteTag::Block { key: tk, body } = &self.tags[i] {
                if *tk == k {
                    return Some(body.as_str());
                }
            }
            i = i + 1;
        }
        None
    }
}

} // verus!
