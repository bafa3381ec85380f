//! An extensible registry that turns [`NoteTokens`] into typed metadata.
//!
//! Each registered parser produces one metadata type, identified by that
//! type's `TypeId`, and carries a stable, unique tag that identifies its output
//! in baked (ahead-of-time processed) assets. The registry keeps the
//! bookkeeping: which type each parser produces, which tag it uses, and the
//! rule that a tag already used by one type is refused to another. Running a
//! parser is the caller's closure over the stored parser payload, so the
//! registry itself is independent of how parsers are represented.
use std::any::TypeId;
use vstd::prelude::*;

use crate::keymap::{KeyMap, keys_distinct, lemma_seq_map_at, lemma_seq_map_has, seq_map};
use crate::notes::tokens::{NoteTokens, tokenize};
use crate::text::{lemma_lex_irreflexive, lemma_lex_total, lemma_lex_transitive, lex_lt, string_lt};

verus! {

/// Typed metadata parsed from a single note: at most one value per metadata
/// type.
pub struct ParsedNote<V> {
    map: KeyMap<TypeId, V>,
}

impl<V> View for ParsedNote<V> {
    type V = Map<TypeId, V>;

    closed spec fn view(&self) -> Map<TypeId, V> {
        self.map@
    }
}

impl<V> ParsedNote<V> {
    /// A note with no metadata.
    pub fn new() -> (r: Self)
        ensures
            r@ == Map::<TypeId, V>::empty(),
    {
        ParsedNote { map: KeyMap::new() }
    }

    /// The parsed metadata of type `ty`, if present.
    pub fn get(&self, ty: &TypeId) -> (r: Option<&V>)
        ensures
            r matches Some(v) ==> self@.contains_key(*ty) && self@[*ty] == *v,
            r is None ==> !self@.contains_key(*ty),
    {
        self.map.get(ty)
    }

    /// Whether metadata of type `ty` was produced for this note.
    pub fn contains(&self, ty: &TypeId) -> (r: bool)
        ensures
            r == self@.contains_key(*ty),
    {
        self.map.contains_key(ty)
    }

    /// Whether no metadata was produced.
    pub fn is_empty(&self) -> (r: bool)
        ensures
            r == (self@ == Map::<TypeId, V>::empty()),
    {
        self.map.is_empty()
    }

    /// Records `value` as the metadata of type `ty`, replacing any earlier one.
    pub fn insert_raw(&mut self, ty: TypeId, value: V)
        ensures
            final(self)@ == old(self)@.insert(ty, value),
    {
        self.map.insert(ty, value);
    }
}

impl<V> Default for ParsedNote<V> {
    fn default() -> (r: Self)
        ensures
            r@ == Map::<TypeId, V>::empty(),
    {
        ParsedNote::new()
    }
}

/// A registered parser: the stable tag of its output and the caller's parser
/// payload.
pub struct Parser<P> {
    /// Stable, unique tag identifying this parser's output in baked assets.
    pub tag: String,
    /// The parser itself, in whatever form the caller runs it.
    pub payload: P,
}

/// What [`NoteRegistry::register`] did.
#[derive(Debug, Clone, Copy, PartialEq, Eq, Structural)]
pub enum RegisterOutcome {
    /// The output type had no parser; it has one now.
    Added,
    /// The output type's earlier parser was replaced.
    Replaced,
    /// The tag already belongs to a different output type; nothing changed.
    TagTaken,
}

/// Whether `s` is sorted strictly by tag.
pub open spec fn sorted_by_tag<T>(s: Seq<(String, T)>) -> bool {
    forall|i: int, j: int| 0 <= i < j < s.len() ==> lex_lt((#[trigger] s[i]).0@, (#[trigger] s[j]).0@)
}

/// Inserts `x` into `v`, which is sorted strictly by tag and lacks `x`'s tag.
fn insert_by_tag<T>(v: &mut Vec<(String, T)>, x: (String, T))
    requires
        sorted_by_tag(old(v)@),
        forall|i: int| 0 <= i < old(v)@.len() ==> (#[trigger] old(v)@[i]).0@ != x.0@,
    ensures
        sorted_by_tag(final(v)@),
        exists|p: int| 0 <= p <= old(v)@.len() && final(v)@ == old(v)@.insert(p, x),
{
    let mut p: usize = 0;
    while p < v.len() && !string_lt(&x.0, &v[p].0)
        invariant
            p <= v@.len(),
            sorted_by_tag(v@),
            forall|i: int| 0 <= i < v@.len() ==> (#[trigger] v@[i]).0@ != x.0@,
            forall|i: int| 0 <= i < p ==> lex_lt((#[trigger] v@[i]).0@, x.0@),
        decreases v@.len() - p,
    {
        proof {
            lemma_lex_total(x.0@, v@[p as int].0@);
        }
        p = p + 1;
    }
    let ghost old_v = v@;
    v.insert(p, x);
    proof {
        assert forall|i: int, j: int| 0 <= i < j < v@.len() implies lex_lt(
            (#[trigger] v@[i]).0@,
            (#[trigger] v@[j]).0@,
        ) by {
            if j == p {
            } else if i == p {
                assert(lex_lt(x.0@, old_v[p as int].0@));
                if j - 1 > p {
                    assert(lex_lt(old_v[p as int].0@, old_v[j - 1].0@));
                    lemma_lex_transitive(x.0@, old_v[p as int].0@, old_v[j - 1].0@);
                }
            } else if i < p && j > p {
                if (p as int) < old_v.len() {
                    assert(lex_lt(x.0@, old_v[p as int].0@));
                    if j - 1 > p {
                        lemma_lex_transitive(x.0@, old_v[p as int].0@, old_v[j - 1].0@);
                    }
                }
                lemma_lex_transitive(old_v[i].0@, x.0@, old_v[j - 1].0@);
            } else if j < p {
                assert(v@[i] == old_v[i] && v@[j] == old_v[j]);
            } else {
                assert(v@[i] == old_v[i - 1] && v@[j] == old_v[j - 1]);
            }
        }
    }
}

/// The metadata reconstructed from the first `n` baked entries, given each
/// entry's deserialization outcome: an entry whose tag is indexed and whose
/// bytes deserialize records its value under the tag's type; later entries
/// replace earlier ones.
pub open spec fn unbake_upto<V>(
    index: Map<Seq<char>, TypeId>,
    baked: Seq<(String, Vec<u8>)>,
    outs: Seq<Option<V>>,
    n: nat,
) -> Map<TypeId, V>
    decreases n,
{
    if n == 0 {
        Map::empty()
    } else {
        let m = unbake_upto(index, baked, outs, (n - 1) as nat);
        let t = baked[n - 1].0@;
        if index.contains_key(t) && outs[n - 1] is Some {
            m.insert(index[t], outs[n - 1]->0)
        } else {
            m
        }
    }
}

/// A registry of note parsers, one per output type.
pub struct NoteRegistry<P> {
    parsers: KeyMap<TypeId, Parser<P>>,
    /// Every tag ever accepted, with the output type it belongs to.
    tags: Vec<(String, TypeId)>,
}

impl<P> NoteRegistry<P> {
    #[verifier::type_invariant]
    closed spec fn inv(&self) -> bool {
        &&& forall|i: int, j: int|
            0 <= i < j < self.tags@.len() ==> (#[trigger] self.tags@[i]).0@ != (
            #[trigger] self.tags@[j]).0@
        &&& forall|t: TypeId| #[trigger]
            self.parsers@.contains_key(t) ==> exists|i: int|
                0 <= i < self.tags@.len() && self.tags@[i].0@ == self.parsers@[t].tag@
                    && self.tags@[i].1 == t
        &&& forall|i: int|
            0 <= i < self.tags@.len() ==> self.parsers@.contains_key(#[trigger] self.tags@[i].1)
    }

    /// Each output type's parser: its tag and payload.
    pub closed spec fn parsers_view(&self) -> Map<TypeId, (Seq<char>, P)> {
        self.parsers@.map_values(|p: Parser<P>| (p.tag@, p.payload))
    }

    /// The output type each accepted tag belongs to.
    pub closed spec fn tag_index(&self) -> Map<Seq<char>, TypeId> {
        Map::new(
            |t: Seq<char>| exists|i: int| 0 <= i < self.tags@.len() && self.tags@[i].0@ == t,
            |t: Seq<char>|
                self.tags@[choose|i: int| 0 <= i < self.tags@.len() && self.tags@[i].0@ == t].1,
        )
    }

    /// The parsers, in registration order.
    closed spec fn entries(&self) -> Seq<(TypeId, Parser<P>)> {
        self.parsers.entries_view()
    }

    /// Every registered output type's tag is indexed to that very type, so a
    /// baked entry always comes back as the type that produced it.
    pub open spec fn routes_tags(&self) -> bool {
        forall|ty: TypeId| #[trigger]
            self.parsers_view().contains_key(ty) ==> self.tag_index().contains_key(
                self.parsers_view()[ty].0,
            ) && self.tag_index()[self.parsers_view()[ty].0] == ty
    }

    proof fn lemma_routes_tags(&self)
        requires
            self.inv(),
        ensures
            self.routes_tags(),
    {
        assert forall|ty: TypeId| #[trigger] self.parsers_view().contains_key(ty) implies self.tag_index().contains_key(
            self.parsers_view()[ty].0,
        ) && self.tag_index()[self.parsers_view()[ty].0] == ty by {
            let k = choose|k: int|
                0 <= k < self.tags@.len() && self.tags@[k].0@ == self.parsers@[ty].tag@
                    && self.tags@[k].1 == ty;
            let t = self.parsers_view()[ty].0;
            assert(t == self.parsers@[ty].tag@);
            assert(self.tags@[k].0@ == t);
            let c = choose|i: int| 0 <= i < self.tags@.len() && self.tags@[i].0@ == t;
            if c != k {
                if c < k {
                    assert(self.tags@[c].0@ != self.tags@[k].0@);
                } else {
                    assert(self.tags@[k].0@ != self.tags@[c].0@);
                }
            }
        }
    }
}

/// Every output type's tag is indexed to that type, and distinct output types
/// have distinct tags.
proof fn lemma_tags_of_entries<P>(
    entries: Seq<(TypeId, Parser<P>)>,
    tags: Seq<(String, TypeId)>,
    i: int,
    j: int,
)
    requires
        keys_distinct(entries),
        forall|a: int, b: int|
            0 <= a < b < tags.len() ==> (#[trigger] tags[a]).0@ != (#[trigger] tags[b]).0@,
        forall|t: TypeId| #[trigger]
            seq_map(entries).contains_key(t) ==> exists|k: int|
                0 <= k < tags.len() && tags[k].0@ == seq_map(entries)[t].tag@ && tags[k].1 == t,
        0 <= i < entries.len(),
        0 <= j < entries.len(),
        i != j,
    ensures
        entries[i].1.tag@ != entries[j].1.tag@,
{
    lemma_seq_map_at(entries, i);
    lemma_seq_map_at(entries, j);
    let ti = entries[i].0;
    let tj = entries[j].0;
    let ki = choose|k: int|
        0 <= k < tags.len() && tags[k].0@ == seq_map(entries)[ti].tag@ && tags[k].1 == ti;
    let kj = choose|k: int|
        0 <= k < tags.len() && tags[k].0@ == seq_map(entries)[tj].tag@ && tags[k].1 == tj;
    if i < j {
        assert(entries[i].0 != entries[j].0);
    } else {
        assert(entries[j].0 != entries[i].0);
    }
    if ki < kj {
        assert(tags[ki].0@ != tags[kj].0@);
    } else if kj < ki {
        assert(tags[kj].0@ != tags[ki].0@);
    }
}

impl<P> NoteRegistry<P> {
    /// An empty registry.
    pub fn new() -> (r: Self)
        ensures
            r.parsers_view() == Map::<TypeId, (Seq<char>, P)>::empty(),
            r.tag_index() == Map::<Seq<char>, TypeId>::empty(),
            r.routes_tags(),
    {
        let r = NoteRegistry { parsers: KeyMap::new(), tags: Vec::new() };
        assert(r.parsers_view() =~= Map::<TypeId, (Seq<char>, P)>::empty());
        assert(r.tag_index() =~= Map::<Seq<char>, TypeId>::empty());
        r
    }

    fn tag_position(&self, tag: &String) -> (r: Option<usize>)
        ensures
            r matches Some(i) ==> i < self.tags@.len() && self.tags@[i as int].0@ == tag@
                && self.tag_index().contains_key(tag@) && self.tag_index()[tag@] == self.tags@[i as int].1,
            r is None ==> !self.tag_index().contains_key(tag@),
    {
        proof {
            use_type_invariant(self);
        }
        let mut i: usize = 0;
        while i < self.tags.len()
            invariant
                i <= self.tags@.len(),
                forall|a: int, b: int|
                    0 <= a < b < self.tags@.len() ==> (#[trigger] self.tags@[a]).0@ != (
                    #[trigger] self.tags@[b]).0@,
                forall|j: int| 0 <= j < i ==> self.tags@[j].0@ != tag@,
            decreases self.tags@.len() - i,
        {
            if self.tags[i].0 == *tag {
                proof {
                    let k = choose|k: int| 0 <= k < self.tags@.len() && self.tags@[k].0@ == tag@;
                    if k < i {
                        assert(self.tags@[k].0@ != self.tags@[i as int].0@);
                    } else if k > i {
                        assert(self.tags@[i as int].0@ != self.tags@[k].0@);
                    }
                }
                return Some(i);
            }
            i = i + 1;
        }
        None
    }

    /// Registers `payload` as the parser producing metadata of type `ty`, with
    /// stable tag `tag`.
    ///
    /// A parser for an already-registered output type replaces the earlier one.
    /// A tag that already belongs to a different output type is refused and
    /// the registry is left unchanged.
    pub fn register(&mut self, ty: TypeId, tag: String, payload: P) -> (r: RegisterOutcome)
        ensures
            (r == RegisterOutcome::TagTaken) == (old(self).tag_index().contains_key(tag@)
                && old(self).tag_index()[tag@] != ty),
            r == RegisterOutcome::TagTaken ==> final(self).parsers_view() == old(
                self,
            ).parsers_view() && final(self).tag_index() == old(self).tag_index(),
            r != RegisterOutcome::TagTaken ==> final(self).parsers_view() == old(
                self,
            ).parsers_view().insert(ty, (tag@, payload)) && final(self).tag_index() == old(
                self,
            ).tag_index().insert(tag@, ty),
            (r == RegisterOutcome::Replaced) == (r != RegisterOutcome::TagTaken && old(
                self,
            ).parsers_view().contains_key(ty)),
            final(self).routes_tags(),
    {
        proof {
            use_type_invariant(&*self);
            self.lemma_routes_tags();
        }
        let ghost old_parsers = self.parsers@;
        let ghost old_tags = self.tags@;
        let ghost old_index = self.tag_index();
        let ghost old_view = self.parsers_view();
        let pos = self.tag_position(&tag);
        if let Some(i) = pos {
            if !(self.tags[i].1 == ty) {
                return RegisterOutcome::TagTaken;
            }
        }
        let existed = self.parsers.contains_key(&ty);
        let mut this = NoteRegistry::new();
        std::mem::swap(self, &mut this);
        let NoteRegistry { mut parsers, mut tags } = this;
        if pos.is_none() {
            tags.push((tag.clone(), ty));
            proof {
                assert forall|a: int, b: int|
                    0 <= a < b < tags@.len() implies (#[trigger] tags@[a]).0@ != (
                    #[trigger] tags@[b]).0@ by {
                    if b == old_tags.len() {
                        assert(!(exists|k: int| 0 <= k < old_tags.len() && old_tags[k].0@ == tag@));
                        assert(old_tags[a].0@ != tag@);
                    } else {
                        assert(old_tags[a].0@ != old_tags[b].0@);
                    }
                }
            }
        }
        let ghost tag_view = tag@;
        parsers.insert(ty, Parser { tag, payload });
        proof {
            assert(tags@.len() >= old_tags.len());
            assert forall|k: int| 0 <= k < old_tags.len() implies tags@[k] == old_tags[k] by {}
            assert(exists|k: int| 0 <= k < tags@.len() && tags@[k].0@ == tag_view && tags@[k].1
                == ty) by {
                if let Some(i) = pos {
                    assert(tags@[i as int].0@ == tag_view);
                } else {
                    assert(tags@[old_tags.len() as int].0@ == tag_view);
                }
            }
            assert forall|t: TypeId| #[trigger] parsers@.contains_key(t) implies exists|k: int|
                0 <= k < tags@.len() && tags@[k].0@ == parsers@[t].tag@ && tags@[k].1 == t by {
                if t != ty {
                    let k = choose|k: int|
                        0 <= k < old_tags.len() && old_tags[k].0@ == old_parsers[t].tag@
                            && old_tags[k].1 == t;
                    assert(tags@[k] == old_tags[k]);
                }
            }
            assert(parsers@.map_values(|p: Parser<P>| (p.tag@, p.payload)) =~= old_view.insert(
                ty,
                (tag_view, payload),
            ));
        }
        proof {
            assert(forall|a: int, b: int|
                0 <= a < b < tags@.len() ==> (#[trigger] tags@[a]).0@ != (#[trigger] tags@[b]).0@);
            assert(forall|t: TypeId| #[trigger]
                parsers@.contains_key(t) ==> exists|i: int|
                    0 <= i < tags@.len() && tags@[i].0@ == parsers@[t].tag@ && tags@[i].1 == t);
            let ghost r = NoteRegistry { parsers, tags };
            assert(r.parsers == parsers);
            assert(r.tags@ == tags@);
            assert(forall|a: int, b: int|
                0 <= a < b < r.tags@.len() ==> (#[trigger] r.tags@[a]).0@ != (#[trigger] r.tags@[b]).0@);
            assert(forall|t: TypeId| #[trigger]
                r.parsers@.contains_key(t) ==> exists|i: int|
                    0 <= i < r.tags@.len() && r.tags@[i].0@ == r.parsers@[t].tag@ && r.tags@[i].1 == t);
            assert forall|i: int| 0 <= i < r.tags@.len() implies r.parsers@.contains_key(
                #[trigger] r.tags@[i].1,
            ) by {
                if i < old_tags.len() {
                    assert(old_parsers.contains_key(old_tags[i].1));
                }
            }
            assert(r.inv());
            r.lemma_routes_tags();
        }
        *self = NoteRegistry { parsers, tags };
        proof {
            assert forall|t: Seq<char>| #[trigger] self.tag_index().contains_key(t)
                == old_index.insert(tag_view, ty).contains_key(t) by {
                if old_index.contains_key(t) {
                    let k = choose|k: int| 0 <= k < old_tags.len() && old_tags[k].0@ == t;
                    assert(self.tags@[k].0@ == t);
                }
                if t == tag_view {
                    if let Some(i) = pos {
                        assert(self.tags@[i as int].0@ == t);
                    } else {
                        assert(self.tags@[old_tags.len() as int].0@ == t);
                    }
                }
                if self.tag_index().contains_key(t) && t != tag_view {
                    let k = choose|k: int| 0 <= k < self.tags@.len() && self.tags@[k].0@ == t;
                    if k < old_tags.len() {
                        assert(old_tags[k].0@ == t);
                    }
                }
            }
            assert forall|t: Seq<char>| #[trigger] self.tag_index().contains_key(t)
                implies self.tag_index()[t] == old_index.insert(tag_view, ty)[t] by {
                let k = choose|k: int| 0 <= k < self.tags@.len() && self.tags@[k].0@ == t;
                let kk = if t == tag_view {
                    if let Some(i) = pos {
                        i as int
                    } else {
                        old_tags.len() as int
                    }
                } else {
                    choose|k2: int| 0 <= k2 < old_tags.len() && old_tags[k2].0@ == t
                };
                assert(self.tags@[kk].0@ == t);
                if k < kk {
                    assert(self.tags@[k].0@ != self.tags@[kk].0@);
                } else if kk < k {
                    assert(self.tags@[kk].0@ != self.tags@[k].0@);
                }
                if t != tag_view {
                    assert(old_index[t] == old_tags[kk].1);
                }
            }
            assert(self.tag_index() =~= old_index.insert(tag_view, ty));
        }
        if existed {
            RegisterOutcome::Replaced
        } else {
            RegisterOutcome::Added
        }
    }

    /// Establishes, for any registry, that each registered output type's tag
    /// is indexed to that very type ([`NoteRegistry::routes_tags`]), the
    /// premise of the bake/unbake laws. It computes nothing.
    pub fn tags_route_to_their_types(&self)
        ensures
            self.routes_tags(),
    {
        proof {
            use_type_invariant(self);
            self.lemma_routes_tags();
        }
    }

    /// Whether a parser producing `ty` is registered.
    pub fn has(&self, ty: &TypeId) -> (r: bool)
        ensures
            r == self.parsers_view().contains_key(*ty),
    {
        self.parsers.contains_key(ty)
    }

    /// The parser payload registered for `ty`.
    pub fn parser(&self, ty: &TypeId) -> (r: Option<&P>)
        ensures
            r matches Some(p) ==> self.parsers_view().contains_key(*ty)
                && self.parsers_view()[*ty].1 == *p,
            r is None ==> !self.parsers_view().contains_key(*ty),
    {
        match self.parsers.get(ty) {
            Some(p) => Some(&p.payload),
            None => None,
        }
    }

    /// `r` is a possible result of running every parser on `tokens` (through
    /// `call`): each registered output type appears exactly when its parser
    /// yielded a value, with that value.
    pub open spec fn parse_all_result<V, C: Fn(&P, &NoteTokens) -> Option<V>>(
        &self,
        tokens: &NoteTokens,
        call: C,
        r: Map<TypeId, V>,
    ) -> bool {
        &&& forall|ty: TypeId| #[trigger]
            r.contains_key(ty) ==> self.parsers_view().contains_key(ty) && call.ensures(
                (&self.parsers_view()[ty].1, tokens),
                Some(r[ty]),
            )
        &&& forall|ty: TypeId|
            #[trigger] self.parsers_view().contains_key(ty) && !r.contains_key(ty) ==> call.ensures(
                (&self.parsers_view()[ty].1, tokens),
                None::<V>,
            )
    }

    /// `r` is a possible result of parsing the note text `note` and running
    /// every parser on its tokens.
    pub open spec fn parsed_note_of<V, C: Fn(&P, &NoteTokens) -> Option<V>>(
        &self,
        note: Seq<char>,
        call: C,
        r: Map<TypeId, V>,
    ) -> bool {
        exists|t: NoteTokens|
            t.raw_view() == note && t.tags_view() == tokenize(note) && #[trigger] self.parse_all_result(
                &t,
                call,
                r,
            )
    }

    /// Runs every registered parser against `tokens` (through `call`),
    /// collecting the metadata each one produced under its output type.
    pub fn parse_all<V, C: Fn(&P, &NoteTokens) -> Option<V>>(
        &self,
        tokens: &NoteTokens,
        call: C,
    ) -> (r: ParsedNote<V>)
        requires
            forall|p: &P, t: &NoteTokens| call.requires((p, t)),
        ensures
            forall|ty: TypeId| #[trigger]
                r@.contains_key(ty) ==> self.parsers_view().contains_key(ty) && call.ensures(
                    (&self.parsers_view()[ty].1, tokens),
                    Some(r@[ty]),
                ),
            forall|ty: TypeId|
                #[trigger] self.parsers_view().contains_key(ty) && !r@.contains_key(ty)
                    ==> call.ensures((&self.parsers_view()[ty].1, tokens), None::<V>),
    {
        let entries = self.parsers.entries();
        let mut note: ParsedNote<V> = ParsedNote::new();
        let mut i: usize = 0;
        while i < entries.len()
            invariant
                i <= entries@.len(),
                keys_distinct(entries@),
                self.parsers@ == seq_map(entries@),
                forall|p: &P, t: &NoteTokens| call.requires((p, t)),
                forall|ty: TypeId| #[trigger]
                    note@.contains_key(ty) ==> exists|j: int|
                        0 <= j < i && entries@[j].0 == ty && call.ensures(
                            (&entries@[j].1.payload, tokens),
                            Some(note@[ty]),
                        ),
                forall|j: int|
                    0 <= j < i ==> note@.contains_key(#[trigger] entries@[j].0) || call.ensures(
                        (&entries@[j].1.payload, tokens),
                        None::<V>,
                    ),
            decreases entries@.len() - i,
        {
            let ghost before = note@;
            let out = call(&entries[i].1.payload, tokens);
            if let Some(v) = out {
                note.insert_raw(entries[i].0, v);
                proof {
                    assert forall|ty: TypeId| #[trigger] note@.contains_key(ty) implies exists|j: int|
                        0 <= j < i + 1 && entries@[j].0 == ty && call.ensures(
                            (&entries@[j].1.payload, tokens),
                            Some(note@[ty]),
                        ) by {
                        if ty != entries@[i as int].0 {
                            let j = choose|j: int|
                                0 <= j < i && entries@[j].0 == ty && call.ensures(
                                    (&entries@[j].1.payload, tokens),
                                    Some(before[ty]),
                                );
                        }
                    }
                }
            }
            i = i + 1;
        }
        proof {
            assert forall|ty: TypeId| #[trigger] note@.contains_key(ty) implies self.parsers_view().contains_key(ty)
                && call.ensures((&self.parsers_view()[ty].1, tokens), Some(note@[ty])) by {
                let j = choose|j: int|
                    0 <= j < entries@.len() && entries@[j].0 == ty && call.ensures(
                        (&entries@[j].1.payload, tokens),
                        Some(note@[ty]),
                    );
                lemma_seq_map_at(entries@, j);
            }
            assert forall|ty: TypeId|
                #[trigger] self.parsers_view().contains_key(ty) && !note@.contains_key(ty)
                    implies call.ensures((&self.parsers_view()[ty].1, tokens), None::<V>) by {
                lemma_seq_map_has(entries@, ty);
                let j = choose|j: int|
                    0 <= j < entries@.len() && entries@[j].0 == ty && seq_map(entries@)[ty]
                        == entries@[j].1;
            }
        }
        note
    }

    /// `x` is the tag of some registered parser paired with bytes that parser
    /// yields (through `call`) for `tokens`.
    pub open spec fn baked_by_parser<C: Fn(&P, &NoteTokens) -> Option<Vec<u8>>>(
        &self,
        tokens: &NoteTokens,
        call: C,
        x: (String, Vec<u8>),
    ) -> bool {
        exists|ty: TypeId|
            #[trigger] self.parsers_view().contains_key(ty) && self.parsers_view()[ty].0 == x.0@
                && call.ensures((&self.parsers_view()[ty].1, tokens), Some(x.1))
    }

    /// Runs every parser (through `call`, which yields the serialized output)
    /// and pairs each match with its parser's tag, sorted by tag so that baked
    /// assets do not depend on registration order.
    pub fn bake<C: Fn(&P, &NoteTokens) -> Option<Vec<u8>>>(
        &self,
        tokens: &NoteTokens,
        call: C,
    ) -> (r: Vec<(String, Vec<u8>)>)
        requires
            forall|p: &P, t: &NoteTokens| call.requires((p, t)),
        ensures
            sorted_by_tag(r@),
            forall|k: int| 0 <= k < r@.len() ==> #[trigger] self.baked_by_parser(tokens, call, r@[k]),
            forall|ty: TypeId| #[trigger]
                self.parsers_view().contains_key(ty) ==> (exists|k: int|
                    0 <= k < r@.len() && r@[k].0@ == self.parsers_view()[ty].0) || call.ensures(
                    (&self.parsers_view()[ty].1, tokens),
                    None::<Vec<u8>>,
                ),
    {
        proof {
            use_type_invariant(self);
        }
        let entries = self.parsers.entries();
        let mut out: Vec<(String, Vec<u8>)> = Vec::new();
        let ghost mut src: Seq<int> = Seq::empty();
        let ghost mut hit: Seq<int> = Seq::empty();
        let mut i: usize = 0;
        while i < entries.len()
            invariant
                i <= entries@.len(),
                keys_distinct(entries@),
                self.parsers@ == seq_map(entries@),
                forall|a: int, b: int|
                    0 <= a < b < self.tags@.len() ==> (#[trigger] self.tags@[a]).0@ != (
                    #[trigger] self.tags@[b]).0@,
                forall|t: TypeId| #[trigger]
                    seq_map(entries@).contains_key(t) ==> exists|k: int|
                        0 <= k < self.tags@.len() && self.tags@[k].0@ == seq_map(entries@)[t].tag@
                            && self.tags@[k].1 == t,
                forall|p: &P, t: &NoteTokens| call.requires((p, t)),
                sorted_by_tag(out@),
                src.len() == out@.len(),
                hit.len() == i,
                forall|k: int|
                    0 <= k < out@.len() ==> 0 <= #[trigger] src[k] < i && entries@[src[k]].1.tag@
                        == out@[k].0@ && call.ensures(
                        (&entries@[src[k]].1.payload, tokens),
                        Some(out@[k].1),
                    ),
                forall|j: int|
                    0 <= j < i ==> (#[trigger] hit[j] == -1 && call.ensures(
                        (&entries@[j].1.payload, tokens),
                        None::<Vec<u8>>,
                    )) || (0 <= hit[j] < out@.len() && out@[hit[j]].0@ == entries@[j].1.tag@),
            decreases entries@.len() - i,
        {
            let ghost before = out@;
            let ghost src0 = src;
            let ghost hit0 = hit;
            let got = call(&entries[i].1.payload, tokens);
            match got {
                Some(bytes) => {
                    proof {
                        assert forall|k: int| 0 <= k < before.len() implies (#[trigger] before[k]).0@
                            != entries@[i as int].1.tag@ by {
                            lemma_tags_of_entries(entries@, self.tags@, src0[k], i as int);
                        }
                    }
                    let ghost x = (entries@[i as int].1.tag, bytes);
                    insert_by_tag(&mut out, (entries[i].1.tag.clone(), bytes));
                    proof {
                        let p = choose|p: int| 0 <= p <= before.len() && out@ == before.insert(p, x);
                        src = src0.insert(p, i as int);
                        hit = hit0.map_values(|q: int| if q >= p { q + 1 } else { q }).push(p);
                        assert forall|k: int| 0 <= k < out@.len() implies 0 <= #[trigger] src[k] < i
                            + 1 && entries@[src[k]].1.tag@ == out@[k].0@ && call.ensures(
                            (&entries@[src[k]].1.payload, tokens),
                            Some(out@[k].1),
                        ) by {
                            if k < p {
                                assert(out@[k] == before[k] && src[k] == src0[k]);
                            } else if k > p {
                                assert(out@[k] == before[k - 1] && src[k] == src0[k - 1]);
                            }
                        }
                        assert forall|j: int| 0 <= j < i + 1 implies (#[trigger] hit[j] == -1
                            && call.ensures((&entries@[j].1.payload, tokens), None::<Vec<u8>>)) || (0
                            <= hit[j] < out@.len() && out@[hit[j]].0@ == entries@[j].1.tag@) by {
                            if j < i {
                                let q = hit0[j];
                                if q != -1 {
                                    if q >= p {
                                        assert(out@[q + 1] == before[q]);
                                    } else {
                                        assert(out@[q] == before[q]);
                                    }
                                }
                            }
                        }
                    }
                },
                None => {
                    proof {
                        hit = hit0.push(-1);
                        assert forall|j: int| 0 <= j < i + 1 implies (#[trigger] hit[j] == -1
                            && call.ensures((&entries@[j].1.payload, tokens), None::<Vec<u8>>)) || (0
                            <= hit[j] < out@.len() && out@[hit[j]].0@ == entries@[j].1.tag@) by {
                            if j < i {
                                assert(hit[j] == hit0[j]);
                            }
                        }
                    }
                },
            }
            i = i + 1;
        }
        proof {
            assert forall|k: int| 0 <= k < out@.len() implies #[trigger] self.baked_by_parser(
                tokens,
                call,
                out@[k],
            ) by {
                let j = src[k];
                lemma_seq_map_at(entries@, j);
                let ty = entries@[j].0;
                assert(self.parsers_view().contains_key(ty));
                assert(self.parsers_view()[ty] == (entries@[j].1.tag@, entries@[j].1.payload));
            }
            assert forall|ty: TypeId| #[trigger] self.parsers_view().contains_key(ty) implies (exists|k: int|
                0 <= k < out@.len() && out@[k].0@ == self.parsers_view()[ty].0) || call.ensures(
                (&self.parsers_view()[ty].1, tokens),
                None::<Vec<u8>>,
            ) by {
                lemma_seq_map_has(entries@, ty);
                let j = choose|j: int|
                    0 <= j < entries@.len() && entries@[j].0 == ty && seq_map(entries@)[ty]
                        == entries@[j].1;
                assert(self.parsers_view()[ty] == (entries@[j].1.tag@, entries@[j].1.payload));
                if hit[j] != -1 {
                    assert(out@[hit[j]].0@ == self.parsers_view()[ty].0);
                }
            }
        }
        out
    }

    /// `outs` are possible outcomes of deserializing each baked entry with the
    /// parser its tag belongs to (through `call`).
    pub open spec fn unbake_outcomes<V, C: Fn(&P, &Vec<u8>) -> Option<V>>(
        &self,
        baked: Seq<(String, Vec<u8>)>,
        call: C,
        outs: Seq<Option<V>>,
    ) -> bool {
        &&& outs.len() == baked.len()
        &&& forall|j: int|
            0 <= j < baked.len() && #[trigger] self.tag_index().contains_key(baked[j].0@)
                ==> call.ensures(
                (&self.parsers_view()[self.tag_index()[baked[j].0@]].1, &baked[j].1),
                outs[j],
            )
    }

    /// `r` is a possible result of unbaking `baked` (through `call`).
    pub open spec fn unbaked_from<V, C: Fn(&P, &Vec<u8>) -> Option<V>>(
        &self,
        baked: Seq<(String, Vec<u8>)>,
        call: C,
        r: Map<TypeId, V>,
    ) -> bool {
        exists|outs: Seq<Option<V>>|
            #[trigger] self.unbake_outcomes(baked, call, outs) && r == unbake_upto(
                self.tag_index(),
                baked,
                outs,
                baked.len(),
            )
    }

    /// Reconstructs parsed metadata from previously baked `(tag, bytes)` pairs,
    /// deserializing (through `call`) rather than re-parsing. Pairs whose tag no
    /// parser ever used are skipped.
    pub fn unbake<V, C: Fn(&P, &Vec<u8>) -> Option<V>>(
        &self,
        baked: &[(String, Vec<u8>)],
        call: C,
    ) -> (r: ParsedNote<V>)
        requires
            forall|p: &P, b: &Vec<u8>| call.requires((p, b)),
        ensures
            exists|outs: Seq<Option<V>>|
                #[trigger] self.unbake_outcomes(baked@, call, outs) && r@ == unbake_upto(
                    self.tag_index(),
                    baked@,
                    outs,
                    baked@.len(),
                ),
    {
        proof {
            use_type_invariant(self);
        }
        let mut note: ParsedNote<V> = ParsedNote::new();
        let ghost mut outs: Seq<Option<V>> = Seq::empty();
        let mut j: usize = 0;
        while j < baked.len()
            invariant
                j <= baked@.len(),
                outs.len() == j,
                forall|p: &P, b: &Vec<u8>| call.requires((p, b)),
                forall|i: int|
                    0 <= i < self.tags@.len() ==> self.parsers@.contains_key(
                        #[trigger] self.tags@[i].1,
                    ),
                forall|i: int|
                    0 <= i < j && #[trigger] self.tag_index().contains_key(baked@[i].0@)
                        ==> call.ensures(
                        (&self.parsers_view()[self.tag_index()[baked@[i].0@]].1, &baked@[i].1),
                        outs[i],
                    ),
                note@ == unbake_upto(self.tag_index(), baked@, outs, j as nat),
            decreases baked@.len() - j,
        {
            let ghost outs0 = outs;
            match self.tag_position(&baked[j].0) {
                Some(ti) => {
                    let ty = self.tags[ti].1;
                    assert(self.parsers@.contains_key(self.tags@[ti as int].1));
                    match self.parsers.get(&ty) {
                        Some(p) => {
                            let got = call(&p.payload, &baked[j].1);
                            proof {
                                outs = outs0.push(got);
                            }
                            match got {
                                Some(v) => {
                                    note.insert_raw(ty, v);
                                },
                                None => {},
                            }
                        },
                        None => {
                            proof {
                                outs = outs0.push(None);
                            }
                        },
                    }
                },
                None => {
                    proof {
                        outs = outs0.push(None);
                    }
                },
            }
            proof {
                assert forall|i: int|
                    0 <= i < j + 1 && #[trigger] self.tag_index().contains_key(baked@[i].0@)
                        implies call.ensures(
                    (&self.parsers_view()[self.tag_index()[baked@[i].0@]].1, &baked@[i].1),
                    outs[i],
                ) by {
                    if i < j {
                        assert(outs[i] == outs0[i]);
                    }
                }
                assert(unbake_upto(self.tag_index(), baked@, outs, j as nat) == unbake_upto(
                    self.tag_index(),
                    baked@,
                    outs0,
                    j as nat,
                )) by {
                    lemma_unbake_prefix(self.tag_index(), baked@, outs0, outs, j as nat);
                }
            }
            j = j + 1;
        }
        proof {
            assert(self.unbake_outcomes(baked@, call, outs));
        }
        note
    }

    /// `x` is the tag of some registered parser paired with a clone of its
    /// payload.
    pub open spec fn captured(&self, x: (Seq<char>, P)) -> bool
        where P: Clone,
    {
        exists|ty: TypeId|
            #[trigger] self.parsers_view().contains_key(ty) && self.parsers_view()[ty].0 == x.0
                && cloned(self.parsers_view()[ty].1, x.1)
    }

    /// A snapshot of the parsers (tag and a clone of each payload), for baking
    /// where the registry itself is not at hand. Parsers registered later are
    /// not included.
    pub fn baker(&self) -> (r: NoteBaker<P>)
        where P: Clone,
        ensures
            forall|i: int|
                0 <= i < r.parsers_view().len() ==> #[trigger] self.captured(r.parsers_view()[i]),
            forall|ty: TypeId| #[trigger]
                self.parsers_view().contains_key(ty) ==> exists|i: int|
                    0 <= i < r.parsers_view().len() && r.parsers_view()[i].0
                        == self.parsers_view()[ty].0,
    {
        proof {
            use_type_invariant(self);
        }
        let entries = self.parsers.entries();
        let mut list: Vec<(String, P)> = Vec::new();
        let mut i: usize = 0;
        while i < entries.len()
            invariant
                i <= entries@.len(),
                list@.len() == i,
                keys_distinct(entries@),
                self.parsers@ == seq_map(entries@),
                forall|a: int, b: int|
                    0 <= a < b < self.tags@.len() ==> (#[trigger] self.tags@[a]).0@ != (
                    #[trigger] self.tags@[b]).0@,
                forall|t: TypeId| #[trigger]
                    seq_map(entries@).contains_key(t) ==> exists|k: int|
                        0 <= k < self.tags@.len() && self.tags@[k].0@ == seq_map(entries@)[t].tag@
                            && self.tags@[k].1 == t,
                forall|k: int|
                    0 <= k < i ==> (#[trigger] list@[k]).0@ == entries@[k].1.tag@ && cloned(
                        entries@[k].1.payload,
                        list@[k].1,
                    ),
            decreases entries@.len() - i,
        {
            let tag = entries[i].1.tag.clone();
            let payload = entries[i].1.payload.clone();
            list.push((tag, payload));
            i = i + 1;
        }
        proof {
            assert forall|a: int, b: int| 0 <= a < b < list@.len() implies (#[trigger] list@[a]).0@
                != (#[trigger] list@[b]).0@ by {
                lemma_tags_of_entries(entries@, self.tags@, a, b);
            }
        }
        let r = NoteBaker { parsers: list };
        proof {
            assert forall|i: int| 0 <= i < r.parsers_view().len() implies #[trigger] self.captured(
                r.parsers_view()[i],
            ) by {
                lemma_seq_map_at(entries@, i);
                let ty = entries@[i].0;
                assert(self.parsers_view()[ty] == (entries@[i].1.tag@, entries@[i].1.payload));
                assert(r.parsers_view()[i] == (list@[i].0@, list@[i].1));
                assert(list@[i].0@ == entries@[i].1.tag@);
                assert(cloned(entries@[i].1.payload, list@[i].1));
                assert(self.parsers_view().contains_key(ty) && self.parsers_view()[ty].0
                    == r.parsers_view()[i].0 && cloned(self.parsers_view()[ty].1, r.parsers_view()[i].1));
            }
            assert forall|ty: TypeId| #[trigger] self.parsers_view().contains_key(ty) implies exists|
                i: int,
            | 0 <= i < r.parsers_view().len() && r.parsers_view()[i].0 == self.parsers_view()[ty].0 by {
                lemma_seq_map_has(entries@, ty);
                let j = choose|j: int|
                    0 <= j < entries@.len() && entries@[j].0 == ty && seq_map(entries@)[ty]
                        == entries@[j].1;
                assert(r.parsers_view()[j].0 == self.parsers_view()[ty].0);
            }
        }
        r
    }

    /// Runs the parser registered for `ty` against `tokens` (through `call`).
    pub fn parse<V, C: Fn(&P, &NoteTokens) -> Option<V>>(
        &self,
        ty: &TypeId,
        tokens: &NoteTokens,
        call: C,
    ) -> (r: Option<V>)
        requires
            forall|p: &P, t: &NoteTokens| call.requires((p, t)),
        ensures
            !self.parsers_view().contains_key(*ty) ==> r is None,
            self.parsers_view().contains_key(*ty) ==> call.ensures(
                (&self.parsers_view()[*ty].1, tokens),
                r,
            ),
    {
        match self.parsers.get(ty) {
            Some(p) => call(&p.payload, tokens),
            None => None,
        }
    }
}

proof fn lemma_unbake_prefix<V>(
    index: Map<Seq<char>, TypeId>,
    baked: Seq<(String, Vec<u8>)>,
    outs: Seq<Option<V>>,
    longer: Seq<Option<V>>,
    n: nat,
)
    requires
        n <= outs.len(),
        n <= longer.len(),
        forall|i: int| 0 <= i < n ==> outs[i] == longer[i],
    ensures
        unbake_upto(index, baked, longer, n) == unbake_upto(index, baked, outs, n),
    decreases n,
{
    if n > 0 {
        lemma_unbake_prefix(index, baked, outs, longer, (n - 1) as nat);
    }
}

/// For deterministic parsers, what `parse_all` collects for an output type is
/// exactly what `parse` gives for it: present with the same value when that
/// parser produces something, absent when it produces nothing or no parser
/// is registered for the type.
pub proof fn law_parse_all_agrees_with_parse<P, V, C: Fn(&P, &NoteTokens) -> Option<V>>(
    reg: &NoteRegistry<P>,
    tokens: &NoteTokens,
    call: C,
    parsed: Map<TypeId, V>,
    ty: TypeId,
    single: Option<V>,
)
    requires
        reg.parse_all_result(tokens, call, parsed),
        reg.parsers_view().contains_key(ty) ==> call.ensures(
            (&reg.parsers_view()[ty].1, tokens),
            single,
        ),
        !reg.parsers_view().contains_key(ty) ==> single is None,
        forall|p: &P, t: &NoteTokens, a: Option<V>, b: Option<V>|
            #[trigger] call.ensures((p, t), a) && #[trigger] call.ensures((p, t), b) ==> a == b,
    ensures
        parsed.contains_key(ty) == single is Some,
        single matches Some(v) ==> parsed[ty] == v,
{
    if reg.parsers_view().contains_key(ty) {
        let p = &reg.parsers_view()[ty].1;
        if parsed.contains_key(ty) {
            assert(call.ensures((p, tokens), Some(parsed[ty])));
        } else {
            assert(call.ensures((p, tokens), None::<V>));
        }
    }
}

proof fn lemma_unbake_upto_unique<V>(
    index: Map<Seq<char>, TypeId>,
    baked: Seq<(String, Vec<u8>)>,
    outs: Seq<Option<V>>,
    n: nat,
)
    requires
        n <= baked.len(),
        n <= outs.len(),
        forall|a: int, b: int|
            0 <= a < b < n && index.contains_key(#[trigger] baked[a].0@) && index.contains_key(
                #[trigger] baked[b].0@,
            ) ==> index[baked[a].0@] != index[baked[b].0@],
    ensures
        forall|ty: TypeId| #[trigger]
            unbake_upto(index, baked, outs, n).contains_key(ty) <==> exists|k: int|
                0 <= k < n && index.contains_key(baked[k].0@) && index[baked[k].0@] == ty
                    && #[trigger] outs[k] is Some,
        forall|k: int|
            0 <= k < n && index.contains_key(baked[k].0@) && #[trigger] outs[k] is Some
                ==> unbake_upto(index, baked, outs, n)[index[baked[k].0@]] == outs[k]->0,
    decreases n,
{
    if n > 0 {
        lemma_unbake_upto_unique(index, baked, outs, (n - 1) as nat);
        let m = unbake_upto(index, baked, outs, (n - 1) as nat);
        let last = n - 1;
        assert forall|ty: TypeId| #[trigger]
            unbake_upto(index, baked, outs, n).contains_key(ty) <==> exists|k: int|
                0 <= k < n && index.contains_key(baked[k].0@) && index[baked[k].0@] == ty
                    && #[trigger] outs[k] is Some by {
            if unbake_upto(index, baked, outs, n).contains_key(ty) {
                if !m.contains_key(ty) {
                    assert(index.contains_key(baked[last].0@) && index[baked[last].0@] == ty
                        && outs[last] is Some);
                }
            }
            if exists|k: int|
                0 <= k < n && index.contains_key(baked[k].0@) && index[baked[k].0@] == ty
                    && #[trigger] outs[k] is Some {
                let k = choose|k: int|
                    0 <= k < n && index.contains_key(baked[k].0@) && index[baked[k].0@] == ty
                        && #[trigger] outs[k] is Some;
                if k < last {
                    assert(m.contains_key(ty));
                }
            }
        }
        assert forall|k: int|
            0 <= k < n && index.contains_key(baked[k].0@) && #[trigger] outs[k] is Some
                implies unbake_upto(index, baked, outs, n)[index[baked[k].0@]] == outs[k]->0 by {
            if k < last && index.contains_key(baked[last].0@) {
                assert(index[baked[k].0@] != index[baked[last].0@]);
            }
        }
    }
}

/// Unbaking what `bake` produced gives back exactly what `parse_all` yields
/// for the same note, provided the serializer and deserializer round-trip each
/// parser's output: whatever bytes a parser's output is serialized to
/// deserialize (with that parser) to that same output, a parser whose output
/// is not serialized produced nothing, and parsing is deterministic.
/// (Any registry's `routes_tags` is given by
/// [`NoteRegistry::tags_route_to_their_types`].)
pub proof fn law_unbake_inverts_bake<
    P,
    V,
    CP: Fn(&P, &NoteTokens) -> Option<V>,
    CB: Fn(&P, &NoteTokens) -> Option<Vec<u8>>,
    CU: Fn(&P, &Vec<u8>) -> Option<V>,
>(
    reg: &NoteRegistry<P>,
    tokens: &NoteTokens,
    parse: CP,
    ser: CB,
    de: CU,
    parsed: Map<TypeId, V>,
    baked: Seq<(String, Vec<u8>)>,
    outs: Seq<Option<V>>,
)
    requires
        reg.routes_tags(),
        reg.parse_all_result(tokens, parse, parsed),
        sorted_by_tag(baked),
        forall|k: int| 0 <= k < baked.len() ==> #[trigger] reg.baked_by_parser(tokens, ser, baked[k]),
        forall|ty: TypeId| #[trigger]
            reg.parsers_view().contains_key(ty) ==> (exists|k: int|
                0 <= k < baked.len() && baked[k].0@ == reg.parsers_view()[ty].0) || ser.ensures(
                (&reg.parsers_view()[ty].1, tokens),
                None::<Vec<u8>>,
            ),
        reg.unbake_outcomes(baked, de, outs),
        forall|p: &P, t: &NoteTokens, b: Vec<u8>, o: Option<V>|
            #[trigger] ser.ensures((p, t), Some(b)) && #[trigger] de.ensures((p, &b), o)
                ==> parse.ensures((p, t), o),
        forall|p: &P, t: &NoteTokens| #[trigger]
            ser.ensures((p, t), None::<Vec<u8>>) ==> parse.ensures((p, t), None::<V>),
        forall|p: &P, t: &NoteTokens, a: Option<V>, b: Option<V>|
            #[trigger] parse.ensures((p, t), a) && #[trigger] parse.ensures((p, t), b) ==> a == b,
    ensures
        unbake_upto(reg.tag_index(), baked, outs, baked.len()) == parsed,
{
    let index = reg.tag_index();
    let view = reg.parsers_view();
    // Each entry was baked by the parser whose tag it carries, and unbakes as
    // that parser's type.
    assert forall|k: int| 0 <= k < baked.len() implies index.contains_key(#[trigger] baked[k].0@)
        && view.contains_key(index[baked[k].0@]) && view[index[baked[k].0@]].0 == baked[k].0@
        && ser.ensures((&view[index[baked[k].0@]].1, tokens), Some(baked[k].1)) by {
        assert(reg.baked_by_parser(tokens, ser, baked[k]));
        let ty = choose|ty: TypeId|
            #[trigger] view.contains_key(ty) && view[ty].0 == baked[k].0@ && ser.ensures(
                (&view[ty].1, tokens),
                Some(baked[k].1),
            );
        assert(index[view[ty].0] == ty);
    }
    assert forall|a: int, b: int|
        0 <= a < b < baked.len() && index.contains_key(#[trigger] baked[a].0@)
            && index.contains_key(#[trigger] baked[b].0@) implies index[baked[a].0@]
        != index[baked[b].0@] by {
        assert(lex_lt(baked[a].0@, baked[b].0@));
        lemma_lex_irreflexive(baked[a].0@);
        if index[baked[a].0@] == index[baked[b].0@] {
            assert(view[index[baked[a].0@]].0 == baked[a].0@);
            assert(view[index[baked[b].0@]].0 == baked[b].0@);
        }
    }
    lemma_unbake_upto_unique(index, baked, outs, baked.len());
    let r = unbake_upto(index, baked, outs, baked.len());
    assert forall|ty: TypeId| #[trigger] r.contains_key(ty) implies parsed.contains_key(ty)
        && r[ty] == parsed[ty] by {
        let k = choose|k: int|
            0 <= k < baked.len() && index.contains_key(baked[k].0@) && index[baked[k].0@] == ty
                && #[trigger] outs[k] is Some;
        let p = &view[ty].1;
        assert(ser.ensures((p, tokens), Some(baked[k].1)));
        assert(de.ensures((p, &baked[k].1), outs[k]));
        assert(parse.ensures((p, tokens), outs[k]));
        if !parsed.contains_key(ty) {
            assert(parse.ensures((p, tokens), None::<V>));
        } else {
            assert(parse.ensures((p, tokens), Some(parsed[ty])));
        }
    }
    assert forall|ty: TypeId| #[trigger] parsed.contains_key(ty) implies r.contains_key(ty) by {
        let p = &view[ty].1;
        assert(parse.ensures((p, tokens), Some(parsed[ty])));
        if ser.ensures((p, tokens), None::<Vec<u8>>) {
            assert(parse.ensures((p, tokens), None::<V>));
        }
        let k = choose|k: int| 0 <= k < baked.len() && baked[k].0@ == view[ty].0;
        assert(index[view[ty].0] == ty);
        assert(de.ensures((p, &baked[k].1), outs[k]));
        assert(parse.ensures((p, tokens), outs[k]));
        assert(outs[k] is Some);
    }
    assert(r =~= parsed);
}

proof fn lemma_sorted_same_members(a: Seq<Seq<char>>, b: Seq<Seq<char>>)
    requires
        forall|i: int, j: int| 0 <= i < j < a.len() ==> lex_lt(#[trigger] a[i], #[trigger] a[j]),
        forall|i: int, j: int| 0 <= i < j < b.len() ==> lex_lt(#[trigger] b[i], #[trigger] b[j]),
        forall|i: int| 0 <= i < a.len() ==> b.contains(#[trigger] a[i]),
        forall|j: int| 0 <= j < b.len() ==> a.contains(#[trigger] b[j]),
    ensures
        a == b,
    decreases a.len(),
{
    if a.len() == 0 {
        if b.len() > 0 {
            assert(a.contains(b[0]));
        }
        assert(a =~= b);
    } else if b.len() == 0 {
        assert(b.contains(a[0]));
    } else {
        let m = choose|m: int| 0 <= m < b.len() && b[m] == a[0];
        let k = choose|k: int| 0 <= k < a.len() && a[k] == b[0];
        if m > 0 {
            assert(lex_lt(b[0], b[m]));
            if k > 0 {
                assert(lex_lt(a[0], a[k]));
                lemma_lex_transitive(a[0], b[0], a[0]);
            }
            lemma_lex_irreflexive(a[0]);
        }
        assert(a[0] == b[0]);
        let ar = a.drop_first();
        let br = b.drop_first();
        assert forall|i: int| 0 <= i < ar.len() implies br.contains(#[trigger] ar[i]) by {
            assert(ar[i] == a[i + 1]);
            assert(lex_lt(a[0], a[i + 1]));
            lemma_lex_irreflexive(a[0]);
            let q = choose|q: int| 0 <= q < b.len() && b[q] == a[i + 1];
            assert(q != 0);
            assert(br[q - 1] == b[q]);
        }
        assert forall|j: int| 0 <= j < br.len() implies ar.contains(#[trigger] br[j]) by {
            assert(br[j] == b[j + 1]);
            assert(lex_lt(b[0], b[j + 1]));
            lemma_lex_irreflexive(b[0]);
            let q = choose|q: int| 0 <= q < a.len() && a[q] == b[j + 1];
            assert(q != 0);
            assert(ar[q - 1] == a[q]);
        }
        assert forall|i: int, j: int| 0 <= i < j < ar.len() implies lex_lt(#[trigger] ar[i], #[trigger] ar[j]) by {
            assert(ar[i] == a[i + 1] && ar[j] == a[j + 1]);
        }
        assert forall|i: int, j: int| 0 <= i < j < br.len() implies lex_lt(#[trigger] br[i], #[trigger] br[j]) by {
            assert(br[i] == b[i + 1] && br[j] == b[j + 1]);
        }
        lemma_sorted_same_members(ar, br);
        assert(a =~= seq![a[0]] + ar);
        assert(b =~= seq![b[0]] + br);
    }
}

/// `r` is a possible result of `reg.bake(tokens, call)`.
pub open spec fn bake_outcome_of<P, C: Fn(&P, &NoteTokens) -> Option<Vec<u8>>>(
    reg: &NoteRegistry<P>,
    tokens: &NoteTokens,
    call: C,
    r: Seq<(String, Vec<u8>)>,
) -> bool {
    &&& sorted_by_tag(r)
    &&& forall|k: int| 0 <= k < r.len() ==> #[trigger] reg.baked_by_parser(tokens, call, r[k])
    &&& forall|ty: TypeId| #[trigger]
        reg.parsers_view().contains_key(ty) ==> (exists|k: int|
            0 <= k < r.len() && r[k].0@ == reg.parsers_view()[ty].0) || call.ensures(
            (&reg.parsers_view()[ty].1, tokens),
            None::<Vec<u8>>,
        )
}

/// Baking does not depend on the order in which parsers were registered: two
/// registries holding the same parsers bake the same note to the same
/// `(tag, bytes)` pairs, in the same order, provided each parser's output
/// serializes deterministically.
/// (Any registry's `routes_tags` is given by
/// [`NoteRegistry::tags_route_to_their_types`].)
pub proof fn law_bake_ignores_registration_order<P, C: Fn(&P, &NoteTokens) -> Option<Vec<u8>>>(
    a: &NoteRegistry<P>,
    b: &NoteRegistry<P>,
    tokens: &NoteTokens,
    call: C,
    ra: Seq<(String, Vec<u8>)>,
    rb: Seq<(String, Vec<u8>)>,
)
    requires
        a.routes_tags(),
        b.routes_tags(),
        a.parsers_view() == b.parsers_view(),
        bake_outcome_of(a, tokens, call, ra),
        bake_outcome_of(b, tokens, call, rb),
        forall|p: &P, t: &NoteTokens, x: Option<Vec<u8>>, y: Option<Vec<u8>>|
            #[trigger] call.ensures((p, t), x) && #[trigger] call.ensures((p, t), y) ==> x == y,
    ensures
        ra.len() == rb.len(),
        forall|k: int| 0 <= k < ra.len() ==> ra[k].0@ == rb[k].0@ && ra[k].1 == rb[k].1,
{
    let view = a.parsers_view();
    // The parser that produced each entry, found from its tag.
    assert forall|k: int| 0 <= k < ra.len() implies view.contains_key(
        #[trigger] a.tag_index()[ra[k].0@],
    ) && view[a.tag_index()[ra[k].0@]].0 == ra[k].0@ && call.ensures(
        (&view[a.tag_index()[ra[k].0@]].1, tokens),
        Some(ra[k].1),
    ) by {
        assert(a.baked_by_parser(tokens, call, ra[k]));
        let ty = choose|ty: TypeId|
            #[trigger] view.contains_key(ty) && view[ty].0 == ra[k].0@ && call.ensures(
                (&view[ty].1, tokens),
                Some(ra[k].1),
            );
        assert(a.tag_index()[view[ty].0] == ty);
    }
    assert forall|k: int| 0 <= k < rb.len() implies view.contains_key(
        #[trigger] b.tag_index()[rb[k].0@],
    ) && view[b.tag_index()[rb[k].0@]].0 == rb[k].0@ && call.ensures(
        (&view[b.tag_index()[rb[k].0@]].1, tokens),
        Some(rb[k].1),
    ) by {
        assert(b.baked_by_parser(tokens, call, rb[k]));
        let ty = choose|ty: TypeId|
            #[trigger] b.parsers_view().contains_key(ty) && b.parsers_view()[ty].0 == rb[k].0@
                && call.ensures((&b.parsers_view()[ty].1, tokens), Some(rb[k].1));
        assert(b.tag_index()[view[ty].0] == ty);
    }
    let ta = ra.map_values(|x: (String, Vec<u8>)| x.0@);
    let tb = rb.map_values(|x: (String, Vec<u8>)| x.0@);
    assert forall|i: int| 0 <= i < ta.len() implies tb.contains(#[trigger] ta[i]) by {
        let ty = a.tag_index()[ra[i].0@];
        assert(view.contains_key(ty));
        if call.ensures((&view[ty].1, tokens), None::<Vec<u8>>) {
            assert(call.ensures((&view[ty].1, tokens), Some(ra[i].1)));
        }
        assert(b.parsers_view().contains_key(ty));
        let m = choose|m: int| 0 <= m < rb.len() && rb[m].0@ == b.parsers_view()[ty].0;
        assert(tb[m] == ta[i]);
    }
    assert forall|j: int| 0 <= j < tb.len() implies ta.contains(#[trigger] tb[j]) by {
        let ty = b.tag_index()[rb[j].0@];
        assert(view.contains_key(ty));
        if call.ensures((&view[ty].1, tokens), None::<Vec<u8>>) {
            assert(call.ensures((&view[ty].1, tokens), Some(rb[j].1)));
        }
        assert(a.parsers_view().contains_key(ty));
        let m = choose|m: int| 0 <= m < ra.len() && ra[m].0@ == a.parsers_view()[ty].0;
        assert(ta[m] == tb[j]);
    }
    assert forall|i: int, j: int| 0 <= i < j < ta.len() implies lex_lt(#[trigger] ta[i], #[trigger] ta[j]) by {
        assert(lex_lt(ra[i].0@, ra[j].0@));
    }
    assert forall|i: int, j: int| 0 <= i < j < tb.len() implies lex_lt(#[trigger] tb[i], #[trigger] tb[j]) by {
        assert(lex_lt(rb[i].0@, rb[j].0@));
    }
    lemma_sorted_same_members(ta, tb);
    assert forall|k: int| 0 <= k < ra.len() implies ra[k].0@ == rb[k].0@ && ra[k].1 == rb[k].1 by {
        assert(ta[k] == tb[k]);
        let tya = a.tag_index()[ra[k].0@];
        let tyb = b.tag_index()[rb[k].0@];
        assert(view[tya].0 == ra[k].0@);
        assert(view[tyb].0 == rb[k].0@);
        assert(a.tag_index()[view[tyb].0] == tyb);
        assert(tya == tyb);
        assert(call.ensures((&view[tya].1, tokens), Some(ra[k].1)));
        assert(call.ensures((&view[tya].1, tokens), Some(rb[k].1)));
    }
}

/// A baker snapshot of `reg` bakes every note exactly as `reg` itself does,
/// provided parsers serialize deterministically and a cloned parser behaves
/// as the parser it was cloned from. The snapshot is a value of its own, so
/// parsers registered with `reg` later never reach it.
/// (Any registry's `routes_tags` is given by
/// [`NoteRegistry::tags_route_to_their_types`].)
pub proof fn law_baker_bakes_like_registry<P: Clone, C: Fn(&P, &NoteTokens) -> Option<Vec<u8>>>(
    reg: &NoteRegistry<P>,
    b: &NoteBaker<P>,
    tokens: &NoteTokens,
    call: C,
    rr: Seq<(String, Vec<u8>)>,
    rb: Seq<(String, Vec<u8>)>,
)
    requires
        reg.routes_tags(),
        forall|i: int|
            0 <= i < b.parsers_view().len() ==> #[trigger] reg.captured(b.parsers_view()[i]),
        forall|ty: TypeId| #[trigger]
            reg.parsers_view().contains_key(ty) ==> exists|i: int|
                0 <= i < b.parsers_view().len() && b.parsers_view()[i].0 == reg.parsers_view()[ty].0,
        bake_outcome_of(reg, tokens, call, rr),
        sorted_by_tag(rb),
        forall|k: int| 0 <= k < rb.len() ==> #[trigger] b.baked_by_parser(tokens, call, rb[k]),
        forall|i: int|
            0 <= i < b.parsers_view().len() ==> (exists|k: int|
                0 <= k < rb.len() && rb[k].0@ == (#[trigger] b.parsers_view()[i]).0) || call.ensures(
                (&b.parsers_view()[i].1, tokens),
                None::<Vec<u8>>,
            ),
        forall|p: &P, t: &NoteTokens, x: Option<Vec<u8>>, y: Option<Vec<u8>>|
            #[trigger] call.ensures((p, t), x) && #[trigger] call.ensures((p, t), y) ==> x == y,
        forall|p: P, q: P, t: &NoteTokens, x: Option<Vec<u8>>|
            #![trigger cloned(p, q), call.ensures((&p, t), x)]
            #![trigger cloned(p, q), call.ensures((&q, t), x)]
            cloned(p, q) ==> (call.ensures((&p, t), x) <==> call.ensures((&q, t), x)),
    ensures
        rr.len() == rb.len(),
        forall|k: int| 0 <= k < rr.len() ==> rr[k].0@ == rb[k].0@ && rr[k].1 == rb[k].1,
{
    let view = reg.parsers_view();
    let bv = b.parsers_view();
    // Each registry entry comes from the parser its tag routes to.
    assert forall|k: int| 0 <= k < rr.len() implies view.contains_key(
        #[trigger] reg.tag_index()[rr[k].0@],
    ) && view[reg.tag_index()[rr[k].0@]].0 == rr[k].0@ && call.ensures(
        (&view[reg.tag_index()[rr[k].0@]].1, tokens),
        Some(rr[k].1),
    ) by {
        assert(reg.baked_by_parser(tokens, call, rr[k]));
        let ty = choose|ty: TypeId|
            #[trigger] view.contains_key(ty) && view[ty].0 == rr[k].0@ && call.ensures(
                (&view[ty].1, tokens),
                Some(rr[k].1),
            );
        assert(reg.tag_index()[view[ty].0] == ty);
    }
    // Each snapshot entry comes from a clone of the parser its tag routes to.
    assert forall|k: int| 0 <= k < rb.len() implies view.contains_key(
        #[trigger] reg.tag_index()[rb[k].0@],
    ) && view[reg.tag_index()[rb[k].0@]].0 == rb[k].0@ && call.ensures(
        (&view[reg.tag_index()[rb[k].0@]].1, tokens),
        Some(rb[k].1),
    ) by {
        assert(b.baked_by_parser(tokens, call, rb[k]));
        let i = choose|i: int|
            0 <= i < bv.len() && (#[trigger] bv[i]).0 == rb[k].0@ && call.ensures(
                (&bv[i].1, tokens),
                Some(rb[k].1),
            );
        assert(reg.captured(bv[i]));
        let ty = choose|ty: TypeId|
            #[trigger] view.contains_key(ty) && view[ty].0 == bv[i].0 && cloned(view[ty].1, bv[i].1);
        assert(reg.tag_index()[view[ty].0] == ty);
        assert(call.ensures((&bv[i].1, tokens), Some(rb[k].1)));
        assert(call.ensures((&view[ty].1, tokens), Some(rb[k].1)));
    }
    let ta = rr.map_values(|x: (String, Vec<u8>)| x.0@);
    let tb = rb.map_values(|x: (String, Vec<u8>)| x.0@);
    assert forall|i: int| 0 <= i < ta.len() implies tb.contains(#[trigger] ta[i]) by {
        let ty = reg.tag_index()[rr[i].0@];
        let j = choose|j: int| 0 <= j < bv.len() && bv[j].0 == view[ty].0;
        assert(reg.captured(bv[j]));
        let ty2 = choose|ty2: TypeId|
            #[trigger] view.contains_key(ty2) && view[ty2].0 == bv[j].0 && cloned(view[ty2].1, bv[j].1);
        assert(reg.tag_index()[view[ty2].0] == ty2);
        assert(ty2 == ty);
        if call.ensures((&bv[j].1, tokens), None::<Vec<u8>>) {
            assert(call.ensures((&view[ty].1, tokens), None::<Vec<u8>>));
            assert(call.ensures((&view[ty].1, tokens), Some(rr[i].1)));
        }
        let m = choose|m: int| 0 <= m < rb.len() && rb[m].0@ == bv[j].0;
        assert(tb[m] == ta[i]);
    }
    assert forall|j: int| 0 <= j < tb.len() implies ta.contains(#[trigger] tb[j]) by {
        let ty = reg.tag_index()[rb[j].0@];
        assert(view.contains_key(ty));
        if call.ensures((&view[ty].1, tokens), None::<Vec<u8>>) {
            assert(call.ensures((&view[ty].1, tokens), Some(rb[j].1)));
        }
        let m = choose|m: int| 0 <= m < rr.len() && rr[m].0@ == view[ty].0;
        assert(ta[m] == tb[j]);
    }
    assert forall|i: int, j: int| 0 <= i < j < ta.len() implies lex_lt(#[trigger] ta[i], #[trigger] ta[j]) by {
        assert(lex_lt(rr[i].0@, rr[j].0@));
    }
    assert forall|i: int, j: int| 0 <= i < j < tb.len() implies lex_lt(#[trigger] tb[i], #[trigger] tb[j]) by {
        assert(lex_lt(rb[i].0@, rb[j].0@));
    }
    lemma_sorted_same_members(ta, tb);
    assert forall|k: int| 0 <= k < rr.len() implies rr[k].0@ == rb[k].0@ && rr[k].1 == rb[k].1 by {
        assert(ta[k] == tb[k]);
        let ty = reg.tag_index()[rr[k].0@];
        assert(call.ensures((&view[ty].1, tokens), Some(rr[k].1)));
        assert(call.ensures((&view[ty].1, tokens), Some(rb[k].1)));
    }
}

/// A snapshot of registered parsers (tag and payload), independent of the
/// registry, used to bake notes ahead of time.
pub struct NoteBaker<P> {
    parsers: Vec<(String, P)>,
}

impl<P> NoteBaker<P> {
    #[verifier::type_invariant]
    closed spec fn inv(&self) -> bool {
        forall|a: int, b: int|
            0 <= a < b < self.parsers@.len() ==> (#[trigger] self.parsers@[a]).0@ != (
            #[trigger] self.parsers@[b]).0@
    }

    /// The captured parsers: each one's tag and payload.
    pub closed spec fn parsers_view(&self) -> Seq<(Seq<char>, P)> {
        self.parsers@.map_values(|e: (String, P)| (e.0@, e.1))
    }

    /// A baker with no parsers.
    pub fn new() -> (r: Self)
        ensures
            r.parsers_view().len() == 0,
    {
        NoteBaker { parsers: Vec::new() }
    }

    /// Whether no parsers were captured (baking would then erase metadata).
    pub fn is_empty(&self) -> (r: bool)
        ensures
            r == (self.parsers_view().len() == 0),
    {
        self.parsers.len() == 0
    }

    /// `x` is the tag of some captured parser paired with bytes that parser
    /// yields (through `call`) for `tokens`.
    pub open spec fn baked_by_parser<C: Fn(&P, &NoteTokens) -> Option<Vec<u8>>>(
        &self,
        tokens: &NoteTokens,
        call: C,
        x: (String, Vec<u8>),
    ) -> bool {
        exists|i: int|
            0 <= i < self.parsers_view().len() && (#[trigger] self.parsers_view()[i]).0 == x.0@
                && call.ensures((&self.parsers_view()[i].1, tokens), Some(x.1))
    }

    /// Bakes every captured parser's output for `tokens` (through `call`) into
    /// `(tag, bytes)` pairs, sorted by tag for reproducible output.
    pub fn bake<C: Fn(&P, &NoteTokens) -> Option<Vec<u8>>>(
        &self,
        tokens: &NoteTokens,
        call: C,
    ) -> (r: Vec<(String, Vec<u8>)>)
        requires
            forall|p: &P, t: &NoteTokens| call.requires((p, t)),
        ensures
            sorted_by_tag(r@),
            forall|k: int| 0 <= k < r@.len() ==> #[trigger] self.baked_by_parser(tokens, call, r@[k]),
            forall|i: int|
                0 <= i < self.parsers_view().len() ==> (exists|k: int|
                    0 <= k < r@.len() && r@[k].0@ == (#[trigger] self.parsers_view()[i]).0)
                    || call.ensures((&self.parsers_view()[i].1, tokens), None::<Vec<u8>>),
    {
        proof {
            use_type_invariant(self);
        }
        let list = &self.parsers;
        let mut out: Vec<(String, Vec<u8>)> = Vec::new();
        let ghost mut src: Seq<int> = Seq::empty();
        let ghost mut hit: Seq<int> = Seq::empty();
        let mut i: usize = 0;
        while i < list.len()
            invariant
                i <= list@.len(),
                forall|a: int, b: int|
                    0 <= a < b < list@.len() ==> (#[trigger] list@[a]).0@ != (#[trigger] list@[b]).0@,
                forall|p: &P, t: &NoteTokens| call.requires((p, t)),
                sorted_by_tag(out@),
                src.len() == out@.len(),
                hit.len() == i,
                forall|k: int|
                    0 <= k < out@.len() ==> 0 <= #[trigger] src[k] < i && list@[src[k]].0@
                        == out@[k].0@ && call.ensures((&list@[src[k]].1, tokens), Some(out@[k].1)),
                forall|j: int|
                    0 <= j < i ==> (#[trigger] hit[j] == -1 && call.ensures(
                        (&list@[j].1, tokens),
                        None::<Vec<u8>>,
                    )) || (0 <= hit[j] < out@.len() && out@[hit[j]].0@ == list@[j].0@),
            decreases list@.len() - i,
        {
            let ghost before = out@;
            let ghost src0 = src;
            let ghost hit0 = hit;
            let got = call(&list[i].1, tokens);
            match got {
                Some(bytes) => {
                    proof {
                        assert forall|k: int| 0 <= k < before.len() implies (#[trigger] before[k]).0@
                            != list@[i as int].0@ by {
                            let j = src0[k];
                            if j < i {
                                assert(list@[j].0@ != list@[i as int].0@);
                            }
                        }
                    }
                    let ghost x = (list@[i as int].0, bytes);
                    insert_by_tag(&mut out, (list[i].0.clone(), bytes));
                    proof {
                        let p = choose|p: int| 0 <= p <= before.len() && out@ == before.insert(p, x);
                        src = src0.insert(p, i as int);
                        hit = hit0.map_values(|q: int| if q >= p { q + 1 } else { q }).push(p);
                        assert forall|k: int| 0 <= k < out@.len() implies 0 <= #[trigger] src[k] < i
                            + 1 && list@[src[k]].0@ == out@[k].0@ && call.ensures(
                            (&list@[src[k]].1, tokens),
                            Some(out@[k].1),
                        ) by {
                            if k < p {
                                assert(out@[k] == before[k] && src[k] == src0[k]);
                            } else if k > p {
                                assert(out@[k] == before[k - 1] && src[k] == src0[k - 1]);
                            }
                        }
                        assert forall|j: int| 0 <= j < i + 1 implies (#[trigger] hit[j] == -1
                            && call.ensures((&list@[j].1, tokens), None::<Vec<u8>>)) || (0 <= hit[j]
                            < out@.len() && out@[hit[j]].0@ == list@[j].0@) by {
                            if j < i {
                                let q = hit0[j];
                                if q != -1 {
                                    if q >= p {
                                        assert(out@[q + 1] == before[q]);
                                    } else {
                                        assert(out@[q] == before[q]);
                                    }
                                }
                            }
                        }
                    }
                },
                None => {
                    proof {
                        hit = hit0.push(-1);
                        assert forall|j: int| 0 <= j < i + 1 implies (#[trigger] hit[j] == -1
                            && call.ensures((&list@[j].1, tokens), None::<Vec<u8>>)) || (0 <= hit[j]
                            < out@.len() && out@[hit[j]].0@ == list@[j].0@) by {
                            if j < i {
                                assert(hit[j] == hit0[j]);
                            }
                        }
                    }
                },
            }
            i = i + 1;
        }
        proof {
            assert forall|k: int| 0 <= k < out@.len() implies #[trigger] self.baked_by_parser(
                tokens,
                call,
                out@[k],
            ) by {
                let j = src[k];
                assert(self.parsers_view()[j] == (list@[j].0@, list@[j].1));
            }
            assert forall|j: int| 0 <= j < self.parsers_view().len() implies (exists|k: int|
                0 <= k < out@.len() && out@[k].0@ == (#[trigger] self.parsers_view()[j]).0)
                || call.ensures((&self.parsers_view()[j].1, tokens), None::<Vec<u8>>) by {
                assert(self.parsers_view()[j] == (list@[j].0@, list@[j].1));
                if hit[j] != -1 {
                    assert(out@[hit[j]].0@ == self.parsers_view()[j].0);
                }
            }
        }
        out
    }
}

impl<P> Default for NoteBaker<P> {
    fn default() -> (r: Self)
        ensures
            r.parsers_view().len() == 0,
    {
        NoteBaker::new()
    }
}

} // verus!
