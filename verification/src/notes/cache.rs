//! Parse-once cache of typed note metadata.
//!
//! Notes are parsed exactly once per record when a table loads (and again on
//! hot-reload), and the results are cached here — so reads never re-parse, even
//! in tight loops. A table processed ahead of time carries its notes baked, and
//! those are deserialized instead of parsed. The cache is keyed by record type
//! and 1-based id.
use std::any::TypeId;
use vstd::prelude::*;

use crate::asset::{BakedRecordNotes, Table};
use crate::data::{HasId, HasNote};
use crate::keymap::KeyMap;
use crate::notes::registry::{NoteRegistry, ParsedNote};
use crate::notes::tokens::NoteTokens;
use crate::snapshot::AssetChange;

verus! {

/// Caches the typed metadata parsed from each record's note, keyed by record
/// type and 1-based id. Only records whose note yielded some metadata have an
/// entry.
pub struct RmmzNoteCache<V> {
    by_record: KeyMap<(TypeId, i32), ParsedNote<V>>,
}

impl<V> View for RmmzNoteCache<V> {
    type V = Map<(TypeId, i32), ParsedNote<V>>;

    closed spec fn view(&self) -> Map<(TypeId, i32), ParsedNote<V>> {
        self.by_record@
    }
}

/// `m` is what `table` yields for the record with id `id`: for a table
/// without baked notes, a possible result of parsing the note of a present
/// record with that id (through `call`); for a table with baked notes, a
/// possible result of unbaking a baked entry with that id (through `unbake`).
pub open spec fn yielded_by_table<
    R: HasNote + HasId,
    P,
    V,
    C: Fn(&P, &NoteTokens) -> Option<V>,
    U: Fn(&P, &Vec<u8>) -> Option<V>,
>(
    registry: &NoteRegistry<P>,
    call: C,
    unbake: U,
    table: Table<R>,
    id: i32,
    m: Map<TypeId, V>,
) -> bool {
    match table.baked_view() {
        None => exists|j: int|
            0 <= j < table.records_view().len() && #[trigger] table.records_view()[j] is Some
                && table.records_view()[j]->0.id_view() == id && registry.parsed_note_of(
                table.records_view()[j]->0.note_view(),
                call,
                m,
            ),
        Some(baked) => exists|j: int|
            0 <= j < baked.len() && (#[trigger] baked[j]).id == id && registry.unbaked_from(
                baked[j].tags@,
                unbake,
                m,
            ),
    }
}

/// Every record of `table` whose note yields metadata has an entry of type
/// `ty` in `cache`: a record without one yields nothing.
pub open spec fn covers_table<
    R: HasNote + HasId,
    P,
    V,
    C: Fn(&P, &NoteTokens) -> Option<V>,
    U: Fn(&P, &Vec<u8>) -> Option<V>,
>(
    cache: Map<(TypeId, i32), ParsedNote<V>>,
    ty: TypeId,
    registry: &NoteRegistry<P>,
    call: C,
    unbake: U,
    table: Table<R>,
) -> bool {
    match table.baked_view() {
        None => forall|j: int|
            0 <= j < table.records_view().len() && #[trigger] table.records_view()[j] is Some
                ==> cache.contains_key((ty, table.records_view()[j]->0.id_view()))
                || registry.parsed_note_of(
                table.records_view()[j]->0.note_view(),
                call,
                Map::<TypeId, V>::empty(),
            ),
        Some(baked) => forall|j: int|
            0 <= j < baked.len() ==> cache.contains_key((ty, (#[trigger] baked[j]).id))
                || registry.unbaked_from(baked[j].tags@, unbake, Map::<TypeId, V>::empty()),
    }
}

/// Whether a batch of asset changes asks for the notes to be re-cached: any
/// change other than a removal.
pub open spec fn notes_dirty_spec(changes: Seq<AssetChange>) -> bool {
    exists|i: int| 0 <= i < changes.len() && !(#[trigger] changes[i]).removes_spec()
}

/// Whether a batch of asset changes asks for the notes to be re-cached: any
/// load, reload or completed load (removals alone do not).
pub fn notes_dirty(changes: &[AssetChange]) -> (r: bool)
    ensures
        r == notes_dirty_spec(changes@),
{
    let mut i: usize = 0;
    while i < changes.len()
        invariant
            i <= changes@.len(),
            forall|k: int| 0 <= k < i ==> (#[trigger] changes@[k]).removes_spec(),
        decreases changes@.len() - i,
    {
        if !changes[i].removes() {
            assert(!changes@[i as int].removes_spec());
            return true;
        }
        i = i + 1;
    }
    false
}

impl<V> RmmzNoteCache<V> {
    /// An empty cache.
    pub fn new() -> (r: Self)
        ensures
            r@ == Map::<(TypeId, i32), ParsedNote<V>>::empty(),
    {
        RmmzNoteCache { by_record: KeyMap::new() }
    }

    /// The parsed note metadata for record type `ty` with the given 1-based id.
    pub fn get(&self, ty: &TypeId, id: i32) -> (r: Option<&ParsedNote<V>>)
        ensures
            r matches Some(n) ==> self@.contains_key((*ty, id)) && self@[(*ty, id)] == *n,
            r is None ==> !self@.contains_key((*ty, id)),
    {
        self.by_record.get(&(*ty, id))
    }

    /// The metadata of type `meta` parsed from the note of the record of type
    /// `ty` with the given id: a cache lookup, never a parse.
    pub fn note_meta(&self, ty: &TypeId, id: i32, meta: &TypeId) -> (r: Option<&V>)
        ensures
            r matches Some(v) ==> self@.contains_key((*ty, id)) && self@[(*ty, id)]@.contains_key(
                *meta,
            ) && self@[(*ty, id)]@[*meta] == *v,
            r is None ==> !self@.contains_key((*ty, id)) || !self@[(*ty, id)]@.contains_key(*meta),
    {
        match self.by_record.get(&(*ty, id)) {
            Some(note) => note.get(meta),
            None => None,
        }
    }

    /// Drops all cached entries for record type `ty`.
    pub fn clear_type(&mut self, ty: &TypeId)
        ensures
            forall|k: (TypeId, i32)| #[trigger]
                final(self)@.contains_key(k) == (old(self)@.contains_key(k) && k.0 != *ty),
            forall|k: (TypeId, i32)| #[trigger]
                final(self)@.contains_key(k) ==> final(self)@[k] == old(self)@[k],
    {
        self.by_record.remove_group(ty);
    }

    /// Caches `note` as the metadata of the record of type `ty` with id `id`.
    fn insert(&mut self, ty: TypeId, id: i32, note: ParsedNote<V>)
        ensures
            final(self)@ == old(self)@.insert((ty, id), note),
    {
        self.by_record.insert((ty, id), note);
    }

    /// Adds the metadata `table` yields, as type `ty`: parsed from the notes
    /// of its present records, or deserialized from its baked notes when it
    /// has them. Entries of other types, and entries this table does not
    /// touch, are left alone.
    fn cache_one<
        R: HasNote + HasId,
        P,
        C: Fn(&P, &NoteTokens) -> Option<V>,
        U: Fn(&P, &Vec<u8>) -> Option<V>,
    >(
        &mut self,
        ty: TypeId,
        table: &Table<R>,
        registry: &NoteRegistry<P>,
        call: &C,
        unbake: &U,
    )
        requires
            forall|p: &P, t: &NoteTokens| call.requires((p, t)),
            forall|p: &P, b: &Vec<u8>| unbake.requires((p, b)),
        ensures
            forall|k: (TypeId, i32)| #[trigger]
                old(self)@.contains_key(k) ==> final(self)@.contains_key(k),
            forall|k: (TypeId, i32)|
                #[trigger] final(self)@.contains_key(k) ==> (old(self)@.contains_key(k)
                    && final(self)@[k] == old(self)@[k]) || (k.0 == ty && final(self)@[k]@ != Map::<
                    TypeId,
                    V,
                >::empty() && yielded_by_table(registry, call, unbake, *table, k.1, final(self)@[k]@)),
            covers_table(final(self)@, ty, registry, call, unbake, *table),
    {
        let ghost start = self@;
        match table.baked() {
            None => {
                let slots = table.records();
                let mut j: usize = 0;
                while j < slots.len()
                    invariant
                        j <= slots@.len(),
                        slots@ == table.records_view(),
                        table.baked_view() is None,
                        forall|p: &P, t: &NoteTokens| call.requires((p, t)),
                        forall|k: (TypeId, i32)| #[trigger]
                            start.contains_key(k) ==> self@.contains_key(k),
                        forall|k: (TypeId, i32)|
                            #[trigger] self@.contains_key(k) ==> (start.contains_key(k)
                                && self@[k] == start[k]) || (k.0 == ty && self@[k]@ != Map::<
                                TypeId,
                                V,
                            >::empty() && yielded_by_table(registry, call, unbake, *table, k.1, self@[k]@)),
                        forall|j2: int|
                            0 <= j2 < j && #[trigger] table.records_view()[j2] is Some
                                ==> self@.contains_key((ty, table.records_view()[j2]->0.id_view()))
                                || registry.parsed_note_of(
                                table.records_view()[j2]->0.note_view(),
                                call,
                                Map::<TypeId, V>::empty(),
                            ),
                    decreases slots@.len() - j,
                {
                    if let Some(record) = &slots[j] {
                        let tokens = NoteTokens::parse(record.note());
                        let parsed = registry.parse_all(&tokens, call);
                        let id = record.id();
                        let ghost pv = parsed@;
                        proof {
                            assert(registry.parse_all_result(&tokens, call, pv));
                            assert(registry.parsed_note_of(record.note_view(), call, pv));
                        }
                        if !parsed.is_empty() {
                            self.insert(ty, id, parsed);
                            proof {
                                assert(table.records_view()[j as int] == Some(*record));
                                assert(yielded_by_table(registry, call, unbake, *table, id, pv));
                            }
                        }
                    }
                    j = j + 1;
                }
            },
            Some(baked) => {
                let mut j: usize = 0;
                while j < baked.len()
                    invariant
                        j <= baked@.len(),
                        table.baked_view() == Some(baked@),
                        forall|p: &P, b: &Vec<u8>| unbake.requires((p, b)),
                        forall|k: (TypeId, i32)| #[trigger]
                            start.contains_key(k) ==> self@.contains_key(k),
                        forall|k: (TypeId, i32)|
                            #[trigger] self@.contains_key(k) ==> (start.contains_key(k)
                                && self@[k] == start[k]) || (k.0 == ty && self@[k]@ != Map::<
                                TypeId,
                                V,
                            >::empty() && yielded_by_table(registry, call, unbake, *table, k.1, self@[k]@)),
                        forall|j2: int|
                            0 <= j2 < j ==> self@.contains_key((ty, (#[trigger] baked@[j2]).id))
                                || registry.unbaked_from(
                                baked@[j2].tags@,
                                unbake,
                                Map::<TypeId, V>::empty(),
                            ),
                    decreases baked@.len() - j,
                {
                    let entry: &BakedRecordNotes = &baked[j];
                    let parsed = registry.unbake(entry.tags.as_slice(), unbake);
                    let ghost pv = parsed@;
                    proof {
                        assert(registry.unbaked_from(entry.tags@, unbake, pv));
                    }
                    if !parsed.is_empty() {
                        self.insert(ty, entry.id, parsed);
                        proof {
                            assert(baked@[j as int] == *entry);
                            assert(table.baked_view()->0[j as int] == *entry);
                            assert(yielded_by_table(registry, call, unbake, *table, entry.id, pv));
                        }
                    }
                    j = j + 1;
                }
            },
        }
    }

    /// Rebuilds the entries of record type `ty` from `tables`: drops the old
    /// ones, then takes each table's metadata once — parsing the notes of its
    /// present records through `call`, or, for a table with baked notes,
    /// deserializing those through `unbake` without parsing — and caches the
    /// metadata of each record that yielded any.
    pub fn cache_table<
        R: HasNote + HasId,
        P,
        C: Fn(&P, &NoteTokens) -> Option<V>,
        U: Fn(&P, &Vec<u8>) -> Option<V>,
    >(
        &mut self,
        ty: TypeId,
        tables: &[&Table<R>],
        registry: &NoteRegistry<P>,
        call: &C,
        unbake: &U,
    )
        requires
            forall|p: &P, t: &NoteTokens| call.requires((p, t)),
            forall|p: &P, b: &Vec<u8>| unbake.requires((p, b)),
        ensures
            forall|k: (TypeId, i32)|
                k.0 != ty ==> #[trigger] final(self)@.contains_key(k) == old(self)@.contains_key(k),
            forall|k: (TypeId, i32)|
                k.0 != ty && #[trigger] final(self)@.contains_key(k) ==> final(self)@[k] == old(
                    self,
                )@[k],
            forall|id: i32| #[trigger]
                final(self)@.contains_key((ty, id)) ==> final(self)@[(ty, id)]@ != Map::<
                    TypeId,
                    V,
                >::empty() && exists|a: int|
                    0 <= a < tables@.len() && yielded_by_table(
                        registry,
                        call,
                        unbake,
                        *tables@[a],
                        id,
                        final(self)@[(ty, id)]@,
                    ),
            forall|a: int|
                0 <= a < tables@.len() ==> covers_table(
                    final(self)@,
                    ty,
                    registry,
                    call,
                    unbake,
                    *#[trigger] tables@[a],
                ),
    {
        let ghost old_map = self@;
        self.clear_type(&ty);
        let mut a: usize = 0;
        while a < tables.len()
            invariant
                a <= tables@.len(),
                forall|p: &P, t: &NoteTokens| call.requires((p, t)),
                forall|p: &P, b: &Vec<u8>| unbake.requires((p, b)),
                forall|k: (TypeId, i32)|
                    k.0 != ty ==> #[trigger] self@.contains_key(k) == old_map.contains_key(k),
                forall|k: (TypeId, i32)|
                    k.0 != ty && #[trigger] self@.contains_key(k) ==> self@[k] == old_map[k],
                forall|id: i32| #[trigger]
                    self@.contains_key((ty, id)) ==> self@[(ty, id)]@ != Map::<TypeId, V>::empty()
                        && exists|a2: int|
                        0 <= a2 < a && yielded_by_table(
                            registry,
                            call,
                            unbake,
                            *tables@[a2],
                            id,
                            self@[(ty, id)]@,
                        ),
                forall|a2: int|
                    0 <= a2 < a ==> covers_table(
                        self@,
                        ty,
                        registry,
                        call,
                        unbake,
                        *#[trigger] tables@[a2],
                    ),
            decreases tables@.len() - a,
        {
            let ghost before = self@;
            self.cache_one(ty, tables[a], registry, call, unbake);
            proof {
                assert forall|k: (TypeId, i32)| k.0 != ty implies #[trigger] self@.contains_key(k)
                    == old_map.contains_key(k) by {
                    if self@.contains_key(k) {
                        assert(before.contains_key(k));
                    }
                    if before.contains_key(k) {
                        assert(self@.contains_key(k));
                    }
                }
                assert forall|a2: int| 0 <= a2 < a + 1 implies covers_table(
                    self@,
                    ty,
                    registry,
                    call,
                    unbake,
                    *#[trigger] tables@[a2],
                ) by {
                    if a2 < a {
                        lemma_covers_grows(before, self@, ty, registry, call, unbake, *tables@[a2]);
                    }
                }
                assert forall|id: i32| #[trigger] self@.contains_key((ty, id)) implies self@[(ty, id)]@
                    != Map::<TypeId, V>::empty() && exists|a2: int|
                    0 <= a2 < a + 1 && yielded_by_table(
                        registry,
                        call,
                        unbake,
                        *tables@[a2],
                        id,
                        self@[(ty, id)]@,
                    ) by {
                    if before.contains_key((ty, id)) && self@[(ty, id)] == before[(ty, id)] {
                        let a2 = choose|a2: int|
                            0 <= a2 < a && yielded_by_table(
                                registry,
                                call,
                                unbake,
                                *tables@[a2],
                                id,
                                before[(ty, id)]@,
                            );
                    } else {
                        assert(yielded_by_table(
                            registry,
                            call,
                            unbake,
                            *tables@[a as int],
                            id,
                            self@[(ty, id)]@,
                        ));
                    }
                }
            }
            a = a + 1;
        }
    }
}

proof fn lemma_covers_grows<
    R: HasNote + HasId,
    P,
    V,
    C: Fn(&P, &NoteTokens) -> Option<V>,
    U: Fn(&P, &Vec<u8>) -> Option<V>,
>(
    before: Map<(TypeId, i32), ParsedNote<V>>,
    after: Map<(TypeId, i32), ParsedNote<V>>,
    ty: TypeId,
    registry: &NoteRegistry<P>,
    call: C,
    unbake: U,
    table: Table<R>,
)
    requires
        covers_table(before, ty, registry, call, unbake, table),
        forall|k: (TypeId, i32)| #[trigger] before.contains_key(k) ==> after.contains_key(k),
    ensures
        covers_table(after, ty, registry, call, unbake, table),
{
    match table.baked_view() {
        None => {
            assert forall|j: int|
                0 <= j < table.records_view().len() && #[trigger] table.records_view()[j] is Some
                    implies after.contains_key((ty, table.records_view()[j]->0.id_view()))
                    || registry.parsed_note_of(
                    table.records_view()[j]->0.note_view(),
                    call,
                    Map::<TypeId, V>::empty(),
                ) by {
                if before.contains_key((ty, table.records_view()[j]->0.id_view())) {
                }
            }
        },
        Some(baked) => {
            assert forall|j: int| 0 <= j < baked.len() implies after.contains_key(
                (ty, (#[trigger] baked[j]).id),
            ) || registry.unbaked_from(baked[j].tags@, unbake, Map::<TypeId, V>::empty()) by {
                if before.contains_key((ty, baked[j].id)) {
                }
            }
        },
    }
}

impl<V> Default for RmmzNoteCache<V> {
    fn default() -> (r: Self)
        ensures
            r@ == Map::<(TypeId, i32), ParsedNote<V>>::empty(),
    {
        RmmzNoteCache::new()
    }
}

} // verus!
