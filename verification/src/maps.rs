//! `Map###.json` loading and map note metadata.
//!
//! Maps are loaded on request (or eagerly from `MapInfos`) into [`RmmzMaps`].
//! Map and map-event notes are parsed once per map load into [`RmmzMapNotes`].
use std::any::TypeId;
use std::collections::{HashMap, HashSet};
use vstd::prelude::*;

use crate::asset::{present, Table};
use crate::config::{data_file_path, RmmzConfig};
use crate::data::{GameMap, HasId, HasNote, MapInfo};
use crate::notes::registry::{NoteRegistry, ParsedNote};
use crate::notes::tokens::NoteTokens;
use crate::text::string_of;

verus! {

broadcast use vstd::std_specs::hash::group_hash_axioms;

/// How map files are loaded.
#[derive(Debug, Clone, Copy, PartialEq, Eq, Structural)]
pub enum MapLoad {
    /// Maps are not loaded; requests are recorded but never acted on.
    Disabled,
    /// Every map listed in `MapInfos.json` is loaded once it is available.
    Eager,
    /// Maps load only when [`RmmzMaps::request`]ed.
    OnDemand,
}

impl Default for MapLoad {
    fn default() -> (r: Self)
        ensures
            r is Disabled,
    {
        MapLoad::Disabled
    }
}

/// The character of decimal digit `d`.
pub open spec fn digit_char(d: nat) -> char {
    if d == 0 {
        '0'
    } else if d == 1 {
        '1'
    } else if d == 2 {
        '2'
    } else if d == 3 {
        '3'
    } else if d == 4 {
        '4'
    } else if d == 5 {
        '5'
    } else if d == 6 {
        '6'
    } else if d == 7 {
        '7'
    } else if d == 8 {
        '8'
    } else {
        '9'
    }
}

/// The decimal digits of `n`, most significant first, without leading zeros
/// (`0` is written `"0"`).
pub open spec fn decimal(n: nat) -> Seq<char>
    decreases n,
{
    if n < 10 {
        seq![digit_char(n)]
    } else {
        decimal(n / 10).push(digit_char(n % 10))
    }
}

/// `id` formatted with Rust's `{:03}`: a `-` sign for negatives, then zeros so
/// that sign and digits together take at least three characters.
pub open spec fn zero_padded3(id: int) -> Seq<char> {
    let sign: Seq<char> = if id < 0 {
        seq!['-']
    } else {
        seq![]
    };
    let digits = decimal((if id < 0 {
        -id
    } else {
        id
    }) as nat);
    let width = sign.len() + digits.len();
    let zeros: Seq<char> = Seq::new(
        if width < 3 {
            (3 - width) as nat
        } else {
            0
        },
        |i: int| '0',
    );
    sign + zeros + digits
}

/// The database file of map `id`: `Map` + the zero-padded id + `.json`, as in
/// `Map001.json`.
pub open spec fn map_file_spec(id: int) -> Seq<char> {
    seq!['M', 'a', 'p'] + zero_padded3(id) + seq!['.', 'j', 's', 'o', 'n']
}

fn digit(d: u64) -> (c: char)
    requires
        d < 10,
    ensures
        c == digit_char(d as nat),
{
    if d == 0 {
        '0'
    } else if d == 1 {
        '1'
    } else if d == 2 {
        '2'
    } else if d == 3 {
        '3'
    } else if d == 4 {
        '4'
    } else if d == 5 {
        '5'
    } else if d == 6 {
        '6'
    } else if d == 7 {
        '7'
    } else if d == 8 {
        '8'
    } else {
        '9'
    }
}

fn push_decimal(n: u64, out: &mut Vec<char>)
    ensures
        final(out)@ == old(out)@ + decimal(n as nat),
    decreases n,
{
    if n < 10 {
        out.push(digit(n));
        assert(decimal(n as nat) == seq![digit_char(n as nat)]);
    } else {
        push_decimal(n / 10, out);
        out.push(digit(n % 10));
        assert(decimal(n as nat) == decimal((n / 10) as nat).push(digit_char((n % 10) as nat)));
    }
}

/// The file name of map `id`, e.g. `Map001.json` for map 1.
#[verifier::rlimit(40)]
pub fn map_file_name(id: i32) -> (r: String)
    ensures
        r@ == map_file_spec(id as int),
{
    let mut out: Vec<char> = Vec::new();
    out.push('M');
    out.push('a');
    out.push('p');
    let negative = id < 0;
    let wide: i64 = id as i64;
    let magnitude: u64 = if negative {
        (-wide) as u64
    } else {
        wide as u64
    };
    let mut digits: Vec<char> = Vec::new();
    push_decimal(magnitude, &mut digits);
    assert(digits@ =~= decimal(magnitude as nat));
    let ghost head = out@;
    if negative {
        out.push('-');
    }
    let width: usize = if digits.len() >= 3 {
        3
    } else if negative {
        1 + digits.len()
    } else {
        digits.len()
    };
    let ghost signed = out@;
    let mut zeros: usize = 0;
    while width + zeros < 3
        invariant
            width <= 3,
            zeros <= 3 - width,
            out@ == signed + Seq::new(zeros as nat, |i: int| '0'),
        decreases 3 - zeros,
    {
        out.push('0');
        zeros = zeros + 1;
        assert(out@ =~= signed + Seq::new(zeros as nat, |i: int| '0'));
    }
    let ghost padded = out@;
    let mut k: usize = 0;
    while k < digits.len()
        invariant
            k <= digits@.len(),
            out@ == padded + digits@.subrange(0, k as int),
        decreases digits@.len() - k,
    {
        out.push(digits[k]);
        k = k + 1;
    }
    out.push('.');
    out.push('j');
    out.push('s');
    out.push('o');
    out.push('n');
    proof {
        assert(digits@.subrange(0, digits@.len() as int) =~= digits@);
        let sign: Seq<char> = if id < 0 {
            seq!['-']
        } else {
            seq![]
        };
        assert(signed =~= seq!['M', 'a', 'p'] + sign);
        assert((if id < 0 {
            -(id as int)
        } else {
            id as int
        }) as nat == magnitude as nat);
        let width = sign.len() + digits@.len();
        if width < 3 {
            assert(zeros == 3 - width);
        } else {
            assert(zeros == 0);
        }
        assert(out@ =~= map_file_spec(id as int));
    }
    string_of(&out)
}

/// Tracks requested and loaded map assets.
///
/// Request a map with [`RmmzMaps::request`] (a plain mutation); the loading
/// step performs the actual load and records the handle.
pub struct RmmzMaps<H> {
    strategy: MapLoad,
    requested: HashSet<i32>,
    handles: HashMap<i32, H>,
}

impl<H> RmmzMaps<H> {
    /// The configured loading strategy.
    pub closed spec fn strategy_spec(&self) -> MapLoad {
        self.strategy
    }

    /// The ids requested so far.
    pub closed spec fn requested_spec(&self) -> Set<i32> {
        self.requested@
    }

    /// The recorded handles, by map id.
    pub closed spec fn handles_spec(&self) -> Map<i32, H> {
        self.handles@
    }

    /// No maps requested or loaded, with the given strategy.
    pub fn new(strategy: MapLoad) -> (r: Self)
        ensures
            r.strategy_spec() == strategy,
            r.requested_spec() == Set::<i32>::empty(),
            r.handles_spec() == Map::<i32, H>::empty(),
    {
        RmmzMaps { strategy, requested: HashSet::new(), handles: HashMap::new() }
    }

    /// Requests that the map with this 1-based id be loaded. Idempotent; a
    /// no-op under [`MapLoad::Disabled`].
    pub fn request(&mut self, id: i32)
        ensures
            old(self).strategy_spec() is Disabled ==> final(self).requested_spec() == old(self).requested_spec(),
            !(old(self).strategy_spec() is Disabled) ==> final(self).requested_spec() == old(self).requested_spec().insert(id),
            final(self).handles_spec() == old(self).handles_spec(),
            final(self).strategy_spec() == old(self).strategy_spec(),
    {
        if self.strategy != MapLoad::Disabled {
            self.requested.insert(id);
        }
    }

    /// The handle for a requested and loaded map, if any.
    pub fn handle(&self, id: i32) -> (r: Option<&H>)
        ensures
            r matches Some(h) ==> self.handles_spec().contains_key(id) && self.handles_spec()[id]
                == *h,
            r is None ==> !self.handles_spec().contains_key(id),
    {
        self.handles.get(&id)
    }

    /// Whether the map with this id has been requested and its handle
    /// recorded. (Handles are recorded only for requested maps.)
    pub fn is_requested(&self, id: i32) -> (r: bool)
        ensures
            r == self.handles_spec().contains_key(id),
    {
        self.handles.contains_key(&id)
    }

    /// The configured loading strategy.
    pub fn strategy(&self) -> (r: MapLoad)
        ensures
            r == self.strategy_spec(),
    {
        self.strategy
    }

    /// Sets the loading strategy.
    pub fn set_strategy(&mut self, strategy: MapLoad)
        ensures
            final(self).strategy_spec() == strategy,
            final(self).requested_spec() == old(self).requested_spec(),
            final(self).handles_spec() == old(self).handles_spec(),
    {
        self.strategy = strategy;
    }

    /// Loads every requested map that has no handle yet (through `load`, given
    /// the map file's asset path under `config`) and records its handle. Does
    /// nothing under [`MapLoad::Disabled`].
    pub fn load_requested<F: Fn(&str) -> H>(&mut self, config: &RmmzConfig, load: &F)
        requires
            forall|p: &str| load.requires((p,)),
        ensures
            final(self).strategy_spec() == old(self).strategy_spec(),
            final(self).requested_spec() == old(self).requested_spec(),
            old(self).strategy_spec() is Disabled ==> final(self).handles_spec() == old(self).handles_spec(),
            !(old(self).strategy_spec() is Disabled) ==> final(self).handles_spec().dom() == old(self).handles_spec().dom() + old(self).requested_spec(),
            forall|id: i32| #[trigger]
                old(self).handles_spec().contains_key(id) ==> final(self).handles_spec()[id] == old(self).handles_spec()[id],
            forall|id: i32| #[trigger]
                final(self).handles_spec().contains_key(id) && !old(self).handles_spec().contains_key(id) ==> exists|p: &str|
                    p@ == data_file_path(config.data_path@, map_file_spec(id as int))
                        && #[trigger] load.ensures((p,), final(self).handles_spec()[id]),
    {
        if self.strategy == MapLoad::Disabled {
            return;
        }
        let ghost old_handles = self.handles@;
        let ghost req = self.requested@;
        for id in it: self.requested.iter()
            invariant
                self.requested@ == req,
                it.seq().unref().to_set() == req,
                self.strategy == old(self).strategy,
                forall|p: &str| load.requires((p,)),
                self.handles@.dom() == old_handles.dom() + it.seq().unref().take(it.index() as int).to_set(),
                it.index() == it.seq().len() ==> self.handles@.dom() == old_handles.dom() + req,
                forall|id: i32| #[trigger]
                    old_handles.contains_key(id) ==> self.handles@[id] == old_handles[id],
                forall|id: i32| #[trigger]
                    self.handles@.contains_key(id) && !old_handles.contains_key(id) ==> exists|
                        p: &str,
                    |
                        p@ == data_file_path(config.data_path@, map_file_spec(id as int))
                            && #[trigger] load.ensures((p,), self.handles@[id]),
        {
            let id: i32 = *id;
            proof {
                assert(it.seq().unref().take(it.index() + 1) =~= it.seq().unref().take(it.index() as int).push(id));
                it.seq().unref().take(it.index() as int).lemma_push_to_set_commute(id);
            }
            if !self.handles.contains_key(&id) {
                let name = map_file_name(id);
                let path = config.path(name.as_str());
                let path_str = path.as_str();
                let h = load(path_str);
                let ghost before = self.handles@;
                self.handles.insert(id, h);
                proof {
                    assert(self.handles@.dom() =~= before.dom().insert(id));
                    assert(path_str@ == data_file_path(config.data_path@, map_file_spec(id as int)));
                    assert(load.ensures((path_str,), self.handles@[id]));
                    assert forall|id2: i32| #[trigger]
                        self.handles@.contains_key(id2) && !old_handles.contains_key(id2) implies exists|
                            p: &str,
                        |
                            p@ == data_file_path(config.data_path@, map_file_spec(id2 as int))
                                && #[trigger] load.ensures((p,), self.handles@[id2]) by {
                        if id2 != id {
                            assert(self.handles@[id2] == before[id2]);
                        } else {
                            assert(path_str@ == data_file_path(config.data_path@, map_file_spec(id2 as int))
                                && load.ensures((path_str,), self.handles@[id2]));
                        }
                    }
                }
            } else {
                assert(self.handles@.dom() =~= self.handles@.dom().insert(id));
            }
            assert(self.handles@.dom() =~= old_handles.dom() + it.seq().unref().take(it.index() + 1).to_set());
            assert(it.index() + 1 == it.seq().len() ==> it.seq().unref().take(it.index() + 1) =~= it.seq().unref());
        }
    }

    /// Under [`MapLoad::Eager`], requests every map listed in `infos` once it
    /// is available; runs to completion once. `done` says whether it already
    /// has; the result is the new value of `done`.
    pub fn eager_request(&mut self, done: bool, infos: Option<&Table<MapInfo>>) -> (r: bool)
        ensures
            final(self).strategy_spec() == old(self).strategy_spec(),
            final(self).handles_spec() == old(self).handles_spec(),
            (done || !(old(self).strategy_spec() is Eager) || infos is None) ==> final(self).requested_spec() == old(self).requested_spec() && r == done,
            (!done && old(self).strategy_spec() is Eager && infos is Some) ==> r && final(self).requested_spec() == old(self).requested_spec() + present(
                infos->0.records_view(),
            ).map_values(|m: MapInfo| m.id).to_set(),
    {
        if done || self.strategy != MapLoad::Eager {
            return done;
        }
        match infos {
            None => false,
            Some(table) => {
                let rows = table.iter();
                let ghost start = self.requested_spec();
                let ghost ids = rows@.map_values(|m: &MapInfo| m.id);
                let mut k: usize = 0;
                while k < rows.len()
                    invariant
                        k <= rows@.len(),
                        ids == rows@.map_values(|m: &MapInfo| m.id),
                        self.strategy_spec() == old(self).strategy_spec(),
                        self.strategy_spec() is Eager,
                        self.handles_spec() == old(self).handles_spec(),
                        self.requested_spec() == start + ids.subrange(0, k as int).to_set(),
                    decreases rows@.len() - k,
                {
                    let id = rows[k].id;
                    let ghost before = self.requested_spec();
                    self.request(id);
                    proof {
                        assert(ids.subrange(0, k + 1) =~= ids.subrange(0, k as int).push(id));
                        ids.subrange(0, k as int).lemma_push_to_set_commute(id);
                        assert(self.requested_spec() =~= start + ids.subrange(0, k + 1).to_set());
                    }
                    k = k + 1;
                }
                proof {
                    assert(ids.subrange(0, ids.len() as int) =~= ids);
                    assert(ids =~= present(table.records_view()).map_values(|m: MapInfo| m.id)) by {
                        assert(rows@.map_values(|t: &MapInfo| *t) == present(table.records_view()));
                        assert forall|i: int| 0 <= i < ids.len() implies ids[i] == present(
                            table.records_view(),
                        ).map_values(|m: MapInfo| m.id)[i] by {
                            assert(rows@.map_values(|t: &MapInfo| *t)[i] == *rows@[i]);
                        }
                    }
                }
                true
            },
        }
    }

    /// The map whose recorded handle `matches` accepts (through `matches`), if
    /// any: used to find which map a changed asset belongs to.
    pub fn map_of<F: Fn(&H) -> bool>(&self, matches: &F) -> (r: Option<i32>)
        requires
            forall|h: &H| matches.requires((h,)),
        ensures
            r matches Some(id) ==> self.handles_spec().contains_key(id) && matches.ensures(
                (&self.handles_spec()[id],),
                true,
            ),
            r is None ==> forall|id: i32| #[trigger]
                self.handles_spec().contains_key(id) ==> matches.ensures(
                    (&self.handles_spec()[id],),
                    false,
                ),
    {
        for (k, v) in it: self.handles.iter()
            invariant
                forall|h: &H| matches.requires((h,)),
                forall|j: int|
                    0 <= j < it.index() ==> matches.ensures((it.seq()[j].1,), false),
                it.index() == it.seq().len() ==> forall|id: i32| #[trigger]
                    self.handles_spec().contains_key(id) ==> matches.ensures(
                        (&self.handles_spec()[id],),
                        false,
                    ),
        {
            if matches(v) {
                assert(self.handles@.contains_key(*k) && self.handles@[*k] == *v);
                return Some(*k);
            }
            assert(it.index() + 1 == it.seq().len() ==> forall|id: i32| #[trigger]
                self.handles_spec().contains_key(id) ==> matches.ensures(
                    (&self.handles_spec()[id],),
                    false,
                )) by {
                assert forall|id: i32| #[trigger] self.handles_spec().contains_key(id)
                    && it.index() + 1 == it.seq().len() implies matches.ensures(
                    (&self.handles_spec()[id],),
                    false,
                ) by {
                    let j = choose|j: int| 0 <= j < it.seq().len() && it.seq()[j] == (&id, &self.handles@[id]);
                    assert(matches.ensures((it.seq()[j].1,), false));
                }
            }
        }
        None
    }
}

/// The map ids listed in `MapInfos.json` (whether or not each is loaded), in
/// table order; none while the table is not loaded.
pub fn map_ids(infos: Option<&Table<MapInfo>>) -> (r: Vec<i32>)
    ensures
        infos is None ==> r@ == Seq::<i32>::empty(),
        infos matches Some(t) ==> r@ == present(t.records_view()).map_values(|m: MapInfo| m.id),
{
    let mut out: Vec<i32> = Vec::new();
    match infos {
        None => {},
        Some(table) => {
            let rows = table.iter();
            let mut k: usize = 0;
            while k < rows.len()
                invariant
                    k <= rows@.len(),
                    out@ =~= rows@.subrange(0, k as int).map_values(|m: &MapInfo| m.id),
                decreases rows@.len() - k,
            {
                out.push(rows[k].id);
                k = k + 1;
            }
            proof {
                assert(rows@.subrange(0, rows@.len() as int) =~= rows@);
                assert(rows@.map_values(|t: &MapInfo| *t) == present(table.records_view()));
                assert forall|i: int| 0 <= i < out@.len() implies out@[i] == present(
                    table.records_view(),
                ).map_values(|m: MapInfo| m.id)[i] by {
                    assert(rows@.map_values(|t: &MapInfo| *t)[i] == *rows@[i]);
                }
                assert(out@ =~= present(table.records_view()).map_values(|m: MapInfo| m.id));
            }
        },
    }
    out
}

impl<H> Default for RmmzMaps<H> {
    fn default() -> (r: Self)
        ensures
            r.strategy_spec() is Disabled,
            r.requested_spec() == Set::<i32>::empty(),
            r.handles_spec() == Map::<i32, H>::empty(),
    {
        RmmzMaps::new(MapLoad::Disabled)
    }
}

/// Parsed note metadata for maps and map events, keyed by map id and by
/// `(map id, event id)`. Only notes that yielded some metadata have an entry.
pub struct RmmzMapNotes<V> {
    maps: HashMap<i32, ParsedNote<V>>,
    /// By map id, then event id.
    events: HashMap<i32, HashMap<i32, ParsedNote<V>>>,
}

/// The `(map id, event id)` view of per-map event tables.
pub open spec fn flatten_events<V>(events: Map<i32, HashMap<i32, ParsedNote<V>>>) -> Map<
    (i32, i32),
    ParsedNote<V>,
> {
    Map::new(
        |k: (i32, i32)| events.contains_key(k.0) && events[k.0]@.contains_key(k.1),
        |k: (i32, i32)| events[k.0]@[k.1],
    )
}

/// Some present event of `map` has id `event_id`, and `m` is a possible result
/// of parsing its note with `registry` (through `call`).
pub open spec fn yielded_by_event<P, V, C: Fn(&P, &NoteTokens) -> Option<V>>(
    registry: &NoteRegistry<P>,
    call: C,
    map: GameMap,
    event_id: i32,
    m: Map<TypeId, V>,
) -> bool {
    exists|j: int|
        0 <= j < map.events@.len() && #[trigger] map.events@[j] is Some && map.events@[j]->0.id
            == event_id && registry.parsed_note_of(map.events@[j]->0.note@, call, m)
}

impl<V> RmmzMapNotes<V> {
    /// Map note metadata, by map id.
    pub closed spec fn maps_spec(&self) -> Map<i32, ParsedNote<V>> {
        self.maps@
    }

    /// Map-event note metadata, by `(map id, event id)`.
    pub closed spec fn events_spec(&self) -> Map<(i32, i32), ParsedNote<V>> {
        flatten_events(self.events@)
    }

    /// No cached metadata.
    pub fn new() -> (r: Self)
        ensures
            r.maps_spec() == Map::<i32, ParsedNote<V>>::empty(),
            r.events_spec() == Map::<(i32, i32), ParsedNote<V>>::empty(),
    {
        let r = RmmzMapNotes { maps: HashMap::new(), events: HashMap::new() };
        assert(r.events_spec() =~= Map::<(i32, i32), ParsedNote<V>>::empty());
        r
    }

    /// Parsed note metadata for the given map.
    pub fn map(&self, map_id: i32) -> (r: Option<&ParsedNote<V>>)
        ensures
            r matches Some(n) ==> self.maps_spec().contains_key(map_id) && self.maps_spec()[map_id]
                == *n,
            r is None ==> !self.maps_spec().contains_key(map_id),
    {
        self.maps.get(&map_id)
    }

    /// Parsed note metadata for an event within a map.
    pub fn event(&self, map_id: i32, event_id: i32) -> (r: Option<&ParsedNote<V>>)
        ensures
            r matches Some(n) ==> self.events_spec().contains_key((map_id, event_id))
                && self.events_spec()[(map_id, event_id)] == *n,
            r is None ==> !self.events_spec().contains_key((map_id, event_id)),
    {
        match self.events.get(&map_id) {
            Some(inner) => inner.get(&event_id),
            None => None,
        }
    }

    /// The metadata of type `ty` parsed from the given map's note.
    pub fn map_note(&self, map_id: i32, ty: &TypeId) -> (r: Option<&V>)
        ensures
            r matches Some(v) ==> self.maps_spec().contains_key(map_id)
                && self.maps_spec()[map_id]@.contains_key(*ty) && self.maps_spec()[map_id]@[*ty]
                == *v,
            r is None ==> !self.maps_spec().contains_key(map_id)
                || !self.maps_spec()[map_id]@.contains_key(*ty),
    {
        match self.maps.get(&map_id) {
            Some(note) => note.get(ty),
            None => None,
        }
    }

    /// The metadata of type `ty` parsed from an event's note within a map.
    pub fn map_event_note(&self, map_id: i32, event_id: i32, ty: &TypeId) -> (r: Option<&V>)
        ensures
            r matches Some(v) ==> self.events_spec().contains_key((map_id, event_id))
                && self.events_spec()[(map_id, event_id)]@.contains_key(*ty)
                && self.events_spec()[(map_id, event_id)]@[*ty] == *v,
            r is None ==> !self.events_spec().contains_key((map_id, event_id))
                || !self.events_spec()[(map_id, event_id)]@.contains_key(*ty),
    {
        match self.event(map_id, event_id) {
            Some(note) => note.get(ty),
            None => None,
        }
    }

    /// Drops the stale entries of map `map_id`, then (when the map is still
    /// loaded, `map` is `Some`) parses its note and each present event's note
    /// once, caching every note that yielded metadata. Other maps are left
    /// alone.
    pub fn recache_map<P, C: Fn(&P, &NoteTokens) -> Option<V>>(
        &mut self,
        map_id: i32,
        map: Option<&GameMap>,
        registry: &NoteRegistry<P>,
        call: &C,
    )
        requires
            forall|p: &P, t: &NoteTokens| call.requires((p, t)),
        ensures
            forall|id: i32|
                id != map_id ==> #[trigger] final(self).maps_spec().contains_key(id) == old(self).maps_spec().contains_key(id)
                    && (old(self).maps_spec().contains_key(id) ==> final(self).maps_spec()[id] == old(self).maps_spec()[id]),
            forall|k: (i32, i32)|
                k.0 != map_id ==> #[trigger] final(self).events_spec().contains_key(k) == old(self).events_spec().contains_key(k)
                    && (old(self).events_spec().contains_key(k) ==> final(self).events_spec()[k] == old(self).events_spec()[k]),
            final(self).maps_spec().contains_key(map_id) ==> map is Some && final(self).maps_spec()[map_id]@
                != Map::<TypeId, V>::empty() && registry.parsed_note_of(
                map->0.note@,
                call,
                final(self).maps_spec()[map_id]@,
            ),
            map is Some && !final(self).maps_spec().contains_key(map_id) ==> registry.parsed_note_of(
                map->0.note@,
                call,
                Map::<TypeId, V>::empty(),
            ),
            forall|e: i32| #[trigger]
                final(self).events_spec().contains_key((map_id, e)) ==> map is Some && final(self).events_spec()[(map_id, e)]@
                    != Map::<TypeId, V>::empty() && yielded_by_event(
                    registry,
                    call,
                    *map->0,
                    e,
                    final(self).events_spec()[(map_id, e)]@,
                ),
            forall|j: int|
                map is Some && 0 <= j < map->0.events@.len() && #[trigger] map->0.events@[j] is Some
                    ==> final(self).events_spec().contains_key((map_id, map->0.events@[j]->0.id))
                    || registry.parsed_note_of(
                    map->0.events@[j]->0.note@,
                    call,
                    Map::<TypeId, V>::empty(),
                ),
    {
        let ghost old_maps = self.maps@;
        let ghost old_events = self.events@;
        self.maps.remove(&map_id);
        self.events.remove(&map_id);
        assert(self.maps@ == old_maps.remove(map_id));
        assert(self.events@ == old_events.remove(map_id));
        match map {
            None => {
                assert(flatten_events(self.events@) =~= Map::new(
                    |k: (i32, i32)| flatten_events(old_events).contains_key(k) && k.0 != map_id,
                    |k: (i32, i32)| flatten_events(old_events)[k],
                ));
            },
            Some(m) => {
                let tokens = NoteTokens::parse(m.note());
                let parsed = registry.parse_all(&tokens, call);
                let ghost pv = parsed@;
                proof {
                    assert(registry.parse_all_result(&tokens, call, pv));
                    assert(registry.parsed_note_of(m.note@, call, pv));
                }
                if !parsed.is_empty() {
                    self.maps.insert(map_id, parsed);
                }
                assert(self.maps@.contains_key(map_id) ==> self.maps@[map_id]@ == pv && pv
                    != Map::<TypeId, V>::empty());
                assert(!self.maps@.contains_key(map_id) ==> pv == Map::<TypeId, V>::empty());
                let mut inner: HashMap<i32, ParsedNote<V>> = HashMap::new();
                let mut j: usize = 0;
                while j < m.events.len()
                    invariant
                        j <= m.events@.len(),
                        forall|p: &P, t: &NoteTokens| call.requires((p, t)),
                        forall|e: i32| #[trigger]
                            inner@.contains_key(e) ==> inner@[e]@ != Map::<TypeId, V>::empty()
                                && yielded_by_event(registry, call, *m, e, inner@[e]@),
                        forall|j2: int|
                            0 <= j2 < j && #[trigger] m.events@[j2] is Some
                                ==> inner@.contains_key(m.events@[j2]->0.id)
                                || registry.parsed_note_of(
                                m.events@[j2]->0.note@,
                                call,
                                Map::<TypeId, V>::empty(),
                            ),
                    decreases m.events@.len() - j,
                {
                    if let Some(event) = &m.events[j] {
                        let tokens = NoteTokens::parse(event.note());
                        let parsed = registry.parse_all(&tokens, call);
                        let ghost pv = parsed@;
                        proof {
                            assert(registry.parse_all_result(&tokens, call, pv));
                            assert(registry.parsed_note_of(event.note@, call, pv));
                        }
                        if !parsed.is_empty() {
                            let eid = event.id;
                            inner.insert(eid, parsed);
                            proof {
                                assert forall|e: i32| #[trigger] inner@.contains_key(e)
                                    implies inner@[e]@ != Map::<TypeId, V>::empty()
                                    && yielded_by_event(registry, call, *m, e, inner@[e]@) by {
                                    if e == eid {
                                        assert(m.events@[j as int] == Some(*event));
                                        assert(inner@[e]@ == pv);
                                    }
                                }
                            }
                        }
                    }
                    j = j + 1;
                }
                let ghost done = inner@;
                self.events.insert(map_id, inner);
                proof {
                    assert(self.events@ == old_events.remove(map_id).insert(map_id, self.events@[map_id]));
                    assert(self.events@[map_id]@ == done);
                    assert forall|k: (i32, i32)| #[trigger] flatten_events(self.events@).contains_key(k)
                        == (if k.0 == map_id {
                        done.contains_key(k.1)
                    } else {
                        flatten_events(old_events).contains_key(k)
                    }) by {}
                }
            },
        }
    }
}

impl<V> Default for RmmzMapNotes<V> {
    fn default() -> (r: Self)
        ensures
            r.maps_spec() == Map::<i32, ParsedNote<V>>::empty(),
            r.events_spec() == Map::<(i32, i32), ParsedNote<V>>::empty(),
    {
        RmmzMapNotes::new()
    }
}

} // verus!
