//! The parsed RPG Maker MZ database files.
//!
//! The array files load into the generic [`Table`]; the single-object
//! `System.json` and `Map###.json` load into [`SystemAsset`] and [`MapAsset`].
//! These types own the parsed data and offer id-based access.
use vstd::prelude::*;

use crate::data::{
    Actor, Animation, Armor, Class, CommonEvent, Enemy, GameMap, Item, MapInfo, Skill, State, System,
    Tileset, Troop, Weapon,
};

verus! {

/// Note metadata baked for a single record at processing time: the record's
/// 1-based id plus serialized `(type-tag, bytes)` pairs (one per parser that
/// matched). Present only in processed (binary) assets.
#[derive(Debug, Clone)]
pub struct BakedRecordNotes {
    /// 1-based id of the record these notes belong to.
    pub id: i32,
    /// Serialized parser outputs as `(type tag, bytes)`.
    pub tags: Vec<(String, Vec<u8>)>,
}

/// The records present in the slots `s[i..]`, in order, skipping `null` gaps.
pub open spec fn present_from<T>(s: Seq<Option<T>>, i: int) -> Seq<T>
    decreases s.len() - i,
{
    if i < 0 || i >= s.len() {
        seq![]
    } else {
        match s[i] {
            Some(t) => seq![t] + present_from(s, i + 1),
            None => present_from(s, i + 1),
        }
    }
}

/// The records present in `s`, in order, skipping `null` gaps.
pub open spec fn present<T>(s: Seq<Option<T>>) -> Seq<T> {
    present_from(s, 0)
}

/// A null-padded list of database records, mirroring the MZ array files.
///
/// MZ array files begin with a `null` at index 0 (ids are 1-based) and may
/// contain further `null` gaps for deleted entries. Index by id with
/// [`Table::get`], or list the present records with [`Table::iter`].
///
/// A table may also carry [`baked`](Table::baked) note metadata — present when
/// the asset was loaded from a processed binary (notes parsed ahead of time),
/// absent for JSON (notes parsed at load).
#[derive(Debug, Clone)]
pub struct Table<T> {
    records: Vec<Option<T>>,
    baked: Option<Vec<BakedRecordNotes>>,
}

impl<T> Table<T> {
    /// The raw record slots.
    pub closed spec fn records_view(&self) -> Seq<Option<T>> {
        self.records@
    }

    /// The baked note metadata, if any.
    pub closed spec fn baked_view(&self) -> Option<Seq<BakedRecordNotes>> {
        match self.baked {
            Some(b) => Some(b@),
            None => None,
        }
    }

    /// Creates a table from its records, with no baked notes.
    pub fn new(records: Vec<Option<T>>) -> (r: Self)
        ensures
            r.records_view() == records@,
            r.baked_view() is None,
    {
        Table { records, baked: None }
    }

    /// The raw, null-padded record slots (index 0 is the leading `null`).
    pub fn records(&self) -> (r: &[Option<T>])
        ensures
            r@ == self.records_view(),
    {
        self.records.as_slice()
    }

    /// Returns the record with the given 1-based `id`, or `None` if the id is
    /// out of range or that slot is a `null` gap.
    pub fn get(&self, id: usize) -> (r: Option<&T>)
        ensures
            r matches Some(t) ==> id < self.records_view().len() && self.records_view()[id as int]
                == Some(*t),
            r is None ==> id >= self.records_view().len() || self.records_view()[id as int] is None,
    {
        if id < self.records.len() {
            match &self.records[id] {
                Some(t) => Some(t),
                None => None,
            }
        } else {
            None
        }
    }

    /// The present (non-`null`) records, in order, skipping gaps.
    pub fn iter(&self) -> (r: Vec<&T>)
        ensures
            r@.map_values(|t: &T| *t) == present(self.records_view()),
    {
        let mut out: Vec<&T> = Vec::new();
        let mut i: usize = 0;
        while i < self.records.len()
            invariant
                i <= self.records@.len(),
                out@.map_values(|t: &T| *t) + present_from(self.records@, i as int) == present(
                    self.records@,
                ),
            decreases self.records@.len() - i,
        {
            let ghost before = out@.map_values(|t: &T| *t);
            if let Some(t) = &self.records[i] {
                out.push(t);
                assert(out@.map_values(|t: &T| *t) =~= before.push(*t));
            }
            i = i + 1;
        }
        assert(out@.map_values(|t: &T| *t) =~= present(self.records@));
        out
    }

    /// Number of present (non-`null`) records, ignoring the leading `null` and
    /// any gaps. For the raw slot count, use `self.records().len()`.
    pub fn count(&self) -> (r: usize)
        ensures
            r == present(self.records_view()).len(),
    {
        proof {
            lemma_present_len(self.records@, 0);
        }
        let mut n: usize = 0;
        let mut i: usize = 0;
        while i < self.records.len()
            invariant
                i <= self.records@.len(),
                n <= i,
                n + present_from(self.records@, i as int).len() == present(self.records@).len(),
                present_from(self.records@, i as int).len() <= self.records@.len() - i,
            decreases self.records@.len() - i,
        {
            proof {
                lemma_present_len(self.records@, i + 1);
            }
            if self.records[i].is_some() {
                n = n + 1;
            }
            i = i + 1;
        }
        n
    }

    /// Whether the table contains no records, ignoring `null` padding. (A table
    /// holding only the leading `null` reports `true`.)
    pub fn is_empty(&self) -> (r: bool)
        ensures
            r == (present(self.records_view()).len() == 0),
    {
        self.count() == 0
    }

    /// The baked (ahead-of-time parsed) note metadata, if this table came from a
    /// processed binary.
    pub fn baked(&self) -> (r: Option<&[BakedRecordNotes]>)
        ensures
            r matches Some(b) ==> self.baked_view() == Some(b@),
            r is None ==> self.baked_view() is None,
    {
        match &self.baked {
            Some(b) => Some(b.as_slice()),
            None => None,
        }
    }

    /// Attaches baked note metadata (used by the processing step).
    pub fn set_baked(&mut self, baked: Vec<BakedRecordNotes>)
        ensures
            final(self).records_view() == old(self).records_view(),
            final(self).baked_view() == Some(baked@),
    {
        self.baked = Some(baked);
    }
}

pub proof fn lemma_present_len<T>(s: Seq<Option<T>>, i: int)
    requires
        0 <= i,
    ensures
        present_from(s, i).len() <= if i <= s.len() { s.len() - i } else { 0 },
    decreases s.len() - i,
{
    if i < s.len() {
        lemma_present_len(s, i + 1);
    }
}

proof fn lemma_present_members<T>(s: Seq<Option<T>>, i: int)
    requires
        0 <= i,
    ensures
        forall|k: int|
            0 <= k < present_from(s, i).len() ==> exists|j: int|
                i <= j < s.len() && s[j] == Some(#[trigger] present_from(s, i)[k]),
        forall|j: int|
            i <= j < s.len() && (#[trigger] s[j]) is Some ==> exists|k: int|
                0 <= k < present_from(s, i).len() && present_from(s, i)[k] == s[j]->0,
    decreases s.len() - i,
{
    if i < s.len() {
        lemma_present_members(s, i + 1);
        let rest = present_from(s, i + 1);
        match s[i] {
            Some(t) => {
                assert forall|k: int| 0 <= k < present_from(s, i).len() implies exists|j: int|
                    i <= j < s.len() && s[j] == Some(#[trigger] present_from(s, i)[k]) by {
                    if k > 0 {
                        assert(present_from(s, i)[k] == rest[k - 1]);
                    }
                }
                assert forall|j: int| i <= j < s.len() && (#[trigger] s[j]) is Some implies exists|
                    k: int,
                | 0 <= k < present_from(s, i).len() && present_from(s, i)[k] == s[j]->0 by {
                    if j > i {
                        let k = choose|k: int| 0 <= k < rest.len() && rest[k] == s[j]->0;
                        assert(present_from(s, i)[k + 1] == rest[k]);
                    } else {
                        assert(present_from(s, i)[0] == t);
                    }
                }
            },
            None => {},
        }
    }
}

/// Listing a table and looking records up by id agree: every listed record
/// sits in some slot, and every filled slot's record is listed.
pub proof fn law_iter_agrees_with_get<T>(table: Table<T>)
    ensures
        forall|k: int|
            0 <= k < present(table.records_view()).len() ==> exists|id: int|
                0 <= id < table.records_view().len() && table.records_view()[id] == Some(
                    #[trigger] present(table.records_view())[k],
                ),
        forall|id: int|
            0 <= id < table.records_view().len() && (#[trigger] table.records_view()[id]) is Some
                ==> exists|k: int|
                0 <= k < present(table.records_view()).len() && present(table.records_view())[k]
                    == table.records_view()[id]->0,
{
    let s = table.records_view();
    lemma_present_members(s, 0);
    assert forall|id: int| 0 <= id < s.len() && (#[trigger] s[id]) is Some implies exists|k: int|
        0 <= k < present(s).len() && present(s)[k] == s[id]->0 by {
        let k = choose|k: int| 0 <= k < present_from(s, 0).len() && present_from(s, 0)[k] == s[id]->0;
        assert(present(s)[k] == s[id]->0);
    }
}

/// A table is empty exactly when every slot is a `null` gap, and it never
/// counts more records than it has slots.
pub proof fn law_empty_iff_all_gaps<T>(table: Table<T>)
    ensures
        (present(table.records_view()).len() == 0) == (forall|id: int|
            0 <= id < table.records_view().len() ==> (#[trigger] table.records_view()[id]) is None),
        present(table.records_view()).len() <= table.records_view().len(),
{
    lemma_present_members(table.records_view(), 0);
    lemma_present_len(table.records_view(), 0);
    if present(table.records_view()).len() != 0 {
        let k = 0int;
        let _ = present(table.records_view())[k];
    }
}

/// A database file's asset: built from the shape the file deserializes into.
pub trait RmmzAsset: Sized {
    /// The shape the file deserializes into directly.
    type Raw;

    /// Wraps freshly-deserialized data into the asset (no baked notes).
    fn from_raw(raw: Self::Raw) -> Self;
}

impl<T> RmmzAsset for Table<T> {
    type Raw = Vec<Option<T>>;

    fn from_raw(raw: Vec<Option<T>>) -> (r: Self)
        ensures
            r.records_view() == raw@,
            r.baked_view() is None,
    {
        Table::new(raw)
    }
}

/// `Actors.json` as an asset.
pub type ActorsAsset = Table<Actor>;

/// `Classes.json` as an asset.
pub type ClassesAsset = Table<Class>;

/// `Skills.json` as an asset.
pub type SkillsAsset = Table<Skill>;

/// `Items.json` as an asset.
pub type ItemsAsset = Table<Item>;

/// `Weapons.json` as an asset.
pub type WeaponsAsset = Table<Weapon>;

/// `Armors.json` as an asset.
pub type ArmorsAsset = Table<Armor>;

/// `Enemies.json` as an asset.
pub type EnemiesAsset = Table<Enemy>;

/// `States.json` as an asset.
pub type StatesAsset = Table<State>;

/// `Troops.json` as an asset.
pub type TroopsAsset = Table<Troop>;

/// `Animations.json` as an asset.
pub type AnimationsAsset = Table<Animation>;

/// `Tilesets.json` as an asset.
pub type TilesetsAsset = Table<Tileset>;

/// `CommonEvents.json` as an asset.
pub type CommonEventsAsset = Table<CommonEvent>;

/// `MapInfos.json` as an asset.
pub type MapInfosAsset = Table<MapInfo>;

/// The parsed `System.json` (a single object, not an array).
#[derive(Debug, Clone)]
pub struct SystemAsset(pub System);

/// A parsed `Map###.json` (a single object, not an array).
#[derive(Debug, Clone)]
pub struct MapAsset(pub GameMap);

impl RmmzAsset for SystemAsset {
    type Raw = System;

    fn from_raw(raw: System) -> (r: Self)
        ensures
            r.0 == raw,
    {
        SystemAsset(raw)
    }
}

impl RmmzAsset for MapAsset {
    type Raw = GameMap;

    fn from_raw(raw: GameMap) -> (r: Self)
        ensures
            r.0 == raw,
    {
        MapAsset(raw)
    }
}

impl MapAsset {
    /// The map data.
    pub fn map(&self) -> (r: &GameMap)
        ensures
            *r == self.0,
    {
        &self.0
    }
}

} // verus!
