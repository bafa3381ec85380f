//! Configuration for which RPG Maker MZ data to load and from where, plus the
//! registry that holds the resulting asset handles.
use std::any::TypeId;
use vstd::prelude::*;

use crate::keymap::KeyMap;
use crate::text::{chars_of, string_of};

verus! {

/// Identifies a core (non-map) RPG Maker MZ database file.
#[derive(Debug, Clone, Copy, PartialEq, Eq, Hash, Structural)]
pub enum CoreTable {
    /// `Actors.json`
    Actors,
    /// `Classes.json`
    Classes,
    /// `Skills.json`
    Skills,
    /// `Items.json`
    Items,
    /// `Weapons.json`
    Weapons,
    /// `Armors.json`
    Armors,
    /// `Enemies.json`
    Enemies,
    /// `States.json`
    States,
    /// `Troops.json`
    Troops,
    /// `Animations.json`
    Animations,
    /// `Tilesets.json`
    Tilesets,
    /// `CommonEvents.json`
    CommonEvents,
    /// `MapInfos.json`
    MapInfos,
    /// `System.json`
    System,
}

/// The core tables in the order they are registered.
pub open spec fn all_tables() -> Seq<CoreTable> {
    seq![
        CoreTable::Actors,
        CoreTable::Classes,
        CoreTable::Skills,
        CoreTable::Items,
        CoreTable::Weapons,
        CoreTable::Armors,
        CoreTable::Enemies,
        CoreTable::States,
        CoreTable::Tilesets,
        CoreTable::Troops,
        CoreTable::Animations,
        CoreTable::CommonEvents,
        CoreTable::MapInfos,
        CoreTable::System,
    ]
}

/// The position of `t` in [`all_tables`].
pub open spec fn table_rank(t: CoreTable) -> int {
    match t {
        CoreTable::Actors => 0,
        CoreTable::Classes => 1,
        CoreTable::Skills => 2,
        CoreTable::Items => 3,
        CoreTable::Weapons => 4,
        CoreTable::Armors => 5,
        CoreTable::Enemies => 6,
        CoreTable::States => 7,
        CoreTable::Tilesets => 8,
        CoreTable::Troops => 9,
        CoreTable::Animations => 10,
        CoreTable::CommonEvents => 11,
        CoreTable::MapInfos => 12,
        CoreTable::System => 13,
    }
}

/// The file each core table loads from.
pub open spec fn table_file(t: CoreTable) -> Seq<char> {
    match t {
        CoreTable::Actors => "Actors.json"@,
        CoreTable::Classes => "Classes.json"@,
        CoreTable::Skills => "Skills.json"@,
        CoreTable::Items => "Items.json"@,
        CoreTable::Weapons => "Weapons.json"@,
        CoreTable::Armors => "Armors.json"@,
        CoreTable::Enemies => "Enemies.json"@,
        CoreTable::States => "States.json"@,
        CoreTable::Tilesets => "Tilesets.json"@,
        CoreTable::Troops => "Troops.json"@,
        CoreTable::Animations => "Animations.json"@,
        CoreTable::CommonEvents => "CommonEvents.json"@,
        CoreTable::MapInfos => "MapInfos.json"@,
        CoreTable::System => "System.json"@,
    }
}

/// Whether a table's records carry notes that are parsed into the note cache
/// (and baked at processing time).
pub open spec fn table_has_notes(t: CoreTable) -> bool {
    table_rank(t) <= 8
}

/// The name of a core table as RPG Maker MZ spells it (the variant's name).
pub open spec fn table_name(t: CoreTable) -> Seq<char> {
    match t {
        CoreTable::Actors => "Actors"@,
        CoreTable::Classes => "Classes"@,
        CoreTable::Skills => "Skills"@,
        CoreTable::Items => "Items"@,
        CoreTable::Weapons => "Weapons"@,
        CoreTable::Armors => "Armors"@,
        CoreTable::Enemies => "Enemies"@,
        CoreTable::States => "States"@,
        CoreTable::Tilesets => "Tilesets"@,
        CoreTable::Troops => "Troops"@,
        CoreTable::Animations => "Animations"@,
        CoreTable::CommonEvents => "CommonEvents"@,
        CoreTable::MapInfos => "MapInfos"@,
        CoreTable::System => "System"@,
    }
}

/// Each core table loads from its MZ database file: its name followed by
/// `.json` (`Weapons` from `Weapons.json`).
pub proof fn law_table_file_is_name_dot_json(t: CoreTable)
    ensures
        table_file(t) == table_name(t) + ".json"@,
{
    reveal_strlit(".json");
    reveal_strlit("Actors");
    reveal_strlit("Actors.json");
    reveal_strlit("Classes");
    reveal_strlit("Classes.json");
    reveal_strlit("Skills");
    reveal_strlit("Skills.json");
    reveal_strlit("Items");
    reveal_strlit("Items.json");
    reveal_strlit("Weapons");
    reveal_strlit("Weapons.json");
    reveal_strlit("Armors");
    reveal_strlit("Armors.json");
    reveal_strlit("Enemies");
    reveal_strlit("Enemies.json");
    reveal_strlit("States");
    reveal_strlit("States.json");
    reveal_strlit("Tilesets");
    reveal_strlit("Tilesets.json");
    reveal_strlit("Troops");
    reveal_strlit("Troops.json");
    reveal_strlit("Animations");
    reveal_strlit("Animations.json");
    reveal_strlit("CommonEvents");
    reveal_strlit("CommonEvents.json");
    reveal_strlit("MapInfos");
    reveal_strlit("MapInfos.json");
    reveal_strlit("System");
    reveal_strlit("System.json");
    match t {
        CoreTable::Actors => assert(table_file(t) =~= table_name(t) + ".json"@),
        CoreTable::Classes => assert(table_file(t) =~= table_name(t) + ".json"@),
        CoreTable::Skills => assert(table_file(t) =~= table_name(t) + ".json"@),
        CoreTable::Items => assert(table_file(t) =~= table_name(t) + ".json"@),
        CoreTable::Weapons => assert(table_file(t) =~= table_name(t) + ".json"@),
        CoreTable::Armors => assert(table_file(t) =~= table_name(t) + ".json"@),
        CoreTable::Enemies => assert(table_file(t) =~= table_name(t) + ".json"@),
        CoreTable::States => assert(table_file(t) =~= table_name(t) + ".json"@),
        CoreTable::Tilesets => assert(table_file(t) =~= table_name(t) + ".json"@),
        CoreTable::Troops => assert(table_file(t) =~= table_name(t) + ".json"@),
        CoreTable::Animations => assert(table_file(t) =~= table_name(t) + ".json"@),
        CoreTable::CommonEvents => assert(table_file(t) =~= table_name(t) + ".json"@),
        CoreTable::MapInfos => assert(table_file(t) =~= table_name(t) + ".json"@),
        CoreTable::System => assert(table_file(t) =~= table_name(t) + ".json"@),
    }
}

/// The tables whose records carry notes (and so get a note cache and baked
/// notes) are exactly actors, classes, skills, items, weapons, armors,
/// enemies, states and tilesets: the record types with a `note` field.
pub proof fn law_note_tables(t: CoreTable)
    ensures
        table_has_notes(t) <==> (t == CoreTable::Actors || t == CoreTable::Classes || t
            == CoreTable::Skills || t == CoreTable::Items || t == CoreTable::Weapons || t
            == CoreTable::Armors || t == CoreTable::Enemies || t == CoreTable::States || t
            == CoreTable::Tilesets),
{
}

impl CoreTable {
    /// Every core table, in registration order.
    pub fn all() -> (r: Vec<CoreTable>)
        ensures
            r@ == all_tables(),
    {
        let r = vec![
            CoreTable::Actors,
            CoreTable::Classes,
            CoreTable::Skills,
            CoreTable::Items,
            CoreTable::Weapons,
            CoreTable::Armors,
            CoreTable::Enemies,
            CoreTable::States,
            CoreTable::Tilesets,
            CoreTable::Troops,
            CoreTable::Animations,
            CoreTable::CommonEvents,
            CoreTable::MapInfos,
            CoreTable::System,
        ];
        assert(r@ =~= all_tables());
        r
    }

    /// The database file this table loads from, e.g. `Items.json`.
    pub fn file_name(self) -> (r: &'static str)
        ensures
            r@ == table_file(self),
            r@ == table_name(self) + ".json"@,
    {
        proof {
            law_table_file_is_name_dot_json(self);
        }
        match self {
            CoreTable::Actors => "Actors.json",
            CoreTable::Classes => "Classes.json",
            CoreTable::Skills => "Skills.json",
            CoreTable::Items => "Items.json",
            CoreTable::Weapons => "Weapons.json",
            CoreTable::Armors => "Armors.json",
            CoreTable::Enemies => "Enemies.json",
            CoreTable::States => "States.json",
            CoreTable::Tilesets => "Tilesets.json",
            CoreTable::Troops => "Troops.json",
            CoreTable::Animations => "Animations.json",
            CoreTable::CommonEvents => "CommonEvents.json",
            CoreTable::MapInfos => "MapInfos.json",
            CoreTable::System => "System.json",
        }
    }

    /// Whether this table's records carry indexed notes: actors, classes,
    /// skills, items, weapons, armors, enemies, states and tilesets.
    pub fn has_notes(self) -> (r: bool)
        ensures
            r == table_has_notes(self),
            r <==> (self == CoreTable::Actors || self == CoreTable::Classes || self
                == CoreTable::Skills || self == CoreTable::Items || self == CoreTable::Weapons
                || self == CoreTable::Armors || self == CoreTable::Enemies || self
                == CoreTable::States || self == CoreTable::Tilesets),
    {
        proof {
            law_note_tables(self);
        }
        match self {
            CoreTable::Actors | CoreTable::Classes | CoreTable::Skills | CoreTable::Items
            | CoreTable::Weapons | CoreTable::Armors | CoreTable::Enemies | CoreTable::States
            | CoreTable::Tilesets => true,
            _ => false,
        }
    }
}

/// Selects which core tables to load.
#[derive(Debug, Clone)]
pub enum TableSelection {
    /// Load every core table.
    All,
    /// Load only the listed tables (each listed once).
    Only(Vec<CoreTable>),
}

impl TableSelection {
    /// Whether `table` is selected.
    pub open spec fn selects(&self, table: CoreTable) -> bool {
        match self {
            TableSelection::All => true,
            TableSelection::Only(list) => list@.contains(table),
        }
    }
}

impl Default for TableSelection {
    fn default() -> (r: Self)
        ensures
            r is All,
    {
        TableSelection::All
    }
}

/// `s` with every trailing `/` removed.
pub open spec fn strip_trailing_slashes(s: Seq<char>) -> Seq<char>
    decreases s.len(),
{
    if s.len() > 0 && s.last() == '/' {
        strip_trailing_slashes(s.drop_last())
    } else {
        s
    }
}

/// The asset path of `file` under the directory `data_path`: joined with a
/// single `/`, ignoring trailing slashes on `data_path`; an empty (or
/// all-slash) `data_path` means the asset source root.
pub open spec fn data_file_path(data_path: Seq<char>, file: Seq<char>) -> Seq<char> {
    let base = strip_trailing_slashes(data_path);
    if base.len() == 0 {
        file
    } else {
        base + seq!['/'] + file
    }
}

proof fn lemma_strip_no_trailing_slash(s: Seq<char>)
    ensures
        strip_trailing_slashes(s).len() > 0 ==> strip_trailing_slashes(s).last() != '/',
        strip_trailing_slashes(s).len() <= s.len(),
        strip_trailing_slashes(s) == s.subrange(0, strip_trailing_slashes(s).len() as int),
    decreases s.len(),
{
    if s.len() > 0 && s.last() == '/' {
        lemma_strip_no_trailing_slash(s.drop_last());
        let r = strip_trailing_slashes(s.drop_last());
        assert(r == s.drop_last().subrange(0, r.len() as int));
        assert(s.drop_last().subrange(0, r.len() as int) =~= s.subrange(0, r.len() as int));
    } else {
        assert(s.subrange(0, s.len() as int) =~= s);
    }
}

/// A database path never doubles the separator at the join: it is the data
/// directory with its trailing slashes removed, one `/`, then the file; or the
/// file alone when the directory is empty (or only slashes).
pub proof fn law_path_joins_with_one_slash(data_path: Seq<char>, file: Seq<char>)
    ensures
        ({
            let base = strip_trailing_slashes(data_path);
            &&& base.len() == 0 ==> data_file_path(data_path, file) == file
            &&& base.len() > 0 ==> data_file_path(data_path, file) == base + seq!['/'] + file
                && base.last() != '/'
            &&& base == data_path.subrange(0, base.len() as int)
            &&& forall|i: int| base.len() <= i < data_path.len() ==> data_path[i] == '/'
        }),
{
    lemma_strip_no_trailing_slash(data_path);
    lemma_strip_rest_is_slashes(data_path);
}

proof fn lemma_strip_rest_is_slashes(s: Seq<char>)
    ensures
        forall|i: int| strip_trailing_slashes(s).len() <= i < s.len() ==> s[i] == '/',
    decreases s.len(),
{
    if s.len() > 0 && s.last() == '/' {
        lemma_strip_rest_is_slashes(s.drop_last());
        lemma_strip_no_trailing_slash(s.drop_last());
        assert forall|i: int| strip_trailing_slashes(s).len() <= i < s.len() implies s[i] == '/' by {
            if i < s.len() - 1 {
                assert(s.drop_last()[i] == s[i]);
            }
        }
    }
}

/// Describes what RPG Maker MZ data to load and from where.
///
/// Map loading is configured separately.
#[derive(Debug, Clone)]
pub struct RmmzConfig {
    /// Directory holding the `*.json` files, relative to the asset source root.
    /// Asset paths always use `/`, regardless of platform.
    pub data_path: String,
    /// Which core tables to load.
    pub tables: TableSelection,
}

impl Default for RmmzConfig {
    fn default() -> (r: Self)
        ensures
            r.data_path@ == seq!['d', 'a', 't', 'a'],
            r.tables is All,
    {
        let mut v: Vec<char> = Vec::new();
        v.push('d');
        v.push('a');
        v.push('t');
        v.push('a');
        RmmzConfig { data_path: string_of(&v), tables: TableSelection::All }
    }
}

impl RmmzConfig {
    /// Creates a config loading every core table from `data_path`.
    pub fn new(data_path: &str) -> (r: Self)
        ensures
            r.data_path@ == data_path@,
            r.tables is All,
    {
        RmmzConfig { data_path: data_path.to_owned(), tables: TableSelection::All }
    }

    /// Restricts loading to the given tables.
    pub fn with_tables(self, tables: Vec<CoreTable>) -> (r: Self)
        ensures
            r.data_path == self.data_path,
            r.tables is Only,
            forall|t: CoreTable| #[trigger] r.tables.selects(t) == tables@.contains(t),
            r.tables matches TableSelection::Only(list) && list@.no_duplicates(),
    {
        let mut list: Vec<CoreTable> = Vec::new();
        let mut i: usize = 0;
        while i < tables.len()
            invariant
                i <= tables@.len(),
                list@.no_duplicates(),
                forall|m: int|
                    0 <= m < list@.len() ==> exists|q: int| 0 <= q < i && tables@[q] == #[trigger] list@[m],
                forall|q: int| 0 <= q < i ==> list@.contains(#[trigger] tables@[q]),
            decreases tables@.len() - i,
        {
            let t = tables[i];
            let mut seen = false;
            let mut k: usize = 0;
            while k < list.len()
                invariant
                    k <= list@.len(),
                    seen ==> list@.contains(t),
                    !seen ==> forall|m: int| 0 <= m < k ==> list@[m] != t,
                decreases list@.len() - k,
            {
                if list[k] == t {
                    assert(list@[k as int] == t);
                    seen = true;
                }
                k = k + 1;
            }
            let ghost before = list@;
            if !seen {
                list.push(t);
                proof {
                    assert(list@[before.len() as int] == t);
                    assert forall|q: int| 0 <= q < i implies list@.contains(#[trigger] tables@[q]) by {
                        let m = choose|m: int| 0 <= m < before.len() && before[m] == tables@[q];
                        assert(list@[m] == tables@[q]);
                    }
                }
            }
            proof {
                assert forall|m: int| 0 <= m < list@.len() implies exists|q: int| 0 <= q < i + 1 && tables@[q] == #[trigger] list@[m] by {
                    if m < before.len() {
                        let q = choose|q: int| 0 <= q < i && tables@[q] == #[trigger] before[m];
                        assert(tables@[q] == list@[m]);
                    } else {
                        assert(tables@[i as int] == list@[m]);
                    }
                }
            }
            i = i + 1;
        }
        proof {
            assert forall|u: CoreTable| #[trigger] list@.contains(u) == tables@.contains(u) by {
                if list@.contains(u) {
                    let m = choose|m: int| 0 <= m < list@.len() && list@[m] == u;
                    let q = choose|q: int| 0 <= q < tables@.len() && tables@[q] == #[trigger] list@[m];
                    assert(tables@[q] == u);
                }
                if tables@.contains(u) {
                    let q = choose|q: int| 0 <= q < tables@.len() && tables@[q] == u;
                    assert(list@.contains(tables@[q]));
                }
            }
        }
        RmmzConfig { data_path: self.data_path, tables: TableSelection::Only(list) }
    }

    /// Whether `table` should be loaded under this configuration.
    pub fn loads(&self, table: CoreTable) -> (r: bool)
        ensures
            r == self.tables.selects(table),
    {
        match &self.tables {
            TableSelection::All => true,
            TableSelection::Only(list) => contains_table(list, table),
        }
    }

    /// The core tables this configuration loads, in registration order.
    pub fn builtin_tables(&self) -> (r: Vec<CoreTable>)
        ensures
            forall|t: CoreTable| #[trigger] r@.contains(t) == self.tables.selects(t),
            forall|i: int, j: int|
                0 <= i < j < r@.len() ==> table_rank(#[trigger] r@[i]) < table_rank(#[trigger] r@[j]),
    {
        let all = CoreTable::all();
        let mut out: Vec<CoreTable> = Vec::new();
        let mut i: usize = 0;
        while i < all.len()
            invariant
                i <= all@.len(),
                all@ == all_tables(),
                forall|t: CoreTable| #[trigger]
                    out@.contains(t) == (self.tables.selects(t) && table_rank(t) < i),
                forall|a: int, b: int|
                    0 <= a < b < out@.len() ==> table_rank(#[trigger] out@[a]) < table_rank(
                        #[trigger] out@[b],
                    ),
                forall|a: int| 0 <= a < out@.len() ==> table_rank(#[trigger] out@[a]) < i,
            decreases all@.len() - i,
        {
            let t = all[i];
            assert(table_rank(t) == i);
            let ghost before = out@;
            if self.loads(t) {
                out.push(t);
                proof {
                    assert forall|u: CoreTable| #[trigger]
                        out@.contains(u) == (self.tables.selects(u) && table_rank(u) < i + 1) by {
                        if out@.contains(u) && u != t {
                            let k = choose|k: int| 0 <= k < out@.len() && out@[k] == u;
                            assert(k < before.len());
                            assert(before.contains(u));
                        }
                        if self.tables.selects(u) && table_rank(u) < i + 1 && u != t {
                            assert(table_rank(u) != table_rank(t));
                            assert(before.contains(u));
                            let k = choose|k: int| 0 <= k < before.len() && before[k] == u;
                            assert(out@[k] == u);
                        }
                        if u == t {
                            assert(out@[before.len() as int] == t);
                        }
                    }
                }
            } else {
                proof {
                    assert forall|u: CoreTable| #[trigger]
                        out@.contains(u) == (self.tables.selects(u) && table_rank(u) < i + 1) by {
                        if table_rank(u) == i {
                            assert(u == t);
                        }
                    }
                }
            }
            i = i + 1;
        }
        proof {
            assert forall|t: CoreTable| #[trigger] out@.contains(t) == self.tables.selects(t) by {
                assert(table_rank(t) < 14);
            }
        }
        out
    }

    /// Builds the asset path for a database `file` under [`Self::data_path`].
    ///
    /// Tolerates trailing slashes on `data_path`, and treats an empty
    /// `data_path` as "load from the asset source root".
    pub fn path(&self, file: &str) -> (r: String)
        ensures
            r@ == data_file_path(self.data_path@, file@),
    {
        let d = chars_of(self.data_path.as_str());
        let f = chars_of(file);
        let mut n = d.len();
        assert(d@.subrange(0, d@.len() as int) =~= d@);
        while n > 0 && d[n - 1] == '/'
            invariant
                n <= d@.len(),
                strip_trailing_slashes(d@) == strip_trailing_slashes(d@.subrange(0, n as int)),
            decreases n,
        {
            assert(d@.subrange(0, n as int).drop_last() =~= d@.subrange(0, n - 1));
            n = n - 1;
        }
        assert(d@.subrange(0, d@.len() as int) =~= d@);
        let mut out: Vec<char> = Vec::new();
        if n > 0 {
            let mut k: usize = 0;
            while k < n
                invariant
                    k <= n <= d@.len(),
                    out@ == d@.subrange(0, k as int),
                decreases n - k,
            {
                out.push(d[k]);
                k = k + 1;
            }
            out.push('/');
        }
        let ghost prefix = out@;
        let mut k: usize = 0;
        while k < f.len()
            invariant
                k <= f@.len(),
                out@ == prefix + f@.subrange(0, k as int),
            decreases f@.len() - k,
        {
            out.push(f[k]);
            k = k + 1;
        }
        assert(f@.subrange(0, f@.len() as int) =~= f@);
        assert(out@ =~= data_file_path(self.data_path@, file@));
        string_of(&out)
    }
}

/// Whether `list` holds `table`.
fn contains_table(list: &Vec<CoreTable>, table: CoreTable) -> (r: bool)
    ensures
        r == list@.contains(table),
{
    let mut k: usize = 0;
    while k < list.len()
        invariant
            k <= list@.len(),
            forall|m: int| 0 <= m < k ==> list@[m] != table,
        decreases list@.len() - k,
    {
        if list[k] == table {
            assert(list@[k as int] == table);
            return true;
        }
        k = k + 1;
    }
    false
}

/// The value behind an optional reference.
pub open spec fn opt_deref<H>(o: Option<&H>) -> Option<H> {
    match o {
        Some(h) => Some(*h),
        None => None,
    }
}

/// `handle` was produced by `load_with` from `load` and an asset path whose
/// text is `path`.
pub open spec fn loaded_via<L, H, F: Fn(&L, &str) -> H>(
    load_with: &F,
    load: L,
    path: Seq<char>,
    handle: Option<H>,
) -> bool {
    &&& handle is Some
    &&& exists|p: &str| p@ == path && #[trigger] load_with.ensures((&load, p), handle->0)
}

/// One registered asset type: where it loads from, how, and (once loaded) its
/// handle.
pub struct RegistryEntry<L, H> {
    /// Filename relative to [`RmmzConfig::data_path`], e.g. `"Items.json"`.
    pub file: String,
    /// How to load the file as the concrete asset type.
    pub load: L,
    /// The handle, set once [`RmmzRegistry::load_all`] has run.
    pub handle: Option<H>,
}

/// A `TypeId`-keyed registry of every asset type to load — built-in and custom
/// alike. Registration is idempotent per type; holding the handles keeps the
/// assets loaded.
pub struct RmmzRegistry<L, H> {
    entries: KeyMap<TypeId, RegistryEntry<L, H>>,
}

impl<L, H> View for RmmzRegistry<L, H> {
    type V = Map<TypeId, RegistryEntry<L, H>>;

    closed spec fn view(&self) -> Map<TypeId, RegistryEntry<L, H>> {
        self.entries@
    }
}

impl<L, H> RmmzRegistry<L, H> {
    /// The registered types in registration order.
    pub closed spec fn order(&self) -> Seq<TypeId> {
        self.entries.entries_view().map_values(|e: (TypeId, RegistryEntry<L, H>)| e.0)
    }

    /// An empty registry.
    pub fn new() -> (r: Self)
        ensures
            r@ == Map::<TypeId, RegistryEntry<L, H>>::empty(),
    {
        RmmzRegistry { entries: KeyMap::new() }
    }

    /// Registers asset type `ty` to load from `file` (relative to the data
    /// path) with `load`. A type that is already registered keeps its entry.
    pub fn register(&mut self, ty: TypeId, file: String, load: L)
        ensures
            old(self)@.contains_key(ty) ==> final(self)@ == old(self)@,
            !old(self)@.contains_key(ty) ==> final(self)@ == old(self)@.insert(
                ty,
                RegistryEntry { file, load, handle: None },
            ),
    {
        if !self.entries.contains_key(&ty) {
            self.entries.insert(ty, RegistryEntry { file, load, handle: None });
        }
    }

    /// The handle for `ty`, if it is registered and has been loaded.
    pub fn handle(&self, ty: &TypeId) -> (r: Option<&H>)
        ensures
            r matches Some(h) ==> self@.contains_key(*ty) && self@[*ty].handle == Some(*h),
            r is None ==> !self@.contains_key(*ty) || self@[*ty].handle is None,
    {
        match self.entries.get(ty) {
            Some(e) => match &e.handle {
                Some(h) => Some(h),
                None => None,
            },
            None => None,
        }
    }

    /// The current handle of each registered entry (`None` until loaded), in
    /// registration order.
    pub fn handles(&self) -> (r: Vec<Option<&H>>)
        ensures
            r@.len() == self.order().len(),
            forall|i: int|
                0 <= i < r@.len() ==> self@.contains_key(self.order()[i]) && opt_deref(
                    #[trigger] r@[i],
                ) == self@[self.order()[i]].handle,
    {
        let entries = self.entries.entries();
        let mut out: Vec<Option<&H>> = Vec::new();
        let mut i: usize = 0;
        while i < entries.len()
            invariant
                i <= entries@.len(),
                out@.len() == i,
                self@ == crate::keymap::seq_map(entries@),
                crate::keymap::keys_distinct(entries@),
                entries@ == self.entries.entries_view(),
                forall|k: int| 0 <= k < i ==> opt_deref(#[trigger] out@[k]) == entries@[k].1.handle,
            decreases entries@.len() - i,
        {
            match &entries[i].1.handle {
                Some(h) => out.push(Some(h)),
                None => out.push(None),
            }
            i = i + 1;
        }
        proof {
            assert forall|k: int| 0 <= k < out@.len() implies self@.contains_key(self.order()[k])
                && opt_deref(#[trigger] out@[k]) == self@[self.order()[k]].handle by {
                crate::keymap::lemma_seq_map_at(entries@, k);
            }
        }
        out
    }

    /// Loads every registered-but-unloaded type (through `load_with`, given the
    /// entry's loader and its asset path under `config`), recording its handle.
    /// Types that already have a handle are left alone.
    pub fn load_all<F: Fn(&L, &str) -> H>(&mut self, config: &RmmzConfig, load_with: &F)
        requires
            forall|l: &L, p: &str| load_with.requires((l, p)),
        ensures
            final(self)@.dom() == old(self)@.dom(),
            forall|ty: TypeId| #[trigger]
                old(self)@.contains_key(ty) ==> final(self)@[ty].file == old(self)@[ty].file
                    && final(self)@[ty].load == old(self)@[ty].load,
            forall|ty: TypeId| #[trigger]
                old(self)@.contains_key(ty) && old(self)@[ty].handle is Some ==> final(self)@[ty]
                    == old(self)@[ty],
            forall|ty: TypeId| #[trigger]
                old(self)@.contains_key(ty) && old(self)@[ty].handle is None ==> loaded_via(
                    load_with,
                    old(self)@[ty].load,
                    data_file_path(config.data_path@, old(self)@[ty].file@),
                    final(self)@[ty].handle,
                ),
    {
        let ghost old_map = self@;
        let mut pending: Vec<TypeId> = Vec::new();
        let entries = self.entries.entries();
        let mut i: usize = 0;
        while i < entries.len()
            invariant
                i <= entries@.len(),
                self@ == old_map,
                self@ == crate::keymap::seq_map(entries@),
                crate::keymap::keys_distinct(entries@),
                forall|k: int| 0 <= k < pending@.len() ==> (#[trigger] old_map.contains_key(pending@[k]))
                    && old_map[pending@[k]].handle is None,
                pending@.no_duplicates(),
                forall|k: int| 0 <= k < pending@.len() ==> exists|j: int| 0 <= j < i && entries@[j].0 == #[trigger] pending@[k],
                forall|j: int| 0 <= j < i && (#[trigger] entries@[j]).1.handle is None ==> pending@.contains(entries@[j].0),
            decreases entries@.len() - i,
        {
            if entries[i].1.handle.is_none() {
                proof {
                    crate::keymap::lemma_seq_map_at(entries@, i as int);
                    assert forall|k: int| 0 <= k < pending@.len() implies pending@[k] != entries@[i as int].0 by {
                        let j = choose|j: int| 0 <= j < i && entries@[j].0 == #[trigger] pending@[k];
                        assert(entries@[j].0 != entries@[i as int].0);
                    }
                }
                let ghost before = pending@;
                pending.push(entries[i].0);
                proof {
                    assert forall|k: int| 0 <= k < pending@.len() implies exists|j: int| 0 <= j < i + 1 && entries@[j].0 == #[trigger] pending@[k] by {
                        if k < before.len() {
                            let j = choose|j: int| 0 <= j < i && entries@[j].0 == #[trigger] before[k];
                            assert(entries@[j].0 == pending@[k]);
                        } else {
                            assert(entries@[i as int].0 == pending@[k]);
                        }
                    }
                    assert forall|j: int| 0 <= j < i + 1 && (#[trigger] entries@[j]).1.handle is None implies pending@.contains(entries@[j].0) by {
                        if j < i {
                            let k = choose|k: int| 0 <= k < before.len() && before[k] == entries@[j].0;
                            assert(pending@[k] == entries@[j].0);
                        } else {
                            assert(pending@[before.len() as int] == entries@[j].0);
                        }
                    }
                }
            }
            i = i + 1;
        }
        proof {
            assert forall|ty: TypeId| #[trigger] old_map.contains_key(ty) && old_map[ty].handle is None implies pending@.contains(ty) by {
                crate::keymap::lemma_seq_map_has(entries@, ty);
                let j = choose|j: int| 0 <= j < entries@.len() && entries@[j].0 == ty && old_map[ty] == entries@[j].1;
                assert(entries@[j].1.handle is None);
            }
        }
        let mut k: usize = 0;
        while k < pending.len()
            invariant
                k <= pending@.len(),
                pending@.no_duplicates(),
                forall|m: int| 0 <= m < pending@.len() ==> (#[trigger] old_map.contains_key(pending@[m]))
                    && old_map[pending@[m]].handle is None,
                forall|l: &L, p: &str| load_with.requires((l, p)),
                self@.dom() == old_map.dom(),
                forall|ty: TypeId| #[trigger] old_map.contains_key(ty) ==> self@[ty].file == old_map[ty].file
                    && self@[ty].load == old_map[ty].load,
                forall|ty: TypeId| #[trigger] old_map.contains_key(ty) && !pending@.subrange(0, k as int).contains(ty)
                    ==> self@[ty] == old_map[ty],
                forall|m: int| 0 <= m < k ==> loaded_via(
                    load_with,
                    old_map[#[trigger] pending@[m]].load,
                    data_file_path(config.data_path@, old_map[pending@[m]].file@),
                    self@[pending@[m]].handle,
                ),
            decreases pending@.len() - k,
        {
            let ty = pending[k];
            let ghost before = self@;
            match self.entries.remove(&ty) {
                Some(entry) => {
                    let path = config.path(entry.file.as_str());
                    let path_str = path.as_str();
                    let h = load_with(&entry.load, path_str);
                    let RegistryEntry { file, load, handle: _ } = entry;
                    self.entries.insert(ty, RegistryEntry { file, load, handle: Some(h) });
                    proof {
                        assert(self@ == before.insert(ty, self@[ty]));
                        assert(self@.dom() =~= old_map.dom());
                        assert forall|ty2: TypeId| #[trigger] old_map.contains_key(ty2) && !pending@.subrange(0, k + 1).contains(ty2)
                            implies self@[ty2] == old_map[ty2] by {
                            assert(pending@.subrange(0, k + 1) =~= pending@.subrange(0, k as int).push(ty));
                            assert(pending@.subrange(0, k + 1)[k as int] == ty);
                            assert(ty2 != ty);
                        }
                        assert forall|m: int| 0 <= m < k + 1 implies loaded_via(
                            load_with,
                            old_map[#[trigger] pending@[m]].load,
                            data_file_path(config.data_path@, old_map[pending@[m]].file@),
                            self@[pending@[m]].handle,
                        ) by {
                            if m < k {
                                assert(pending@[m] != ty);
                                assert(self@[pending@[m]] == before[pending@[m]]);
                            } else {
                                assert(!pending@.subrange(0, k as int).contains(ty)) by {
                                    if pending@.subrange(0, k as int).contains(ty) {
                                        let q = choose|q: int| 0 <= q < k && pending@.subrange(0, k as int)[q] == ty;
                                        assert(pending@[q] == pending@[k as int]);
                                    }
                                }
                                assert(before[ty] == old_map[ty]);
                                assert(path_str@ == data_file_path(config.data_path@, old_map[ty].file@));
                                assert(load_with.ensures((&old_map[ty].load, path_str), h));
                                assert(self@[ty].handle == Some(h));
                                assert(pending@[m] == ty);
                                assert(path_str@ == data_file_path(config.data_path@, old_map[ty].file@)
                                    && load_with.ensures((&old_map[ty].load, path_str), self@[ty].handle->0));
                                assert(loaded_via(
                                    load_with,
                                    old_map[ty].load,
                                    data_file_path(config.data_path@, old_map[ty].file@),
                                    self@[ty].handle,
                                ));
                            }
                        }
                    }
                },
                None => {
                    assert(false);
                },
            }
            k = k + 1;
        }
        proof {
            assert(pending@.subrange(0, pending@.len() as int) =~= pending@);
            assert(self@.dom() =~= old_map.dom());
            assert forall|ty: TypeId| #[trigger] old_map.contains_key(ty) && old_map[ty].handle is None implies loaded_via(
                load_with,
                old_map[ty].load,
                data_file_path(config.data_path@, old_map[ty].file@),
                self@[ty].handle,
            ) by {
                let m = choose|m: int| 0 <= m < pending@.len() && pending@[m] == ty;
                assert(pending@[m] == ty);
            }
        }
    }
}

} // verus!
