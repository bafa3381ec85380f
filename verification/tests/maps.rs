use std::any::{Any, TypeId};

use bevy_rmmz_assets::asset::{MapAsset, RmmzAsset, Table};
use bevy_rmmz_assets::config::RmmzConfig;
use bevy_rmmz_assets::data::{GameMap, MapEvent, MapInfo};
use bevy_rmmz_assets::maps::{map_file_name, map_ids, MapLoad, RmmzMapNotes, RmmzMaps};
use bevy_rmmz_assets::notes::registry::NoteRegistry;
use bevy_rmmz_assets::notes::tokens::NoteTokens;

#[test]
fn map_file_names_are_zero_padded_to_three_digits() {
    assert_eq!(map_file_name(1), "Map001.json");
    assert_eq!(map_file_name(12), "Map012.json");
    assert_eq!(map_file_name(123), "Map123.json");
    assert_eq!(map_file_name(1234), "Map1234.json");
    assert_eq!(map_file_name(0), "Map000.json");
    assert_eq!(map_file_name(-5), "Map-05.json");
    assert_eq!(map_file_name(-123), "Map-123.json");
    assert_eq!(map_file_name(i32::MIN), format!("Map{:03}.json", i32::MIN));
    for id in [7, 99, 100, 4567, -1, -99] {
        assert_eq!(map_file_name(id), format!("Map{id:03}.json"));
    }
}

#[test]
fn map_load_defaults_to_disabled() {
    assert_eq!(MapLoad::default(), MapLoad::Disabled);
    let maps: RmmzMaps<String> = RmmzMaps::default();
    assert_eq!(maps.strategy(), MapLoad::Disabled);
}

#[test]
fn request_is_idempotent_and_tracked() {
    let mut maps: RmmzMaps<String> = RmmzMaps::new(MapLoad::OnDemand);
    assert!(!maps.is_requested(3));
    maps.request(3);
    maps.request(3);
    // Requested, but no handle recorded yet.
    assert!(!maps.is_requested(3));
    assert!(maps.handle(3).is_none());
    let counter = std::cell::Cell::new(0);
    maps.load_requested(&RmmzConfig::default(), &|p: &str| {
        counter.set(counter.get() + 1);
        p.to_owned()
    });
    assert_eq!(counter.get(), 1);
    assert!(maps.is_requested(3));
    assert_eq!(maps.handle(3).map(String::as_str), Some("data/Map003.json"));
}

#[test]
fn on_demand_loads_requested_maps_once() {
    let mut maps: RmmzMaps<String> = RmmzMaps::new(MapLoad::OnDemand);
    maps.request(1);
    maps.request(12);
    let config = RmmzConfig::default();
    maps.load_requested(&config, &|p: &str| p.to_owned());
    assert_eq!(maps.handle(1).map(String::as_str), Some("data/Map001.json"));
    assert_eq!(maps.handle(12).map(String::as_str), Some("data/Map012.json"));
    // Already-loaded maps keep their handles.
    maps.load_requested(&config, &|_p: &str| "reloaded".to_owned());
    assert_eq!(maps.handle(1).map(String::as_str), Some("data/Map001.json"));
}

#[test]
fn disabled_strategy_never_loads() {
    let mut maps: RmmzMaps<String> = RmmzMaps::new(MapLoad::Disabled);
    // With loading off, a request does nothing at all.
    maps.request(1);
    maps.load_requested(&RmmzConfig::default(), &|p: &str| p.to_owned());
    assert!(maps.handle(1).is_none());
    assert!(!maps.is_requested(1));
    maps.set_strategy(MapLoad::OnDemand);
    maps.load_requested(&RmmzConfig::default(), &|p: &str| p.to_owned());
    assert!(maps.handle(1).is_none());
    maps.request(1);
    maps.load_requested(&RmmzConfig::default(), &|p: &str| p.to_owned());
    assert!(maps.handle(1).is_some());
}

fn infos(ids: &[i32]) -> Table<MapInfo> {
    let mut rows = vec![None];
    for &id in ids {
        rows.push(Some(MapInfo { id, ..Default::default() }));
    }
    Table::from_raw(rows)
}

#[test]
fn eager_requests_every_listed_map_once_available() {
    let mut maps: RmmzMaps<String> = RmmzMaps::new(MapLoad::Eager);
    // Not loaded yet: nothing happens and the step is not done.
    assert!(!maps.eager_request(false, None));
    let table = infos(&[1, 2]);
    let done = maps.eager_request(false, Some(&table));
    assert!(done);
    maps.load_requested(&RmmzConfig::default(), &|p: &str| p.to_owned());
    assert!(maps.is_requested(1) && maps.is_requested(2));
    // Once done it does not run again.
    let more = infos(&[3]);
    assert!(maps.eager_request(true, Some(&more)));
    maps.load_requested(&RmmzConfig::default(), &|p: &str| p.to_owned());
    assert!(!maps.is_requested(3));
}

#[test]
fn eager_step_is_inert_under_other_strategies() {
    let mut maps: RmmzMaps<String> = RmmzMaps::new(MapLoad::OnDemand);
    let table = infos(&[1]);
    assert!(!maps.eager_request(false, Some(&table)));
    assert!(!maps.is_requested(1));
}

#[test]
fn map_ids_lists_infos_in_order() {
    assert!(map_ids(None).is_empty());
    let table = infos(&[1, 3, 2]);
    assert_eq!(map_ids(Some(&table)), vec![1, 3, 2]);
}

#[test]
fn map_of_finds_the_owner_of_a_handle() {
    let mut maps: RmmzMaps<String> = RmmzMaps::new(MapLoad::OnDemand);
    maps.request(1);
    maps.request(2);
    maps.load_requested(&RmmzConfig::new(""), &|p: &str| p.to_owned());
    assert_eq!(maps.map_of(&|h: &String| h == "Map002.json"), Some(2));
    assert_eq!(maps.map_of(&|h: &String| h == "Map009.json"), None);
}

type Meta = Box<dyn Any>;

#[derive(Debug, PartialEq)]
struct Biome(String);
#[derive(Debug, PartialEq)]
struct Chest(String);

#[derive(Clone, Copy)]
enum P {
    Biome,
    Chest,
}

fn run(p: &P, t: &NoteTokens) -> Option<Meta> {
    match p {
        P::Biome => t.value("biome").map(|v| Box::new(Biome(v.to_owned())) as Meta),
        P::Chest => t.value("chest").map(|v| Box::new(Chest(v.to_owned())) as Meta),
    }
}

fn town() -> GameMap {
    GameMap {
        display_name: "Town".to_owned(),
        note: "<biome:forest>".to_owned(),
        events: vec![
            None,
            Some(MapEvent { id: 1, name: "Chest".to_owned(), note: "<chest:gold>".to_owned(), ..Default::default() }),
            Some(MapEvent { id: 2, name: "Sign".to_owned(), note: "just a sign".to_owned(), ..Default::default() }),
        ],
        ..Default::default()
    }
}

#[test]
fn eager_loads_maps_and_parses_map_and_event_notes() {
    let mut reg: NoteRegistry<P> = NoteRegistry::new();
    reg.register(TypeId::of::<Biome>(), "biome".to_owned(), P::Biome);
    reg.register(TypeId::of::<Chest>(), "chest".to_owned(), P::Chest);

    let mut maps: RmmzMaps<String> = RmmzMaps::new(MapLoad::Eager);
    let table = infos(&[1]);
    maps.eager_request(false, Some(&table));
    maps.load_requested(&RmmzConfig::default(), &|p: &str| p.to_owned());
    assert_eq!(map_ids(Some(&table)), vec![1], "MapInfos should list map 1");
    assert_eq!(maps.handle(1).map(String::as_str), Some("data/Map001.json"));

    let asset = MapAsset::from_raw(town());
    assert_eq!(asset.map().display_name, "Town", "map 1 should load");
    let mut notes: RmmzMapNotes<Meta> = RmmzMapNotes::new();
    let map_id = maps.map_of(&|h: &String| h == "data/Map001.json").unwrap();
    notes.recache_map(map_id, Some(asset.map()), &reg, &run);

    let biome = notes
        .map_note(1, &TypeId::of::<Biome>())
        .and_then(|b| b.downcast_ref::<Biome>());
    assert_eq!(biome, Some(&Biome("forest".to_owned())), "map note parsed");
    let chest = notes
        .map_event_note(1, 1, &TypeId::of::<Chest>())
        .and_then(|b| b.downcast_ref::<Chest>());
    assert_eq!(chest, Some(&Chest("gold".to_owned())), "event note parsed");
    assert!(notes.event(1, 2).is_none());

    // Removing the map drops its cached notes.
    notes.recache_map(1, None, &reg, &run);
    assert!(notes.map(1).is_none());
    assert!(notes.event(1, 1).is_none());
}
