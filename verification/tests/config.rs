use std::any::TypeId;

use bevy_rmmz_assets::asset::{ActorsAsset, ItemsAsset, SystemAsset};
use bevy_rmmz_assets::config::{CoreTable, RegistryEntry, RmmzConfig, RmmzRegistry, TableSelection};

#[test]
fn path_joins_without_double_slashes() {
    assert_eq!(
        RmmzConfig::new("data").path("Actors.json"),
        "data/Actors.json"
    );
    assert_eq!(
        RmmzConfig::new("data/").path("Actors.json"),
        "data/Actors.json"
    );
    assert_eq!(
        RmmzConfig::new("nested/dir/").path("System.json"),
        "nested/dir/System.json"
    );
}

#[test]
fn empty_data_path_loads_from_root() {
    assert_eq!(RmmzConfig::new("").path("Items.json"), "Items.json");
}

#[test]
fn selection_controls_which_tables_load() {
    let all = RmmzConfig::default();
    assert!(all.loads(CoreTable::Actors));
    assert!(all.loads(CoreTable::System));

    let only = RmmzConfig::default().with_tables(vec![CoreTable::Items, CoreTable::System]);
    assert!(only.loads(CoreTable::Items));
    assert!(only.loads(CoreTable::System));
    assert!(!only.loads(CoreTable::Actors));
}

#[test]
fn default_config_reads_from_data_and_loads_everything() {
    let c = RmmzConfig::default();
    assert_eq!(c.data_path, "data");
    assert!(matches!(c.tables, TableSelection::All));
    for t in CoreTable::all() {
        assert!(c.loads(t));
    }
}

#[test]
fn many_trailing_slashes_collapse_and_slash_only_path_is_root() {
    assert_eq!(RmmzConfig::new("data///").path("Items.json"), "data/Items.json");
    assert_eq!(RmmzConfig::new("///").path("Items.json"), "Items.json");
}

#[test]
fn with_tables_drops_repeats() {
    let c = RmmzConfig::new("x").with_tables(vec![CoreTable::Items, CoreTable::Items, CoreTable::System]);
    match &c.tables {
        TableSelection::Only(list) => assert_eq!(list, &vec![CoreTable::Items, CoreTable::System]),
        TableSelection::All => panic!("expected an explicit selection"),
    }
    assert_eq!(c.data_path, "x");
}

#[test]
fn builtin_tables_follow_registration_order() {
    let all = RmmzConfig::default().builtin_tables();
    assert_eq!(all, CoreTable::all());
    assert_eq!(all.len(), 14);
    let some = RmmzConfig::default()
        .with_tables(vec![CoreTable::System, CoreTable::Items, CoreTable::Actors])
        .builtin_tables();
    assert_eq!(some, vec![CoreTable::Actors, CoreTable::Items, CoreTable::System]);
    let none = RmmzConfig::default().with_tables(vec![]).builtin_tables();
    assert!(none.is_empty());
}

#[test]
fn core_tables_know_their_files_and_notes() {
    assert_eq!(CoreTable::Actors.file_name(), "Actors.json");
    assert_eq!(CoreTable::CommonEvents.file_name(), "CommonEvents.json");
    assert_eq!(CoreTable::MapInfos.file_name(), "MapInfos.json");
    assert_eq!(CoreTable::System.file_name(), "System.json");
    assert!(CoreTable::Items.has_notes());
    assert!(CoreTable::Tilesets.has_notes());
    assert!(!CoreTable::Troops.has_notes());
    assert!(!CoreTable::System.has_notes());
}

/// Registers the selected built-in tables the way the plugin does and loads
/// them, recording the path each load was given.
fn load_selected(config: &RmmzConfig) -> RmmzRegistry<CoreTable, String> {
    let mut registry: RmmzRegistry<CoreTable, String> = RmmzRegistry::new();
    for t in config.builtin_tables() {
        let ty = match t {
            CoreTable::Items => TypeId::of::<ItemsAsset>(),
            CoreTable::Actors => TypeId::of::<ActorsAsset>(),
            CoreTable::System => TypeId::of::<SystemAsset>(),
            _ => continue,
        };
        registry.register(ty, t.file_name().to_owned(), t);
    }
    registry.load_all(config, &|_t: &CoreTable, path: &str| path.to_owned());
    registry
}

#[test]
fn table_selection_only_loads_requested() {
    let config = RmmzConfig::default().with_tables(vec![CoreTable::Items]);
    let registry = load_selected(&config);
    assert!(registry.handle(&TypeId::of::<ItemsAsset>()).is_some());
    assert!(registry.handle(&TypeId::of::<ActorsAsset>()).is_none());
    assert!(registry.handle(&TypeId::of::<SystemAsset>()).is_none());
}

#[test]
fn add_rmmz_with_loads_configured_tables() {
    let config = RmmzConfig::new("game");
    let registry = load_selected(&config);
    assert_eq!(
        registry.handle(&TypeId::of::<ItemsAsset>()).map(String::as_str),
        Some("game/Items.json")
    );
    assert_eq!(
        registry.handle(&TypeId::of::<SystemAsset>()).map(String::as_str),
        Some("game/System.json")
    );
}

#[test]
fn registering_twice_keeps_the_first_entry_and_loading_is_once() {
    let mut registry: RmmzRegistry<u8, String> = RmmzRegistry::new();
    let ty = TypeId::of::<ItemsAsset>();
    registry.register(ty, "Items.json".to_owned(), 1);
    registry.register(ty, "Other.json".to_owned(), 2);
    assert!(registry.handle(&ty).is_none());
    assert_eq!(registry.handles().len(), 1);
    let config = RmmzConfig::new("data");
    registry.load_all(&config, &|l: &u8, p: &str| format!("{l}:{p}"));
    assert_eq!(registry.handle(&ty).map(String::as_str), Some("1:data/Items.json"));
    // A second load leaves the recorded handle alone.
    registry.load_all(&config, &|_l: &u8, _p: &str| "again".to_owned());
    assert_eq!(registry.handle(&ty).map(String::as_str), Some("1:data/Items.json"));
    let handles = registry.handles();
    assert_eq!(handles, vec![Some(&"1:data/Items.json".to_owned())]);
}

#[test]
fn registry_entry_fields_are_plain_values() {
    let e: RegistryEntry<u8, String> = RegistryEntry { file: "A.json".to_owned(), load: 3, handle: None };
    assert_eq!(e.file, "A.json");
    assert_eq!(e.load, 3);
    assert!(e.handle.is_none());
}
