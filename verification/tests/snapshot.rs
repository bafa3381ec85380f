use std::any::TypeId;

use bevy_rmmz_assets::snapshot::{AssetChange, RmmzAssets};

#[test]
fn snapshot_mirrors_loads_and_drops_on_removal() {
    let mut snap: RmmzAssets<String> = RmmzAssets::new();
    let ty = TypeId::of::<u64>();
    assert!(snap.get(&ty).is_none());
    snap.apply(ty, AssetChange::Added, Some("v1".to_owned()));
    assert_eq!(snap.get(&ty).map(String::as_str), Some("v1"));
    snap.apply(ty, AssetChange::Modified, Some("v2".to_owned()));
    assert_eq!(snap.get(&ty).map(String::as_str), Some("v2"));
    // A load event for an asset that is already gone changes nothing.
    snap.apply(ty, AssetChange::LoadedWithDependencies, None);
    assert_eq!(snap.get(&ty).map(String::as_str), Some("v2"));
    snap.apply(ty, AssetChange::Unused, None);
    assert!(snap.get(&ty).is_none());
    snap.apply(ty, AssetChange::Added, Some("v3".to_owned()));
    snap.apply(ty, AssetChange::Removed, Some("ignored".to_owned()));
    assert!(snap.get(&ty).is_none());
}

#[test]
fn snapshot_keeps_types_apart() {
    let mut snap: RmmzAssets<u32> = RmmzAssets::default();
    snap.apply(TypeId::of::<u8>(), AssetChange::Added, Some(1));
    snap.apply(TypeId::of::<u16>(), AssetChange::Added, Some(2));
    snap.apply(TypeId::of::<u8>(), AssetChange::Removed, None);
    assert!(snap.get(&TypeId::of::<u8>()).is_none());
    assert_eq!(snap.get(&TypeId::of::<u16>()), Some(&2));
}

#[test]
fn removal_changes_are_recognized() {
    assert!(AssetChange::Removed.removes());
    assert!(AssetChange::Unused.removes());
    assert!(!AssetChange::Added.removes());
    assert!(!AssetChange::Modified.removes());
    assert!(!AssetChange::LoadedWithDependencies.removes());
}
