//! Type-keyed snapshot of loaded custom assets.
//!
//! Custom assets are mirrored into [`RmmzAssets`] when they load and read back
//! by type. Built-in types are not snapshotted.
use std::any::TypeId;
use vstd::prelude::*;

use crate::keymap::KeyMap;

verus! {

/// What happened to an asset, as reported by the asset system.
#[derive(Debug, Clone, Copy, PartialEq, Eq, Structural)]
pub enum AssetChange {
    /// The asset was added.
    Added,
    /// The asset was modified (for example hot-reloaded).
    Modified,
    /// The asset and all its dependencies finished loading.
    LoadedWithDependencies,
    /// The asset was removed.
    Removed,
    /// The asset is no longer referenced.
    Unused,
}

impl AssetChange {
    /// Whether this change takes the asset away (`Removed` or `Unused`).
    pub open spec fn removes_spec(self) -> bool {
        self is Removed || self is Unused
    }

    /// Whether this change takes the asset away (`Removed` or `Unused`).
    pub fn removes(self) -> (r: bool)
        ensures
            r == self.removes_spec(),
    {
        match self {
            AssetChange::Removed | AssetChange::Unused => true,
            _ => false,
        }
    }
}

/// Type-keyed snapshot of loaded custom assets: at most one instance per type.
pub struct RmmzAssets<V> {
    by_type: KeyMap<TypeId, V>,
}

impl<V> View for RmmzAssets<V> {
    type V = Map<TypeId, V>;

    closed spec fn view(&self) -> Map<TypeId, V> {
        self.by_type@
    }
}

impl<V> RmmzAssets<V> {
    /// An empty snapshot.
    pub fn new() -> (r: Self)
        ensures
            r@ == Map::<TypeId, V>::empty(),
    {
        RmmzAssets { by_type: KeyMap::new() }
    }

    /// The snapshotted instance of type `ty`, if it has been loaded.
    pub fn get(&self, ty: &TypeId) -> (r: Option<&V>)
        ensures
            r matches Some(v) ==> self@.contains_key(*ty) && self@[*ty] == *v,
            r is None ==> !self@.contains_key(*ty),
    {
        self.by_type.get(ty)
    }

    /// Mirrors one change of the asset of type `ty`: on load or reload the
    /// current asset (when it is still there) replaces the snapshot; on removal
    /// the snapshot is dropped.
    pub fn apply(&mut self, ty: TypeId, change: AssetChange, current: Option<V>)
        ensures
            change.removes_spec() ==> final(self)@ == old(self)@.remove(ty),
            !change.removes_spec() && current is Some ==> final(self)@ == old(self)@.insert(
                ty,
                current->0,
            ),
            !change.removes_spec() && current is None ==> final(self)@ == old(self)@,
    {
        if change.removes() {
            self.by_type.remove(&ty);
        } else {
            match current {
                Some(asset) => self.by_type.insert(ty, asset),
                None => {},
            }
        }
    }
}

impl<V> Default for RmmzAssets<V> {
    fn default() -> (r: Self)
        ensures
            r@ == Map::<TypeId, V>::empty(),
    {
        RmmzAssets::new()
    }
}

} // verus!
