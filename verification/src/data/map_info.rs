//! `MapInfos.json` — the map tree shown in the editor.
use vstd::prelude::*;

verus! {

/// A single entry in `MapInfos.json`.
///
/// The file is a null-padded array (index 0 is `null`); padding is handled by
/// the asset layer.
#[derive(Debug, Clone, PartialEq, Default)]
pub struct MapInfo {
    /// Map id this entry describes (matches the `Map###.json` number).
    pub id: i32,
    /// Whether the node is expanded in the editor's map tree.
    pub expanded: bool,
    /// Display name in the map tree.
    pub name: String,
    /// Sort order among siblings.
    pub order: i32,
    /// Parent map id (0 = top level).
    pub parent_id: i32,
    /// Saved editor horizontal scroll position.
    /// (Stored as the IEEE-754 bits of the `f64`, as `f64::to_bits` gives them.)
    pub scroll_x_bits: u64,
    /// Saved editor vertical scroll position.
    /// (Stored as the IEEE-754 bits of the `f64`, as `f64::to_bits` gives them.)
    pub scroll_y_bits: u64,
}

} // verus!
