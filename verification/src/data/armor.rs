//! `Armors.json` — equippable armor.
use crate::data::common::Trait;
use vstd::prelude::*;

verus! {

/// A single armor entry from `Armors.json`.
#[derive(Debug, Clone, PartialEq, Default)]
pub struct Armor {
    /// Database id (1-based).
    pub id: i32,
    /// Armor type id.
    pub atype_id: i32,
    /// Help/description text.
    pub description: String,
    /// Equip-slot type id.
    pub etype_id: i32,
    /// Traits granted while equipped.
    pub traits: Vec<Trait>,
    /// Icon index.
    pub icon_index: i32,
    /// Display name.
    pub name: String,
    /// Author note; the conventional home of `<tag:value>` metadata.
    pub note: String,
    /// Parameter bonuses, one per base parameter (8 entries).
    pub params: Vec<i32>,
    /// Buy price.
    pub price: i32,
}

} // verus!
