//! The [`HasNote`] and [`HasId`] traits implemented by database records.
use vstd::prelude::*;

use crate::data::{
    Actor, Animation, Armor, Class, CommonEvent, Enemy, GameMap, Item, MapEvent, MapInfo, Skill, State,
    Tileset, Troop, Weapon,
};

verus! {

/// Implemented by database records that carry an author `note` field — the
/// conventional home of RPG Maker's `<tag:value>` metadata.
///
/// The note-metadata parsing layer uses this to find the raw text to parse,
/// without caring which concrete record type it came from.
pub trait HasNote {
    /// The record's note text.
    spec fn note_view(&self) -> Seq<char>;

    /// The record's raw note text.
    fn note(&self) -> (r: &str)
        ensures
            r@ == self.note_view(),
    ;
}

/// Implemented by database records with a 1-based `id`.
///
/// The note-metadata cache keys parsed notes by record type and id, so a record
/// must expose its id to look its metadata up.
pub trait HasId {
    /// The record's id.
    spec fn id_view(&self) -> i32;

    /// The record's 1-based database id.
    fn id(&self) -> (r: i32)
        ensures
            r == self.id_view(),
    ;
}

impl HasId for Actor {
    open spec fn id_view(&self) -> i32 {
        self.id
    }

    fn id(&self) -> (r: i32) {
        self.id
    }
}

impl HasId for Class {
    open spec fn id_view(&self) -> i32 {
        self.id
    }

    fn id(&self) -> (r: i32) {
        self.id
    }
}

impl HasId for Skill {
    open spec fn id_view(&self) -> i32 {
        self.id
    }

    fn id(&self) -> (r: i32) {
        self.id
    }
}

impl HasId for Item {
    open spec fn id_view(&self) -> i32 {
        self.id
    }

    fn id(&self) -> (r: i32) {
        self.id
    }
}

impl HasId for Weapon {
    open spec fn id_view(&self) -> i32 {
        self.id
    }

    fn id(&self) -> (r: i32) {
        self.id
    }
}

impl HasId for Armor {
    open spec fn id_view(&self) -> i32 {
        self.id
    }

    fn id(&self) -> (r: i32) {
        self.id
    }
}

impl HasId for Enemy {
    open spec fn id_view(&self) -> i32 {
        self.id
    }

    fn id(&self) -> (r: i32) {
        self.id
    }
}

impl HasId for State {
    open spec fn id_view(&self) -> i32 {
        self.id
    }

    fn id(&self) -> (r: i32) {
        self.id
    }
}

impl HasId for Tileset {
    open spec fn id_view(&self) -> i32 {
        self.id
    }

    fn id(&self) -> (r: i32) {
        self.id
    }
}

impl HasId for MapInfo {
    open spec fn id_view(&self) -> i32 {
        self.id
    }

    fn id(&self) -> (r: i32) {
        self.id
    }
}

impl HasId for Animation {
    open spec fn id_view(&self) -> i32 {
        self.id
    }

    fn id(&self) -> (r: i32) {
        self.id
    }
}

impl HasId for CommonEvent {
    open spec fn id_view(&self) -> i32 {
        self.id
    }

    fn id(&self) -> (r: i32) {
        self.id
    }
}

impl HasId for Troop {
    open spec fn id_view(&self) -> i32 {
        self.id
    }

    fn id(&self) -> (r: i32) {
        self.id
    }
}

impl HasId for MapEvent {
    open spec fn id_view(&self) -> i32 {
        self.id
    }

    fn id(&self) -> (r: i32) {
        self.id
    }
}

impl HasNote for Actor {
    open spec fn note_view(&self) -> Seq<char> {
        self.note@
    }

    fn note(&self) -> (r: &str) {
        self.note.as_str()
    }
}

impl HasNote for Class {
    open spec fn note_view(&self) -> Seq<char> {
        self.note@
    }

    fn note(&self) -> (r: &str) {
        self.note.as_str()
    }
}

impl HasNote for Skill {
    open spec fn note_view(&self) -> Seq<char> {
        self.note@
    }

    fn note(&self) -> (r: &str) {
        self.note.as_str()
    }
}

impl HasNote for Item {
    open spec fn note_view(&self) -> Seq<char> {
        self.note@
    }

    fn note(&self) -> (r: &str) {
        self.note.as_str()
    }
}

impl HasNote for Weapon {
    open spec fn note_view(&self) -> Seq<char> {
        self.note@
    }

    fn note(&self) -> (r: &str) {
        self.note.as_str()
    }
}

impl HasNote for Armor {
    open spec fn note_view(&self) -> Seq<char> {
        self.note@
    }

    fn note(&self) -> (r: &str) {
        self.note.as_str()
    }
}

impl HasNote for Enemy {
    open spec fn note_view(&self) -> Seq<char> {
        self.note@
    }

    fn note(&self) -> (r: &str) {
        self.note.as_str()
    }
}

impl HasNote for State {
    open spec fn note_view(&self) -> Seq<char> {
        self.note@
    }

    fn note(&self) -> (r: &str) {
        self.note.as_str()
    }
}

impl HasNote for Tileset {
    open spec fn note_view(&self) -> Seq<char> {
        self.note@
    }

    fn note(&self) -> (r: &str) {
        self.note.as_str()
    }
}

impl HasNote for GameMap {
    open spec fn note_view(&self) -> Seq<char> {
        self.note@
    }

    fn note(&self) -> (r: &str) {
        self.note.as_str()
    }
}

impl HasNote for MapEvent {
    open spec fn note_view(&self) -> Seq<char> {
        self.note@
    }

    fn note(&self) -> (r: &str) {
        self.note.as_str()
    }
}

} // verus!
