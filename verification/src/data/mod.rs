//! Models of the RPG Maker MZ database files.
//!
//! Each MZ `data/*.json` file maps onto types in this module. Sub-objects that
//! are reused across several files live in [`common`].
//!
//! The MZ files store entity arrays with a leading `null` at index 0 (ids are
//! 1-based). That null padding is a concern of the asset layer, not these
//! per-entity structs.

pub mod actor;
pub mod animation;
pub mod armor;
pub mod class;
pub mod common;
pub mod common_event;
pub mod enemy;
pub mod item;
pub mod map;
pub mod map_info;
pub mod note;
pub mod skill;
pub mod state;
pub mod system;
pub mod tileset;
pub mod troop;
pub mod weapon;

pub use actor::Actor;
pub use animation::{Animation, FlashTiming, Rotation, SoundTiming};
pub use armor::Armor;
pub use class::{Class, Learning};
pub use common::{AudioFile, Damage, Effect, EventCommand, Trait};
pub use common_event::CommonEvent;
pub use enemy::{DropItem, Enemy, EnemyAction};
pub use item::Item;
pub use map::{
    Encounter, GameMap, MapEvent, MapEventPage, MapEventPageConditions, MapEventPageImage, MoveCommand,
    MoveRoute,
};
pub use map_info::MapInfo;
pub use note::{HasId, HasNote};
pub use skill::Skill;
pub use state::State;
pub use system::{System, Terms};
pub use tileset::Tileset;
pub use troop::{Troop, TroopMember, TroopPage, TroopPageConditions};
pub use weapon::Weapon;
