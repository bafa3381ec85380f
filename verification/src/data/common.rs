//! Sub-objects shared across multiple RPG Maker MZ database files.
//!
//! RPG Maker MZ encodes several small records in a uniform shape and reuses them
//! across many of the top-level database files. Modeling them once here keeps the
//! per-table models (actors, items, skills, …) small and consistent.
//!
//! Field names are the `snake_case` forms of the MZ JSON's camelCase keys.
//! Floating-point values are kept as their IEEE-754 bit patterns.
use vstd::prelude::*;

verus! {

/// Makes `serde_json::Value` usable in fields: event-command and move-route
/// parameters are heterogeneous JSON kept as they were read. The type is
/// opaque here; nothing is assumed about its contents.
#[verifier::external_type_specification]
#[verifier::external_body]
pub struct ExJsonValue(serde_json::Value);

/// A trait line attached to actors, classes, weapons, armors, enemies, and states.
///
/// MZ encodes every trait uniformly as a `(code, dataId, value)` triple. The
/// meaning of `data_id` and `value` depends on `code` (e.g. element rate, state
/// resist, parameter multiplier); this type intentionally does not interpret it.
#[derive(Debug, Clone, PartialEq, Default)]
pub struct Trait {
    /// Trait code identifying what the trait does.
    pub code: i32,
    /// Secondary identifier whose meaning depends on `code` (e.g. element id,
    /// state id, parameter index).
    pub data_id: i32,
    /// The trait's numeric value (rate, bonus, etc.), per `code`.
    /// (Stored as the IEEE-754 bits of the `f64`, as `f64::to_bits` gives them.)
    pub value_bits: u64,
}

/// An effect applied by an item or a skill (recover HP, add a state, etc.).
#[derive(Debug, Clone, PartialEq, Default)]
pub struct Effect {
    /// Effect code identifying what the effect does.
    pub code: i32,
    /// Secondary identifier whose meaning depends on `code`.
    pub data_id: i32,
    /// First magnitude parameter, per `code`.
    /// (Stored as the IEEE-754 bits of the `f64`, as `f64::to_bits` gives them.)
    pub value1_bits: u64,
    /// Second magnitude parameter, per `code`.
    /// (Stored as the IEEE-754 bits of the `f64`, as `f64::to_bits` gives them.)
    pub value2_bits: u64,
}

/// The damage calculation for an item or skill.
#[derive(Debug, Clone, PartialEq, Default)]
pub struct Damage {
    /// Damage type: 0 none, 1 HP damage, 2 MP damage, 3 HP recover, 4 MP recover,
    /// 5 HP drain, 6 MP drain. Named `kind` because `type` is a Rust keyword.
    pub kind: i32,
    /// Element id applied to the damage (0 = none, -1 = normal attack element).
    pub element_id: i32,
    /// The damage formula, evaluated by the MZ engine at runtime.
    pub formula: String,
    /// Variance percentage applied to the rolled damage.
    pub variance: i32,
    /// Whether the damage can land a critical hit.
    pub critical: bool,
}

/// A single entry in an MZ event command list.
///
/// Event command lists drive common events, map events, and troop event pages.
/// A command's `parameters` are heterogeneous and their shape depends entirely on
/// `code`, so they are preserved as raw JSON values rather than being interpreted
/// here.
#[derive(Debug, Clone, PartialEq, Default)]
pub struct EventCommand {
    /// Command code identifying the operation (e.g. 401 = show-text line).
    pub code: i32,
    /// Nesting/indentation level of this command within its list.
    pub indent: i32,
    /// Command arguments, whose number and types depend on `code`.
    pub parameters: Vec<serde_json::Value>,
}

/// A reference to an audio asset together with its playback parameters.
///
/// Used for BGM, BGS, ME, and SE throughout the database (system sounds, map
/// audio, animation sound timings, …).
#[derive(Debug, Clone, PartialEq, Default)]
pub struct AudioFile {
    /// Audio file name (without directory or extension); empty means "none".
    pub name: String,
    /// Stereo pan, -100..=100.
    pub pan: i32,
    /// Playback pitch percentage (100 = normal).
    pub pitch: i32,
    /// Playback volume percentage (0..=100).
    pub volume: i32,
}

} // verus!
