//! Verified core of an RPG Maker MZ database loader.
pub mod asset;
pub mod config;
pub mod data;
pub mod keymap;
pub mod maps;
pub mod notes;
pub mod processing;
pub mod snapshot;
pub mod status;
pub mod text;
