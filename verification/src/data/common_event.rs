//! `CommonEvents.json` — reusable event command lists.
use crate::data::common::EventCommand;
use vstd::prelude::*;

verus! {

/// A single entry in `CommonEvents.json`.
#[derive(Debug, Clone, Default, PartialEq)]
pub struct CommonEvent {
    /// Database id (1-based).
    pub id: i32,
    /// The event's command list.
    pub list: Vec<EventCommand>,
    /// Display name.
    pub name: String,
    /// Switch that gates an autorun/parallel common event.
    pub switch_id: i32,
    /// Trigger: 0 none, 1 autorun, 2 parallel.
    pub trigger: i32,
}

} // verus!
