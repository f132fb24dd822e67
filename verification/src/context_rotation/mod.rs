//! Context rotation: the activity ledger handed to a fresh context window,
//! archived history of earlier windows, and the notes scratchpad.

pub mod handoff;
pub mod history;
pub mod history_tools;
pub mod message;
pub mod notes;
pub mod notes_tools;
