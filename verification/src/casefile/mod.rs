//! Replayable cases, the events that a run of a case emits, and the comparison
//! of two runs.

pub mod case;
pub mod compare;
pub mod events;
pub mod normalizers;
pub mod harness;
pub mod operations;
pub mod replay;
