//! A native Mojo IPC runtime whose behaviour is stated in contracts and proved.
//!
//! * [`bytes`] and [`text`]: little-endian fields and the text of numbers.
//! * [`casefile`]: replayable cases, their events, and the comparison of runs.
//! * [`digest`]: hexadecimal text and digests.
//! * [`ipcz`]: the node-link wire protocol, shared link memory and routing.
//! * [`picks`]: the positions of a list that have a property.
//! * [`runtime`]: handles, message and data pipes, shared buffers, traps, waits.

pub mod bytes;
pub mod casefile;
pub mod digest;
pub mod ipcz;
pub mod picks;
pub mod runtime;
pub mod text;
