//! The in-process runtime: handles, message pipes, data pipes, shared buffers,
//! traps and waits.

pub mod data_pipe;
pub mod dispatcher;
pub mod error;
pub mod handle;
pub mod message;
pub mod objects;
pub mod pipe;
pub mod platform_handle;
pub mod ring_buffer;
pub mod session;
pub mod shared_buffer;
pub mod signal;
pub mod trap;
pub mod wait;
pub mod watch;
