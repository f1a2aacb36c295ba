//! The ipcz node-link protocol.

pub mod acceptor;
pub mod binding;
pub mod bypass;
pub mod channel;
pub mod delivery;
pub mod dispatch;
pub mod dump;
pub mod exchange;
pub mod handover;
pub mod inbound;
pub mod journal;
pub mod link_memory;
pub mod locking;
pub mod messages;
pub mod node;
pub mod outgoing;
pub mod pair_map;
pub mod router;
pub mod routing;
pub mod runs;
pub mod scenario;
pub mod transfer;
pub mod wire;
