//! The client: what it knows of each connected peer, the coordinator that
//! routes peer events, and the announces it sends to the tracker.

pub mod announce;
pub mod bitfield;
pub mod coordinator;
pub mod peer;

pub use announce::{AnnounceClient, Outgoing};
pub use coordinator::{Coordinator, Incoming, IncomingEvent, Outcome, Signal};
pub use peer::Peer;
