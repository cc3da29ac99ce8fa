//! The tracker: announce requests and responses, the swarm registry, and
//! the announce pipeline.

pub mod announce;
pub mod identity;
pub mod listing;
pub mod peer;
pub mod query_string;
pub mod request;
pub mod response;
pub mod response_laws;
pub mod round_trip;
pub mod torrent;

pub use announce::{announce, announce_route, Config};
pub use peer::{Peer, PeerView};
pub use request::{Event, Request, RequestError, RequestView};
pub use response::{FailureResponse, Response, ResponseError, ResponseView, SuccessResponse};
pub use torrent::{Peers, Torrent, Torrents};
