//! The peer-wire protocol: message framing, the opening handshake, and the
//! state of a connection.

pub mod connection;
pub mod message;

pub use connection::{
    Active, Connection, ConnectionAction, ConnectionEvent, ConnectionState, HandshakeStep,
    PendingIncoming, PendingOutgoing,
};
pub use message::{Message, ParsedPeerMessage, PeerMessage, PeerMessageError, WireError};
pub use message::{PEERMESSAGE_OVERHEAD_MAX_LEN, PEERMESSAGE_PIECE_MAX_LEN};
