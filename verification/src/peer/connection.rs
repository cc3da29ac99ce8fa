//! A connection to a peer as a state machine: what it awaits, and what it
//! does when something arrives. Reading and writing the socket is left to
//! the caller, who hands in what was read and carries out what is asked.

use vstd::prelude::*;
use crate::ident::{be_u32, read_be_u32, InfoHash, PeerId};
use crate::peer::message::{
    decode_payload, prelude, prelude_bytes, protocol_prefix, starts_with_protocol_prefix, Message,
    PeerMessage, WireError, PEERMESSAGE_PIECE_MAX_LEN,
};
use crate::util::same_bytes;

verus! {

/// What a handshake waits for next.
#[derive(Clone, Copy, Debug, PartialEq, Eq, Structural)]
pub enum HandshakeStep {
    /// The twenty-eight bytes of the protocol prefix and the reserved
    /// bytes.
    Prelude,
    /// The twenty bytes of the info-hash.
    InfoHash,
    /// The coordinator's word on the info-hash.
    Approval,
    /// The twenty bytes of the peer's id.
    PeerId,
}

/// A connection that a peer opened, during its handshake.
#[derive(Clone, Copy, Debug, PartialEq, Eq)]
pub struct PendingIncoming {
    pub step: HandshakeStep,
    /// The info-hash that the peer named, once it has.
    pub info_hash: Option<InfoHash>,
}

/// A connection that was opened to a peer, during its handshake.
#[derive(Clone, Copy, Debug, PartialEq, Eq)]
pub struct PendingOutgoing {
    pub step: HandshakeStep,
    /// The info-hash of the torrent that the connection is for.
    pub info_hash: InfoHash,
}

/// A connection after its handshake.
#[derive(Clone, Copy, Debug, PartialEq, Eq)]
pub struct Active {
    pub info_hash: InfoHash,
    /// The id of the peer at the other end.
    pub peer_id: PeerId,
    /// The length of the payload that is awaited, after its frame's
    /// length was read; nothing while a frame's length is awaited.
    pub payload: Option<usize>,
}

/// The state of a connection.
#[derive(Clone, Copy, Debug, PartialEq, Eq)]
pub enum ConnectionState {
    PendingIncoming(PendingIncoming),
    PendingOutgoing(PendingOutgoing),
    Active(Active),
    Closed,
}

/// A connection to a peer.
#[derive(Clone, Copy, Debug, PartialEq, Eq)]
pub struct Connection {
    pub my_peer_id: PeerId,
    pub state: ConnectionState,
}

/// What happened on a connection.
#[derive(Clone, Debug, PartialEq, Eq)]
pub enum ConnectionEvent {
    /// The bytes that were awaited have been read.
    Received(Vec<u8>),
    /// The coordinator has said whether it serves the info-hash.
    Approval(bool),
    /// Reading or writing failed.
    Failed,
}

/// What is to be done for a connection.
#[derive(Clone, Debug, PartialEq, Eq)]
pub enum ConnectionAction {
    /// Write the bytes.
    Send(Vec<u8>),
    /// Ask the coordinator whether it serves the info-hash.
    AskApproval(InfoHash),
    /// Write the bytes, and tell the coordinator that the peer is
    /// connected.
    Connected { send: Vec<u8>, info_hash: InfoHash, peer_id: PeerId },
    /// Hand the message to the coordinator.
    Deliver(PeerMessage),
    /// Nothing: more is awaited, or a payload that holds no message was
    /// passed over.
    Continue,
    /// Close the connection and tell the coordinator, with the violation
    /// where there was one.
    Close(Option<WireError>),
}

/// The model of a connection's state.
pub enum StateView {
    PendingIncoming { step: HandshakeStep, named: Option<Seq<u8>> },
    PendingOutgoing { step: HandshakeStep, info_hash: Seq<u8> },
    Active { info_hash: Seq<u8>, peer_id: Seq<u8>, payload: Option<usize> },
    Closed,
}

/// The model of a connection.
pub struct ConnectionView {
    pub my_peer_id: Seq<u8>,
    pub state: StateView,
}

/// The model of an event.
pub enum EventView {
    Received(Seq<u8>),
    Approval(bool),
    Failed,
}

/// The model of an action.
pub enum ActionView {
    Send(Seq<u8>),
    AskApproval(Seq<u8>),
    Connected { send: Seq<u8>, info_hash: Seq<u8>, peer_id: Seq<u8> },
    Deliver(Message),
    Continue,
    Close(Option<WireError>),
}

impl View for ConnectionState {
    type V = StateView;

    open spec fn view(&self) -> StateView {
        match self {
            ConnectionState::PendingIncoming(p) => StateView::PendingIncoming {
                step: p.step,
                named: match p.info_hash {
                    Some(h) => Some(h@),
                    None => None,
                },
            },
            ConnectionState::PendingOutgoing(p) => StateView::PendingOutgoing {
                step: p.step,
                info_hash: p.info_hash@,
            },
            ConnectionState::Active(a) => StateView::Active {
                info_hash: a.info_hash@,
                peer_id: a.peer_id@,
                payload: a.payload,
            },
            ConnectionState::Closed => StateView::Closed,
        }
    }
}

impl View for Connection {
    type V = ConnectionView;

    open spec fn view(&self) -> ConnectionView {
        ConnectionView { my_peer_id: self.my_peer_id@, state: self.state@ }
    }
}

impl View for ConnectionEvent {
    type V = EventView;

    open spec fn view(&self) -> EventView {
        match self {
            ConnectionEvent::Received(bytes) => EventView::Received(bytes@),
            ConnectionEvent::Approval(ok) => EventView::Approval(*ok),
            ConnectionEvent::Failed => EventView::Failed,
        }
    }
}

impl View for ConnectionAction {
    type V = ActionView;

    open spec fn view(&self) -> ActionView {
        match self {
            ConnectionAction::Send(bytes) => ActionView::Send(bytes@),
            ConnectionAction::AskApproval(h) => ActionView::AskApproval(h@),
            ConnectionAction::Connected { send, info_hash, peer_id } => ActionView::Connected {
                send: send@,
                info_hash: info_hash@,
                peer_id: peer_id@,
            },
            ConnectionAction::Deliver(m) => ActionView::Deliver(m@),
            ConnectionAction::Continue => ActionView::Continue,
            ConnectionAction::Close(e) => ActionView::Close(*e),
        }
    }
}

/// The number of bytes that a connection awaits, where it awaits bytes: it
/// awaits none while it waits for the coordinator, and none once it is
/// closed.
pub open spec fn awaited(state: StateView) -> Option<usize> {
    match state {
        StateView::PendingIncoming { step, .. } => awaited_in_handshake(step),
        StateView::PendingOutgoing { step, .. } => awaited_in_handshake(step),
        StateView::Active { payload, .. } => match payload {
            Some(len) => Some(len),
            None => Some(4usize),
        },
        StateView::Closed => None,
    }
}

/// The number of bytes that a step of the handshake awaits.
pub open spec fn awaited_in_handshake(step: HandshakeStep) -> Option<usize> {
    match step {
        HandshakeStep::Prelude => Some(28usize),
        HandshakeStep::InfoHash => Some(20usize),
        HandshakeStep::Approval => None,
        HandshakeStep::PeerId => Some(20usize),
    }
}

/// Whether the bytes are a handshake's first twenty-eight: the protocol
/// prefix and eight reserved bytes, whatever these hold.
pub open spec fn is_prelude(bytes: Seq<u8>) -> bool {
    bytes.len() == 28 && bytes.take(20) == protocol_prefix()
}

/// The closed connection, and the word to close it for a violation.
pub open spec fn closes(c: ConnectionView, error: Option<WireError>) -> (ConnectionView, ActionView) {
    (ConnectionView { my_peer_id: c.my_peer_id, state: StateView::Closed }, ActionView::Close(error))
}

/// The connection in another state, and what is to be done.
pub open spec fn goes(c: ConnectionView, state: StateView, action: ActionView) -> (
    ConnectionView,
    ActionView,
) {
    (ConnectionView { my_peer_id: c.my_peer_id, state }, action)
}

/// What a connection that a peer opened does when bytes arrive.
///
/// It answers the peer's prelude with its own, asks the coordinator about
/// the info-hash that follows and goes on only when that is approved,
/// echoes the info-hash, and answers the peer's id with its own.
pub open spec fn incoming_next(
    c: ConnectionView,
    step: HandshakeStep,
    info_hash: Option<Seq<u8>>,
    e: EventView,
) -> (ConnectionView, ActionView) {
    match (step, e) {
        (HandshakeStep::Prelude, EventView::Received(bytes)) => if is_prelude(bytes) {
            goes(
                c,
                StateView::PendingIncoming { step: HandshakeStep::InfoHash, named: None },
                ActionView::Send(prelude()),
            )
        } else {
            closes(c, Some(WireError::InvalidHandshake))
        },
        (HandshakeStep::InfoHash, EventView::Received(bytes)) => if bytes.len() == 20 {
            goes(
                c,
                StateView::PendingIncoming { step: HandshakeStep::Approval, named: Some(bytes) },
                ActionView::AskApproval(bytes),
            )
        } else {
            closes(c, Some(WireError::InvalidHandshake))
        },
        (HandshakeStep::Approval, EventView::Approval(approved)) => match info_hash {
            Some(h) => if approved {
                goes(
                    c,
                    StateView::PendingIncoming { step: HandshakeStep::PeerId, named: Some(h) },
                    ActionView::Send(h),
                )
            } else {
                closes(c, Some(WireError::UnknownInfoHash))
            },
            None => closes(c, Some(WireError::InvalidHandshake)),
        },
        (HandshakeStep::PeerId, EventView::Received(bytes)) => match info_hash {
            Some(h) => if bytes.len() == 20 {
                goes(
                    c,
                    StateView::Active { info_hash: h, peer_id: bytes, payload: None },
                    ActionView::Connected { send: c.my_peer_id, info_hash: h, peer_id: bytes },
                )
            } else {
                closes(c, Some(WireError::InvalidHandshake))
            },
            None => closes(c, Some(WireError::InvalidHandshake)),
        },
        (_, EventView::Failed) => closes(c, None),
        _ => closes(c, Some(WireError::InvalidHandshake)),
    }
}

/// What a connection that was opened to a peer does when bytes arrive.
///
/// After its own prelude it awaits the peer's, sends the info-hash and
/// awaits the same one back, sends its id and awaits the peer's.
pub open spec fn outgoing_next(
    c: ConnectionView,
    step: HandshakeStep,
    info_hash: Seq<u8>,
    e: EventView,
) -> (ConnectionView, ActionView) {
    match (step, e) {
        (HandshakeStep::Prelude, EventView::Received(bytes)) => if is_prelude(bytes) {
            goes(
                c,
                StateView::PendingOutgoing { step: HandshakeStep::InfoHash, info_hash },
                ActionView::Send(info_hash),
            )
        } else {
            closes(c, Some(WireError::InvalidHandshake))
        },
        (HandshakeStep::InfoHash, EventView::Received(bytes)) => if bytes == info_hash {
            goes(
                c,
                StateView::PendingOutgoing { step: HandshakeStep::PeerId, info_hash },
                ActionView::Send(c.my_peer_id),
            )
        } else {
            closes(c, Some(WireError::UnknownInfoHash))
        },
        (HandshakeStep::PeerId, EventView::Received(bytes)) => if bytes.len() == 20 {
            goes(
                c,
                StateView::Active { info_hash, peer_id: bytes, payload: None },
                ActionView::Connected { send: Seq::empty(), info_hash, peer_id: bytes },
            )
        } else {
            closes(c, Some(WireError::InvalidHandshake))
        },
        (_, EventView::Failed) => closes(c, None),
        _ => closes(c, Some(WireError::InvalidHandshake)),
    }
}

/// What an active connection does when bytes arrive.
///
/// Four bytes give the length of a frame: none of more than 16 393 is
/// taken, a frame of no bytes is a keep-alive, and otherwise the payload
/// is awaited. A payload is delivered as the message it holds, or passed
/// over where it holds none.
pub open spec fn active_next(
    c: ConnectionView,
    info_hash: Seq<u8>,
    peer_id: Seq<u8>,
    payload: Option<usize>,
    e: EventView,
) -> (ConnectionView, ActionView) {
    match e {
        EventView::Received(bytes) => match payload {
            None => if bytes.len() != 4 {
                closes(c, None)
            } else if be_u32(bytes) > PEERMESSAGE_PIECE_MAX_LEN {
                closes(c, Some(WireError::FrameTooLarge))
            } else if be_u32(bytes) == 0 {
                goes(
                    c,
                    StateView::Active { info_hash, peer_id, payload: None },
                    ActionView::Deliver(Message::KeepAlive),
                )
            } else {
                goes(
                    c,
                    StateView::Active { info_hash, peer_id, payload: Some(be_u32(bytes) as usize) },
                    ActionView::Continue,
                )
            },
            Some(len) => if bytes.len() != len {
                closes(c, None)
            } else {
                goes(
                    c,
                    StateView::Active { info_hash, peer_id, payload: None },
                    match decode_payload(bytes) {
                        Ok(m) => ActionView::Deliver(m),
                        Err(_) => ActionView::Continue,
                    },
                )
            },
        },
        _ => closes(c, None),
    }
}

/// What a connection does when something happens: its next state, and
/// what is to be done.
pub open spec fn next(c: ConnectionView, e: EventView) -> (ConnectionView, ActionView) {
    match c.state {
        StateView::PendingIncoming { step, named } => incoming_next(c, step, named, e),
        StateView::PendingOutgoing { step, info_hash } => outgoing_next(c, step, info_hash, e),
        StateView::Active { info_hash, peer_id, payload } => active_next(
            c,
            info_hash,
            peer_id,
            payload,
            e,
        ),
        StateView::Closed => closes(c, None),
    }
}

/// Before its handshake is done a connection delivers no message: whatever
/// happens to a pending connection, a message is not what it asks to hand
/// on. In particular nothing is delivered before the coordinator has
/// approved the info-hash, and a handshake whose info-hash is not approved
/// ends the connection with `UnknownInfoHash`.
pub proof fn law_no_message_before_active(c: ConnectionView, e: EventView)
    requires
        c.state is PendingIncoming || c.state is PendingOutgoing,
    ensures
        !(next(c, e).1 is Deliver),
        c.state matches StateView::PendingIncoming { step: HandshakeStep::Approval, named: Some(_) }
            && e == EventView::Approval(false) ==> next(c, e) == closes(
            c,
            Some(WireError::UnknownInfoHash),
        ),
        next(c, e).0.state is Active ==> next(c, e).1 is Connected,
{
}

/// A frame that announces more than 16 393 bytes closes the connection
/// with `FrameTooLarge`, and no message is delivered.
pub proof fn law_frame_too_large(c: ConnectionView, header: Seq<u8>)
    requires
        c.state matches StateView::Active { payload: None, .. },
        header.len() == 4,
        be_u32(header) > PEERMESSAGE_PIECE_MAX_LEN,
    ensures
        next(c, EventView::Received(header)) == closes(c, Some(WireError::FrameTooLarge)),
{
}

/// A closed connection stays closed.
pub proof fn law_closed_stays_closed(c: ConnectionView, e: EventView)
    requires
        c.state is Closed,
    ensures
        next(c, e).0.state is Closed,
        next(c, e).1 == ActionView::Close(None),
{
}

impl Connection {
    /// The connection that a peer opened: it awaits the peer's prelude.
    pub fn accept(my_peer_id: PeerId) -> (c: Connection)
        ensures
            c@ == (ConnectionView {
                my_peer_id: my_peer_id@,
                state: StateView::PendingIncoming { step: HandshakeStep::Prelude, named: None },
            }),
    {
        Connection {
            my_peer_id,
            state: ConnectionState::PendingIncoming(
                PendingIncoming { step: HandshakeStep::Prelude, info_hash: None },
            ),
        }
    }

    /// The connection that was opened to a peer for a torrent, and the
    /// prelude that is to be written first: it awaits the peer's prelude.
    pub fn connect_to(my_peer_id: PeerId, info_hash: InfoHash) -> (r: (Connection, Vec<u8>))
        ensures
            r.0@ == (ConnectionView {
                my_peer_id: my_peer_id@,
                state: StateView::PendingOutgoing {
                    step: HandshakeStep::Prelude,
                    info_hash: info_hash@,
                },
            }),
            r.1@ == prelude(),
    {
        let head = prelude_bytes();
        (
            Connection {
                my_peer_id,
                state: ConnectionState::PendingOutgoing(
                    PendingOutgoing { step: HandshakeStep::Prelude, info_hash },
                ),
            },
            vstd::slice::slice_to_vec(head.as_slice()),
        )
    }

    /// The active connection that a connection which a peer opened
    /// becomes when the peer's id has arrived; nothing where the peer has
    /// not named an info-hash before.
    pub fn from_pending_incoming(
        my_peer_id: PeerId,
        pending: PendingIncoming,
        peer_id: PeerId,
    ) -> (r: Option<Connection>)
        ensures
            match pending.info_hash {
                Some(info_hash) => r == Some(
                    Connection {
                        my_peer_id,
                        state: ConnectionState::Active(
                            Active { info_hash, peer_id, payload: None },
                        ),
                    },
                ),
                None => r is None,
            },
    {
        match pending.info_hash {
            Some(info_hash) => Some(
                Connection {
                    my_peer_id,
                    state: ConnectionState::Active(Active { info_hash, peer_id, payload: None }),
                },
            ),
            None => None,
        }
    }

    /// The active connection that a connection which was opened to a peer
    /// becomes when the peer's id has arrived.
    pub fn from_pending_outgoing(
        my_peer_id: PeerId,
        pending: PendingOutgoing,
        peer_id: PeerId,
    ) -> (r: Connection)
        ensures
            r == (Connection {
                my_peer_id,
                state: ConnectionState::Active(
                    Active { info_hash: pending.info_hash, peer_id, payload: None },
                ),
            }),
    {
        Connection {
            my_peer_id,
            state: ConnectionState::Active(
                Active { info_hash: pending.info_hash, peer_id, payload: None },
            ),
        }
    }

    /// The number of bytes that the connection awaits, where it awaits
    /// bytes.
    pub fn awaits(&self) -> (len: Option<usize>)
        ensures
            len == awaited(self@.state),
    {
        match &self.state {
            ConnectionState::PendingIncoming(p) => handshake_awaits(p.step),
            ConnectionState::PendingOutgoing(p) => handshake_awaits(p.step),
            ConnectionState::Active(a) => match a.payload {
                Some(len) => Some(len),
                None => Some(4),
            },
            ConnectionState::Closed => None,
        }
    }

    /// Whether the handshake is done and the connection not closed.
    pub fn is_active(&self) -> (b: bool)
        ensures
            b == (self@.state is Active),
    {
        match &self.state {
            ConnectionState::Active(_) => true,
            _ => false,
        }
    }

    /// Whether the connection is closed.
    pub fn is_closed(&self) -> (b: bool)
        ensures
            b == (self@.state is Closed),
    {
        match &self.state {
            ConnectionState::Closed => true,
            _ => false,
        }
    }

    /// The closed connection, and the word to close it.
    fn close(self, error: Option<WireError>) -> (r: (Connection, ConnectionAction))
        ensures
            (r.0@, r.1@) == closes(self@, error),
    {
        (
            Connection { my_peer_id: self.my_peer_id, state: ConnectionState::Closed },
            ConnectionAction::Close(error),
        )
    }

    /// Takes an event: the connection in its next state, and what is to
    /// be done.
    pub fn step(self, event: ConnectionEvent) -> (r: (Connection, ConnectionAction))
        ensures
            (r.0@, r.1@) == next(self@, event@),
    {
        match self.state {
            ConnectionState::PendingIncoming(p) => self.step_incoming(p, event),
            ConnectionState::PendingOutgoing(p) => self.step_outgoing(p, event),
            ConnectionState::Active(a) => self.step_active(a, event),
            ConnectionState::Closed => self.close(None),
        }
    }

    fn step_incoming(self, p: PendingIncoming, event: ConnectionEvent) -> (r: (
        Connection,
        ConnectionAction,
    ))
        requires
            self.state == ConnectionState::PendingIncoming(p),
        ensures
            (r.0@, r.1@) == next(self@, event@),
    {
        let me = self.my_peer_id;
        match (p.step, event) {
            (HandshakeStep::Prelude, ConnectionEvent::Received(bytes)) => {
                if bytes.len() == 28 && starts_with_protocol_prefix(bytes.as_slice()) {
                    let head = prelude_bytes();
                    (
                        Connection {
                            my_peer_id: me,
                            state: ConnectionState::PendingIncoming(
                                PendingIncoming { step: HandshakeStep::InfoHash, info_hash: None },
                            ),
                        },
                        ConnectionAction::Send(vstd::slice::slice_to_vec(head.as_slice())),
                    )
                } else {
                    self.close(Some(WireError::InvalidHandshake))
                }
            },
            (HandshakeStep::InfoHash, ConnectionEvent::Received(bytes)) => {
                match InfoHash::from_slice(bytes.as_slice()) {
                    Some(h) => (
                        Connection {
                            my_peer_id: me,
                            state: ConnectionState::PendingIncoming(
                                PendingIncoming {
                                    step: HandshakeStep::Approval,
                                    info_hash: Some(h),
                                },
                            ),
                        },
                        ConnectionAction::AskApproval(h),
                    ),
                    None => self.close(Some(WireError::InvalidHandshake)),
                }
            },
            (HandshakeStep::Approval, ConnectionEvent::Approval(approved)) => {
                match p.info_hash {
                    Some(h) => {
                        if approved {
                            (
                                Connection {
                                    my_peer_id: me,
                                    state: ConnectionState::PendingIncoming(
                                        PendingIncoming {
                                            step: HandshakeStep::PeerId,
                                            info_hash: Some(h),
                                        },
                                    ),
                                },
                                ConnectionAction::Send(vstd::slice::slice_to_vec(h.as_slice())),
                            )
                        } else {
                            self.close(Some(WireError::UnknownInfoHash))
                        }
                    },
                    None => self.close(Some(WireError::InvalidHandshake)),
                }
            },
            (HandshakeStep::PeerId, ConnectionEvent::Received(bytes)) => {
                match (p.info_hash, PeerId::from_slice(bytes.as_slice())) {
                    (Some(h), Some(peer_id)) => match Connection::from_pending_incoming(
                        me,
                        p,
                        peer_id,
                    ) {
                        Some(active) => (
                            active,
                            ConnectionAction::Connected {
                                send: vstd::slice::slice_to_vec(me.as_slice()),
                                info_hash: h,
                                peer_id,
                            },
                        ),
                        None => self.close(Some(WireError::InvalidHandshake)),
                    },
                    _ => self.close(Some(WireError::InvalidHandshake)),
                }
            },
            (_, ConnectionEvent::Failed) => self.close(None),
            _ => self.close(Some(WireError::InvalidHandshake)),
        }
    }

    fn step_outgoing(self, p: PendingOutgoing, event: ConnectionEvent) -> (r: (
        Connection,
        ConnectionAction,
    ))
        requires
            self.state == ConnectionState::PendingOutgoing(p),
        ensures
            (r.0@, r.1@) == next(self@, event@),
    {
        let me = self.my_peer_id;
        let h = p.info_hash;
        match (p.step, event) {
            (HandshakeStep::Prelude, ConnectionEvent::Received(bytes)) => {
                if bytes.len() == 28 && starts_with_protocol_prefix(bytes.as_slice()) {
                    (
                        Connection {
                            my_peer_id: me,
                            state: ConnectionState::PendingOutgoing(
                                PendingOutgoing { step: HandshakeStep::InfoHash, info_hash: h },
                            ),
                        },
                        ConnectionAction::Send(vstd::slice::slice_to_vec(h.as_slice())),
                    )
                } else {
                    self.close(Some(WireError::InvalidHandshake))
                }
            },
            (HandshakeStep::InfoHash, ConnectionEvent::Received(bytes)) => {
                if same_bytes(bytes.as_slice(), h.as_slice()) {
                    (
                        Connection {
                            my_peer_id: me,
                            state: ConnectionState::PendingOutgoing(
                                PendingOutgoing { step: HandshakeStep::PeerId, info_hash: h },
                            ),
                        },
                        ConnectionAction::Send(vstd::slice::slice_to_vec(me.as_slice())),
                    )
                } else {
                    self.close(Some(WireError::UnknownInfoHash))
                }
            },
            (HandshakeStep::PeerId, ConnectionEvent::Received(bytes)) => {
                match PeerId::from_slice(bytes.as_slice()) {
                    Some(peer_id) => (
                        Connection::from_pending_outgoing(me, p, peer_id),
                        ConnectionAction::Connected { send: Vec::new(), info_hash: h, peer_id },
                    ),
                    None => self.close(Some(WireError::InvalidHandshake)),
                }
            },
            (_, ConnectionEvent::Failed) => self.close(None),
            _ => self.close(Some(WireError::InvalidHandshake)),
        }
    }

    fn step_active(self, a: Active, event: ConnectionEvent) -> (r: (Connection, ConnectionAction))
        requires
            self.state == ConnectionState::Active(a),
        ensures
            (r.0@, r.1@) == next(self@, event@),
    {
        let me = self.my_peer_id;
        match event {
            ConnectionEvent::Received(bytes) => match a.payload {
                None => {
                    if bytes.len() != 4 {
                        return self.close(None);
                    }
                    assert(bytes@.subrange(0, 4) =~= bytes@);
                    let len: usize = read_be_u32(bytes.as_slice(), 0) as usize;
                    if len > PEERMESSAGE_PIECE_MAX_LEN {
                        self.close(Some(WireError::FrameTooLarge))
                    } else if len == 0 {
                        (self, ConnectionAction::Deliver(PeerMessage::KeepAlive))
                    } else {
                        (
                            Connection {
                                my_peer_id: me,
                                state: ConnectionState::Active(
                                    Active {
                                        info_hash: a.info_hash,
                                        peer_id: a.peer_id,
                                        payload: Some(len),
                                    },
                                ),
                            },
                            ConnectionAction::Continue,
                        )
                    }
                },
                Some(len) => {
                    if bytes.len() != len {
                        return self.close(None);
                    }
                    let action = match PeerMessage::try_from(bytes.as_slice()) {
                        Ok(message) => ConnectionAction::Deliver(message),
                        Err(_) => ConnectionAction::Continue,
                    };
                    (
                        Connection {
                            my_peer_id: me,
                            state: ConnectionState::Active(
                                Active {
                                    info_hash: a.info_hash,
                                    peer_id: a.peer_id,
                                    payload: None,
                                },
                            ),
                        },
                        action,
                    )
                },
            },
            _ => self.close(None),
        }
    }
}

/// The number of bytes that a step of the handshake awaits.
pub fn handshake_awaits(step: HandshakeStep) -> (len: Option<usize>)
    ensures
        len == awaited_in_handshake(step),
{
    match step {
        HandshakeStep::Prelude => Some(28),
        HandshakeStep::InfoHash => Some(20),
        HandshakeStep::Approval => None,
        HandshakeStep::PeerId => Some(20),
    }
}

} // verus!
