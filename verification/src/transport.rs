//! Transport abstraction: one event vocabulary over heterogeneous carriers.
//! The traits are implemented by stream, datagram and simulator transports;
//! the read classifiers here are the decision cores of the per-peer reader
//! loops, which poll the operating system outside the library and feed each
//! outcome in as a plain value.

use vstd::prelude::*;
use crate::packets::PeerAddr;

verus! {

/// Ceiling on one transport read or datagram, in bytes.
pub const MAX_MSG_SIZE: usize = 65507;

/// Bytes of framing the datagram envelope adds around a payload: a 4-byte
/// variant tag and an 8-byte length prefix.
pub const DATAGRAM_FRAMING_OVERHEAD: usize = 12;

/// The classes of I/O failure the runtimes distinguish. Everything the
/// logic reads from an operating-system error is captured here.
#[derive(Clone, Copy, PartialEq, Eq, Structural, Debug)]
pub enum NetErrorKind {
    ConnectionAborted,
    ConnectionReset,
    ConnectionRefused,
    Other,
}

impl NetErrorKind {
    /// The error classes that end a connection rather than one read.
    pub open spec fn is_connection_class(self) -> bool {
        self == NetErrorKind::ConnectionAborted || self == NetErrorKind::ConnectionReset
            || self == NetErrorKind::ConnectionRefused
    }
}

/// An inbound datagram or stream read, tagged with its source.
#[derive(Clone, PartialEq, Eq, Debug)]
pub struct TransportMsg {
    pub sender_address: PeerAddr,
    pub data: Vec<u8>,
}

/// What one poll of a client transport can surface.
#[derive(Clone, PartialEq, Eq, Debug)]
pub enum ClientTransportEvent {
    NewMsg(Vec<u8>),
    FailedToReceiveMsg(NetErrorKind),
    ServerDisconnected,
}

/// What one poll of a server transport can surface.
#[derive(Clone, PartialEq, Eq, Debug)]
pub enum ServerTransportEvent {
    NewClient(PeerAddr),
    ClientDisconnected(PeerAddr),
    FailedToReceiveMsg(NetErrorKind),
    NewMsg(TransportMsg),
    FailedToAcceptConnection(NetErrorKind),
}

/// Mathematical value of a `ClientTransportEvent`.
#[verifier::ext_equal]
pub enum ClientTransportEventModel {
    NewMsg(Seq<u8>),
    FailedToReceiveMsg(NetErrorKind),
    ServerDisconnected,
}

/// Mathematical value of a `ServerTransportEvent`.
#[verifier::ext_equal]
pub enum ServerTransportEventModel {
    NewClient(PeerAddr),
    ClientDisconnected(PeerAddr),
    FailedToReceiveMsg(NetErrorKind),
    NewMsg(PeerAddr, Seq<u8>),
    FailedToAcceptConnection(NetErrorKind),
}

impl View for ClientTransportEvent {
    type V = ClientTransportEventModel;

    open spec fn view(&self) -> ClientTransportEventModel {
        match self {
            ClientTransportEvent::NewMsg(m) => ClientTransportEventModel::NewMsg(m@),
            ClientTransportEvent::FailedToReceiveMsg(k) => ClientTransportEventModel::FailedToReceiveMsg(*k),
            ClientTransportEvent::ServerDisconnected => ClientTransportEventModel::ServerDisconnected,
        }
    }
}

impl View for ServerTransportEvent {
    type V = ServerTransportEventModel;

    open spec fn view(&self) -> ServerTransportEventModel {
        match self {
            ServerTransportEvent::NewClient(a) => ServerTransportEventModel::NewClient(*a),
            ServerTransportEvent::ClientDisconnected(a) => ServerTransportEventModel::ClientDisconnected(*a),
            ServerTransportEvent::FailedToReceiveMsg(k) => ServerTransportEventModel::FailedToReceiveMsg(*k),
            ServerTransportEvent::NewMsg(m) => ServerTransportEventModel::NewMsg(m.sender_address, m.data@),
            ServerTransportEvent::FailedToAcceptConnection(k) => ServerTransportEventModel::FailedToAcceptConnection(*k),
        }
    }
}

/// Client-facing capability of a transport. `receive_event` is non-blocking
/// and surfaces at most one event per call; implementations outside the
/// library keep `ServerDisconnected` sticky once surfaced.
pub trait ClientTransport {
    fn receive_event(&mut self) -> Option<ClientTransportEvent>;

    fn send(&mut self, data: &[u8])
        requires
            data@.len() + DATAGRAM_FRAMING_OVERHEAD <= MAX_MSG_SIZE,
    ;
}

/// Server-facing capability of a transport: best-effort unicast by address.
pub trait ServerTransport {
    fn receive_event(&mut self) -> Option<ServerTransportEvent>;

    fn send(&mut self, address: PeerAddr, data: &[u8])
        requires
            data@.len() + DATAGRAM_FRAMING_OVERHEAD <= MAX_MSG_SIZE,
    ;
}

/// Outcome of one blocking read on a stream endpoint, as the reader loop
/// hands it to the classifiers: the bytes read, end of stream, or a failure.
#[derive(Clone, PartialEq, Eq, Debug)]
pub enum ReadOutcome {
    Data(Vec<u8>),
    Closed,
    Failed(NetErrorKind),
}

/// Mathematical value of a `ReadOutcome`.
#[verifier::ext_equal]
pub enum ReadOutcomeModel {
    Data(Seq<u8>),
    Closed,
    Failed(NetErrorKind),
}

impl View for ReadOutcome {
    type V = ReadOutcomeModel;

    open spec fn view(&self) -> ReadOutcomeModel {
        match self {
            ReadOutcome::Data(m) => ReadOutcomeModel::Data(m@),
            ReadOutcome::Closed => ReadOutcomeModel::Closed,
            ReadOutcome::Failed(k) => ReadOutcomeModel::Failed(*k),
        }
    }
}

/// Event the client reader emits for one read outcome, and whether the
/// reader keeps going afterwards.
pub open spec fn spec_classify_client_read(o: ReadOutcomeModel) -> (ClientTransportEventModel, bool) {
    match o {
        ReadOutcomeModel::Data(m) => (ClientTransportEventModel::NewMsg(m), true),
        ReadOutcomeModel::Closed => (ClientTransportEventModel::ServerDisconnected, false),
        ReadOutcomeModel::Failed(k) => if k.is_connection_class() {
            (ClientTransportEventModel::ServerDisconnected, false)
        } else {
            (ClientTransportEventModel::FailedToReceiveMsg(k), true)
        },
    }
}

/// Decision core of the stream client's reader loop: a zero-byte read or a
/// connection-class error ends the connection; any other failure is
/// surfaced and the loop continues.
pub fn classify_client_read(o: ReadOutcome) -> (r: (ClientTransportEvent, bool))
    ensures
        (r.0@, r.1) == spec_classify_client_read(o@),
{
    match o {
        ReadOutcome::Data(m) => (ClientTransportEvent::NewMsg(m), true),
        ReadOutcome::Closed => (ClientTransportEvent::ServerDisconnected, false),
        ReadOutcome::Failed(k) => match k {
            NetErrorKind::ConnectionAborted | NetErrorKind::ConnectionReset
                | NetErrorKind::ConnectionRefused => (ClientTransportEvent::ServerDisconnected, false),
            NetErrorKind::Other => (ClientTransportEvent::FailedToReceiveMsg(k), true),
        },
    }
}

/// Event the per-peer server reader emits for one read outcome, and whether
/// that reader keeps going.
pub open spec fn spec_classify_server_read(addr: PeerAddr, o: ReadOutcomeModel) -> (ServerTransportEventModel, bool) {
    match o {
        ReadOutcomeModel::Data(m) => (ServerTransportEventModel::NewMsg(addr, m), true),
        ReadOutcomeModel::Closed => (ServerTransportEventModel::ClientDisconnected(addr), false),
        ReadOutcomeModel::Failed(k) => if k.is_connection_class() {
            (ServerTransportEventModel::ClientDisconnected(addr), false)
        } else {
            (ServerTransportEventModel::FailedToReceiveMsg(k), true)
        },
    }
}

/// Decision core of the stream server's per-peer reader loop.
pub fn classify_server_read(addr: PeerAddr, o: ReadOutcome) -> (r: (ServerTransportEvent, bool))
    ensures
        (r.0@, r.1) == spec_classify_server_read(addr, o@),
{
    match o {
        ReadOutcome::Data(m) => (
            ServerTransportEvent::NewMsg(TransportMsg { sender_address: addr, data: m }),
            true,
        ),
        ReadOutcome::Closed => (ServerTransportEvent::ClientDisconnected(addr), false),
        ReadOutcome::Failed(k) => match k {
            NetErrorKind::ConnectionAborted | NetErrorKind::ConnectionReset
                | NetErrorKind::ConnectionRefused => (ServerTransportEvent::ClientDisconnected(addr), false),
            NetErrorKind::Other => (ServerTransportEvent::FailedToReceiveMsg(k), true),
        },
    }
}

} // verus!
