//! Client runtime: the state shared between the reader and the application
//! (inbound packet queue, assigned identity, error log), the dispatch of
//! incoming server envelopes, and a thin client over a transport.
//!
//! The reader loop itself blocks on I/O outside the library; it hands each
//! read outcome to `SharedData::handle_read` and performs the returned
//! reply write (the pong of the ping protocol).

use vstd::prelude::*;
use crate::packets::{ClientId, MAX_MESSAGE_SIZE};
use crate::internal::{InternalClientPacket, InternalServerPacket, ClientPacketModel, ServerPacketModel};
use crate::transport::{
    NetErrorKind, ClientTransport, ClientTransportEvent, ClientTransportEventModel, ReadOutcome,
    ReadOutcomeModel,
};
use crate::codec::{
    spec_encode_client_packet, spec_decode_server_packet, encode_client_packet, decode_server_packet,
    client_packet_payload_len,
};
use std::collections::VecDeque;

verus! {

/// Errors the client runtime records.
#[derive(Clone, Copy, PartialEq, Eq, Structural, Debug)]
pub enum ClientError {
    /// A write on the send endpoint failed.
    SendError { kind: NetErrorKind },
    /// A non-terminal read failure.
    ReadError { kind: NetErrorKind },
    /// Incoming bytes did not decode to a server envelope.
    DeserializePacket,
}

/// Application-visible packet at the client.
#[derive(Clone, PartialEq, Eq, Debug)]
pub enum ServerPacket {
    ConnectedSuccessfully,
    NewClientConnected(ClientId),
    ClientDisconnected(ClientId),
    ClientKicked(ClientId),
    YouWereKicked,
    ClientToClientMessage(ClientId, Vec<u8>),
    ServerToClientMessage(Vec<u8>),
    /// Terminal: the connection to the server ended.
    Disconnected,
    /// Terminal: the server refused the connection.
    ConnectionRefused,
}

/// Mathematical value of a `ServerPacket`.
#[verifier::ext_equal]
pub enum ServerPacketAppModel {
    ConnectedSuccessfully,
    NewClientConnected(ClientId),
    ClientDisconnected(ClientId),
    ClientKicked(ClientId),
    YouWereKicked,
    ClientToClientMessage(ClientId, Seq<u8>),
    ServerToClientMessage(Seq<u8>),
    Disconnected,
    ConnectionRefused,
}

impl View for ServerPacket {
    type V = ServerPacketAppModel;

    open spec fn view(&self) -> ServerPacketAppModel {
        match self {
            ServerPacket::ConnectedSuccessfully => ServerPacketAppModel::ConnectedSuccessfully,
            ServerPacket::NewClientConnected(id) => ServerPacketAppModel::NewClientConnected(*id),
            ServerPacket::ClientDisconnected(id) => ServerPacketAppModel::ClientDisconnected(*id),
            ServerPacket::ClientKicked(id) => ServerPacketAppModel::ClientKicked(*id),
            ServerPacket::YouWereKicked => ServerPacketAppModel::YouWereKicked,
            ServerPacket::ClientToClientMessage(id, m) => ServerPacketAppModel::ClientToClientMessage(*id, m@),
            ServerPacket::ServerToClientMessage(m) => ServerPacketAppModel::ServerToClientMessage(m@),
            ServerPacket::Disconnected => ServerPacketAppModel::Disconnected,
            ServerPacket::ConnectionRefused => ServerPacketAppModel::ConnectionRefused,
        }
    }
}

/// Mathematical value of the client runtime state.
#[verifier::ext_equal]
pub struct SharedDataModel {
    pub packets: Seq<ServerPacketAppModel>,
    pub id: Option<ClientId>,
    pub errors: Seq<ClientError>,
}

/// The client state one mutex guards: the inbound queue the application
/// drains, the identity the server assigned, and the error log. The send
/// endpoint itself lives with the caller, which performs the writes this
/// state machine plans.
pub struct SharedData {
    packets: VecDeque<ServerPacket>,
    id: Option<ClientId>,
    errors: Vec<ClientError>,
}

impl View for SharedData {
    type V = SharedDataModel;

    closed spec fn view(&self) -> SharedDataModel {
        SharedDataModel {
            packets: self.packets@.map_values(|p: ServerPacket| p@),
            id: self.id,
            errors: self.errors@,
        }
    }
}

/// What one decoded server envelope does to the client state, and the
/// reply it plans (a pong answering a ping).
pub open spec fn client_step(pre: SharedDataModel, p: ServerPacketModel) -> (SharedDataModel, Option<Seq<u8>>) {
    match p {
        ServerPacketModel::ConnectResponse(id) => (
            SharedDataModel {
                packets: pre.packets.push(ServerPacketAppModel::ConnectedSuccessfully),
                id: Some(id),
                ..pre
            },
            None,
        ),
        ServerPacketModel::NewClientConnected(id) => (
            SharedDataModel { packets: pre.packets.push(ServerPacketAppModel::NewClientConnected(id)), ..pre },
            None,
        ),
        ServerPacketModel::ClientDisconnected(id) => (
            SharedDataModel { packets: pre.packets.push(ServerPacketAppModel::ClientDisconnected(id)), ..pre },
            None,
        ),
        ServerPacketModel::ClientKicked(id) => (
            SharedDataModel { packets: pre.packets.push(ServerPacketAppModel::ClientKicked(id)), ..pre },
            None,
        ),
        ServerPacketModel::YouWereKicked => (
            SharedDataModel { packets: pre.packets.push(ServerPacketAppModel::YouWereKicked), ..pre },
            None,
        ),
        ServerPacketModel::ClientToClient(id, m) => (
            SharedDataModel { packets: pre.packets.push(ServerPacketAppModel::ClientToClientMessage(id, m)), ..pre },
            None,
        ),
        ServerPacketModel::ServerToClient(m) => (
            SharedDataModel { packets: pre.packets.push(ServerPacketAppModel::ServerToClientMessage(m)), ..pre },
            None,
        ),
        ServerPacketModel::Ping => (
            pre,
            Some(spec_encode_client_packet(ClientPacketModel::PingResponse)),
        ),
    }
}

/// What one buffer from the wire does to the client state: undecodable
/// bytes are logged, a well-formed envelope is dispatched by `client_step`.
pub open spec fn client_handle(pre: SharedDataModel, bytes: Seq<u8>) -> (SharedDataModel, Option<Seq<u8>>) {
    match spec_decode_server_packet(bytes) {
        None => (
            SharedDataModel { errors: pre.errors.push(ClientError::DeserializePacket), ..pre },
            None,
        ),
        Some(p) => client_step(pre, p),
    }
}

/// What one read outcome does to the client state: the new state, the
/// planned reply, and whether the reader keeps going. A closed stream or a
/// connection-class error ends the reader with a terminal packet queued;
/// `ConnectionRefused` is distinguished; any other failure is non-terminal:
/// it is logged and the reader continues.
pub open spec fn client_read_step(pre: SharedDataModel, o: ReadOutcomeModel) -> (SharedDataModel, Option<Seq<u8>>, bool) {
    match o {
        ReadOutcomeModel::Data(bytes) => {
            let (post, reply) = client_handle(pre, bytes);
            (post, reply, true)
        },
        ReadOutcomeModel::Closed => (
            SharedDataModel { packets: pre.packets.push(ServerPacketAppModel::Disconnected), ..pre },
            None,
            false,
        ),
        ReadOutcomeModel::Failed(k) => if k == NetErrorKind::ConnectionRefused {
            (
                SharedDataModel { packets: pre.packets.push(ServerPacketAppModel::ConnectionRefused), ..pre },
                None,
                false,
            )
        } else if k.is_connection_class() {
            (
                SharedDataModel { packets: pre.packets.push(ServerPacketAppModel::Disconnected), ..pre },
                None,
                false,
            )
        } else {
            (
                SharedDataModel { errors: pre.errors.push(ClientError::ReadError { kind: k }), ..pre },
                None,
                true,
            )
        },
    }
}

impl SharedData {
    /// Fresh client state: nothing queued, no identity, no errors.
    pub fn new() -> (s: SharedData)
        ensures
            s@ == (SharedDataModel {
                packets: Seq::<ServerPacketAppModel>::empty(),
                id: None::<ClientId>,
                errors: Seq::<ClientError>::empty(),
            }),
    {
        let s = SharedData { packets: VecDeque::new(), id: None, errors: Vec::new() };
        proof {
            assert(s@ =~~= (SharedDataModel {
                packets: Seq::<ServerPacketAppModel>::empty(),
                id: None::<ClientId>,
                errors: Seq::<ClientError>::empty(),
            }));
        }
        s
    }

    /// The identity the server assigned, once `ConnectResponse` arrived.
    pub fn assigned_id(&self) -> (r: Option<ClientId>)
        ensures
            r == self@.id,
    {
        self.id
    }

    /// Queues the terminal `Disconnected` packet.
    pub fn server_disconnected(&mut self)
        ensures
            final(self)@ == (SharedDataModel {
                packets: old(self)@.packets.push(ServerPacketAppModel::Disconnected),
                ..old(self)@
            }),
    {
        self.packets.push_back(ServerPacket::Disconnected);
        proof {
            assert(self@ =~~= (SharedDataModel {
                packets: old(self)@.packets.push(ServerPacketAppModel::Disconnected),
                ..old(self)@
            }));
        }
    }

    /// Queues the terminal `ConnectionRefused` packet.
    pub fn server_refused(&mut self)
        ensures
            final(self)@ == (SharedDataModel {
                packets: old(self)@.packets.push(ServerPacketAppModel::ConnectionRefused),
                ..old(self)@
            }),
    {
        self.packets.push_back(ServerPacket::ConnectionRefused);
        proof {
            assert(self@ =~~= (SharedDataModel {
                packets: old(self)@.packets.push(ServerPacketAppModel::ConnectionRefused),
                ..old(self)@
            }));
        }
    }

    /// Dispatches one decoded server envelope; returns the planned reply.
    pub fn handle_server_packet(&mut self, p: InternalServerPacket) -> (reply: Option<Vec<u8>>)
        ensures
            final(self)@ == client_step(old(self)@, p@).0,
            match reply {
                Some(b) => client_step(old(self)@, p@).1 == Some(b@),
                None => client_step(old(self)@, p@).1 is None,
            },
    {
        let pushed: ServerPacket = match p {
            InternalServerPacket::ConnectResponse(id) => {
                self.id = Some(id);
                ServerPacket::ConnectedSuccessfully
            },
            InternalServerPacket::NewClientConnected(id) => ServerPacket::NewClientConnected(id),
            InternalServerPacket::ClientDisconnected(id) => ServerPacket::ClientDisconnected(id),
            InternalServerPacket::ClientKicked(id) => ServerPacket::ClientKicked(id),
            InternalServerPacket::YouWereKicked => ServerPacket::YouWereKicked,
            InternalServerPacket::ClientToClient(id, m) => ServerPacket::ClientToClientMessage(id, m),
            InternalServerPacket::ServerToClient(m) => ServerPacket::ServerToClientMessage(m),
            InternalServerPacket::Ping => {
                let reply = encode_client_packet(&InternalClientPacket::PingResponse);
                proof {
                    assert(self@ =~~= client_step(old(self)@, p@).0);
                }
                return Some(reply);
            },
        };
        let ghost expected = client_step(old(self)@, p@).0;
        self.packets.push_back(pushed);
        proof {
            assert(self@.packets =~~= expected.packets);
            assert(self@ =~~= expected);
        }
        None
    }

    /// Dispatches one buffer from the wire, logging undecodable bytes.
    pub fn handle_incoming(&mut self, bytes: &[u8]) -> (reply: Option<Vec<u8>>)
        ensures
            final(self)@ == client_handle(old(self)@, bytes@).0,
            match reply {
                Some(b) => client_handle(old(self)@, bytes@).1 == Some(b@),
                None => client_handle(old(self)@, bytes@).1 is None,
            },
    {
        match decode_server_packet(bytes) {
            None => {
                self.errors.push(ClientError::DeserializePacket);
                proof {
                    assert(self@ =~~= client_handle(old(self)@, bytes@).0);
                }
                None
            },
            Some(p) => self.handle_server_packet(p),
        }
    }

    /// Decision core of the reader loop: dispatches one read outcome and
    /// says whether the reader keeps going.
    pub fn handle_read(&mut self, o: ReadOutcome) -> (r: (Option<Vec<u8>>, bool))
        ensures
            final(self)@ == client_read_step(old(self)@, o@).0,
            match r.0 {
                Some(b) => client_read_step(old(self)@, o@).1 == Some(b@),
                None => client_read_step(old(self)@, o@).1 is None,
            },
            r.1 == client_read_step(old(self)@, o@).2,
    {
        match o {
            ReadOutcome::Data(bytes) => {
                let reply = self.handle_incoming(bytes.as_slice());
                (reply, true)
            },
            ReadOutcome::Closed => {
                self.server_disconnected();
                (None, false)
            },
            ReadOutcome::Failed(k) => match k {
                NetErrorKind::ConnectionRefused => {
                    self.server_refused();
                    (None, false)
                },
                NetErrorKind::ConnectionAborted | NetErrorKind::ConnectionReset => {
                    self.server_disconnected();
                    (None, false)
                },
                NetErrorKind::Other => {
                    self.errors.push(ClientError::ReadError { kind: k });
                    proof {
                        assert(self@ =~~= client_read_step(old(self)@, o@).0);
                    }
                    (None, true)
                },
            },
        }
    }

    /// Pops the oldest queued packet, if any.
    pub fn poll_packet(&mut self) -> (r: Option<ServerPacket>)
        ensures
            match r {
                Some(p) => old(self)@.packets.len() > 0 && p@ == old(self)@.packets[0]
                    && final(self)@ == (SharedDataModel {
                        packets: old(self)@.packets.skip(1),
                        ..old(self)@
                    }),
                None => old(self)@.packets.len() == 0 && final(self)@ == old(self)@,
            },
    {
        let r = self.packets.pop_front();
        proof {
            if old(self).packets@.len() > 0 {
                assert(self@.packets =~~= old(self)@.packets.skip(1));
                assert(self@ =~~= (SharedDataModel { packets: old(self)@.packets.skip(1), ..old(self)@ }));
            } else {
                assert(self@ =~~= old(self)@);
            }
        }
        r
    }

    /// Returns and clears the accumulated error log.
    pub fn get_error_log(&mut self) -> (r: Vec<ClientError>)
        ensures
            r@ == old(self)@.errors,
            final(self)@ == (SharedDataModel { errors: Seq::<ClientError>::empty(), ..old(self)@ }),
    {
        let mut out: Vec<ClientError> = Vec::new();
        std::mem::swap(&mut out, &mut self.errors);
        out
    }

    /// Records that a planned reply write failed.
    pub fn record_send_error(&mut self, kind: NetErrorKind)
        ensures
            final(self)@ == (SharedDataModel {
                errors: old(self)@.errors.push(ClientError::SendError { kind }),
                ..old(self)@
            }),
    {
        self.errors.push(ClientError::SendError { kind });
    }
}

/// What the thin client surfaces for one transport event.
#[derive(Clone, PartialEq, Eq, Debug)]
pub enum ClientEvent {
    MsgFromServer(InternalServerPacket),
    FailedToReceiveMsg(NetErrorKind),
    FailedToParseMsg,
    ServerDisconnected,
}

/// Mathematical value of a `ClientEvent`.
#[verifier::ext_equal]
pub enum ClientEventModel {
    MsgFromServer(ServerPacketModel),
    FailedToReceiveMsg(NetErrorKind),
    FailedToParseMsg,
    ServerDisconnected,
}

impl View for ClientEvent {
    type V = ClientEventModel;

    open spec fn view(&self) -> ClientEventModel {
        match self {
            ClientEvent::MsgFromServer(p) => ClientEventModel::MsgFromServer(p@),
            ClientEvent::FailedToReceiveMsg(k) => ClientEventModel::FailedToReceiveMsg(*k),
            ClientEvent::FailedToParseMsg => ClientEventModel::FailedToParseMsg,
            ClientEvent::ServerDisconnected => ClientEventModel::ServerDisconnected,
        }
    }
}

/// The event the client surfaces for one transport event: message bytes are
/// decoded, everything else passes through.
pub open spec fn spec_map_client_event(ev: ClientTransportEventModel) -> ClientEventModel {
    match ev {
        ClientTransportEventModel::NewMsg(data) => match spec_decode_server_packet(data) {
            Some(p) => ClientEventModel::MsgFromServer(p),
            None => ClientEventModel::FailedToParseMsg,
        },
        ClientTransportEventModel::FailedToReceiveMsg(k) => ClientEventModel::FailedToReceiveMsg(k),
        ClientTransportEventModel::ServerDisconnected => ClientEventModel::ServerDisconnected,
    }
}

/// Decodes and relabels one transport event for the application.
pub fn map_client_event(ev: ClientTransportEvent) -> (r: ClientEvent)
    ensures
        r@ == spec_map_client_event(ev@),
{
    match ev {
        ClientTransportEvent::NewMsg(data) => match decode_server_packet(data.as_slice()) {
            Some(p) => ClientEvent::MsgFromServer(p),
            None => ClientEvent::FailedToParseMsg,
        },
        ClientTransportEvent::FailedToReceiveMsg(k) => ClientEvent::FailedToReceiveMsg(k),
        ClientTransportEvent::ServerDisconnected => ClientEvent::ServerDisconnected,
    }
}

/// A client over any transport: polls events and sends typed envelopes.
pub struct Client<T: ClientTransport> {
    transport: T,
}

impl<T: ClientTransport> Client<T> {
    /// Wraps a connected transport.
    pub fn new(transport: T) -> Client<T> {
        Client { transport }
    }

    /// Polls the transport; decodes and relabels at most one event, as
    /// `spec_map_client_event` describes.
    pub fn handle_event(&mut self) -> (r: Option<ClientEvent>)
        ensures
            match r {
                Some(e) => exists|ev: ClientTransportEventModel| e@ == spec_map_client_event(ev),
                None => true,
            },
    {
        match self.transport.receive_event() {
            None => None,
            Some(ev) => {
                let ghost evm = ev@;
                let e = map_client_event(ev);
                proof {
                    assert(e@ == spec_map_client_event(evm));
                }
                Some(e)
            },
        }
    }

    /// Encodes one envelope and hands it to the transport.
    pub fn send(&mut self, msg: &InternalClientPacket)
        requires
            client_packet_payload_len(msg@) <= MAX_MESSAGE_SIZE,
    {
        let data = encode_client_packet(msg);
        proof {
            crate::codec::lemma_encode_client_packet_len(msg@);
        }
        self.transport.send(data.as_slice());
    }
}

} // verus!
