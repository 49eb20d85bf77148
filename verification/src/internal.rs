use vstd::prelude::*;
use crate::packets::{ClientId, RawMessageData};

verus! {

/// Envelopes a client sends to the server.
#[derive(Clone, PartialEq, Eq, Debug)]
pub enum InternalClientPacket {
    /// Payload to forward to every other client.
    BroadcastMessage(RawMessageData),
    /// (target client, payload): forwarded to that client alone.
    PersonalMessage(ClientId, RawMessageData),
    /// Payload for the server itself; not forwarded.
    ServerMessage(RawMessageData),
    /// Acknowledges a `Ping`; the server turns it into a round-trip sample.
    PingResponse,
}

/// Envelopes the server sends to a client.
#[derive(Clone, PartialEq, Eq, Debug)]
pub enum InternalServerPacket {
    /// Tells the newly accepted peer its assigned id.
    ConnectResponse(ClientId),
    NewClientConnected(ClientId),
    ClientDisconnected(ClientId),
    ClientKicked(ClientId),
    YouWereKicked,
    /// (author, payload): a message relayed from another client.
    ClientToClient(ClientId, RawMessageData),
    ServerToClient(RawMessageData),
    /// Liveness probe; the client answers with `PingResponse`.
    Ping,
}

/// Framing envelope of the datagram transport: every datagram carries one.
/// The `Disconnected` sentinel stands in for the teardown that a
/// connectionless carrier lacks.
#[derive(Clone, PartialEq, Eq, Debug)]
pub enum DatagramMsg {
    InnerMsg(Vec<u8>),
    Disconnected,
}

/// Mathematical value of a `DatagramMsg`.
#[verifier::ext_equal]
pub enum DatagramMsgModel {
    InnerMsg(Seq<u8>),
    Disconnected,
}

impl View for DatagramMsg {
    type V = DatagramMsgModel;

    open spec fn view(&self) -> DatagramMsgModel {
        match self {
            DatagramMsg::InnerMsg(m) => DatagramMsgModel::InnerMsg(m@),
            DatagramMsg::Disconnected => DatagramMsgModel::Disconnected,
        }
    }
}

/// Mathematical value of an `InternalClientPacket`: payloads as sequences.
#[verifier::ext_equal]
pub enum ClientPacketModel {
    BroadcastMessage(Seq<u8>),
    PersonalMessage(ClientId, Seq<u8>),
    ServerMessage(Seq<u8>),
    PingResponse,
}

/// Mathematical value of an `InternalServerPacket`.
#[verifier::ext_equal]
pub enum ServerPacketModel {
    ConnectResponse(ClientId),
    NewClientConnected(ClientId),
    ClientDisconnected(ClientId),
    ClientKicked(ClientId),
    YouWereKicked,
    ClientToClient(ClientId, Seq<u8>),
    ServerToClient(Seq<u8>),
    Ping,
}

impl View for InternalClientPacket {
    type V = ClientPacketModel;

    open spec fn view(&self) -> ClientPacketModel {
        match self {
            InternalClientPacket::BroadcastMessage(m) => ClientPacketModel::BroadcastMessage(m@),
            InternalClientPacket::PersonalMessage(id, m) => ClientPacketModel::PersonalMessage(*id, m@),
            InternalClientPacket::ServerMessage(m) => ClientPacketModel::ServerMessage(m@),
            InternalClientPacket::PingResponse => ClientPacketModel::PingResponse,
        }
    }
}

impl View for InternalServerPacket {
    type V = ServerPacketModel;

    open spec fn view(&self) -> ServerPacketModel {
        match self {
            InternalServerPacket::ConnectResponse(id) => ServerPacketModel::ConnectResponse(*id),
            InternalServerPacket::NewClientConnected(id) => ServerPacketModel::NewClientConnected(*id),
            InternalServerPacket::ClientDisconnected(id) => ServerPacketModel::ClientDisconnected(*id),
            InternalServerPacket::ClientKicked(id) => ServerPacketModel::ClientKicked(*id),
            InternalServerPacket::YouWereKicked => ServerPacketModel::YouWereKicked,
            InternalServerPacket::ClientToClient(id, m) => ServerPacketModel::ClientToClient(*id, m@),
            InternalServerPacket::ServerToClient(m) => ServerPacketModel::ServerToClient(m@),
            InternalServerPacket::Ping => ServerPacketModel::Ping,
        }
    }
}

} // verus!
