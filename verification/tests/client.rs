use peerlink::transport::{ClientTransport, ClientTransportEvent, NetErrorKind, ReadOutcome};
use peerlink::{
    decode_client_packet, encode_server_packet, Client, ClientError, ClientEvent,
    InternalClientPacket, InternalServerPacket, ServerPacket, SharedData,
};
use std::cell::RefCell;
use std::rc::Rc;

#[test]
fn dispatch_connect_response_assigns_id() {
    let mut shared = SharedData::new();
    assert_eq!(shared.assigned_id(), None);
    let reply = shared.handle_server_packet(InternalServerPacket::ConnectResponse(4));
    assert_eq!(reply, None);
    assert_eq!(shared.assigned_id(), Some(4));
    assert_eq!(shared.poll_packet(), Some(ServerPacket::ConnectedSuccessfully));
    assert_eq!(shared.poll_packet(), None);
}

#[test]
fn dispatch_maps_every_variant() {
    let mut shared = SharedData::new();
    shared.handle_server_packet(InternalServerPacket::NewClientConnected(1));
    shared.handle_server_packet(InternalServerPacket::ClientDisconnected(2));
    shared.handle_server_packet(InternalServerPacket::ClientKicked(3));
    shared.handle_server_packet(InternalServerPacket::YouWereKicked);
    shared.handle_server_packet(InternalServerPacket::ClientToClient(5, b"hi".to_vec()));
    shared.handle_server_packet(InternalServerPacket::ServerToClient(b"sc".to_vec()));
    assert_eq!(shared.poll_packet(), Some(ServerPacket::NewClientConnected(1)));
    assert_eq!(shared.poll_packet(), Some(ServerPacket::ClientDisconnected(2)));
    assert_eq!(shared.poll_packet(), Some(ServerPacket::ClientKicked(3)));
    assert_eq!(shared.poll_packet(), Some(ServerPacket::YouWereKicked));
    assert_eq!(shared.poll_packet(), Some(ServerPacket::ClientToClientMessage(5, b"hi".to_vec())));
    assert_eq!(shared.poll_packet(), Some(ServerPacket::ServerToClientMessage(b"sc".to_vec())));
    assert_eq!(shared.poll_packet(), None);
}

#[test]
fn ping_is_answered_with_pong() {
    let mut shared = SharedData::new();
    let reply = shared.handle_server_packet(InternalServerPacket::Ping);
    let bytes = reply.expect("a ping plans a reply");
    assert_eq!(decode_client_packet(&bytes), Some(InternalClientPacket::PingResponse));
    // The ping itself never reaches the application queue.
    assert_eq!(shared.poll_packet(), None);
}

#[test]
fn incoming_garbage_is_logged() {
    let mut shared = SharedData::new();
    let reply = shared.handle_incoming(&[1, 2, 3]);
    assert_eq!(reply, None);
    assert_eq!(shared.get_error_log(), vec![ClientError::DeserializePacket]);
    assert_eq!(shared.get_error_log(), Vec::new());
}

#[test]
fn read_outcomes_classification() {
    let mut shared = SharedData::new();
    let (reply, keep_going) = shared.handle_read(ReadOutcome::Closed);
    assert_eq!(reply, None);
    assert!(!keep_going);
    assert_eq!(shared.poll_packet(), Some(ServerPacket::Disconnected));

    let mut shared = SharedData::new();
    let (_, keep_going) = shared.handle_read(ReadOutcome::Failed(NetErrorKind::ConnectionRefused));
    assert!(!keep_going);
    assert_eq!(shared.poll_packet(), Some(ServerPacket::ConnectionRefused));

    let mut shared = SharedData::new();
    let (_, keep_going) = shared.handle_read(ReadOutcome::Failed(NetErrorKind::ConnectionReset));
    assert!(!keep_going);
    assert_eq!(shared.poll_packet(), Some(ServerPacket::Disconnected));

    // A failure outside the connection class is non-terminal: it is logged
    // and the reader keeps going.
    let mut shared = SharedData::new();
    let (_, keep_going) = shared.handle_read(ReadOutcome::Failed(NetErrorKind::Other));
    assert!(keep_going);
    assert_eq!(shared.poll_packet(), None);
    assert_eq!(shared.get_error_log(), vec![ClientError::ReadError { kind: NetErrorKind::Other }]);
}

#[test]
fn read_data_dispatches_and_continues() {
    let mut shared = SharedData::new();
    let bytes = encode_server_packet(&InternalServerPacket::ServerToClient(b"news".to_vec()));
    let (reply, keep_going) = shared.handle_read(ReadOutcome::Data(bytes));
    assert_eq!(reply, None);
    assert!(keep_going);
    assert_eq!(shared.poll_packet(), Some(ServerPacket::ServerToClientMessage(b"news".to_vec())));
}

#[test]
fn terminal_packets_can_be_queued_directly() {
    let mut shared = SharedData::new();
    shared.server_disconnected();
    shared.server_refused();
    shared.record_send_error(NetErrorKind::ConnectionAborted);
    assert_eq!(shared.poll_packet(), Some(ServerPacket::Disconnected));
    assert_eq!(shared.poll_packet(), Some(ServerPacket::ConnectionRefused));
    assert_eq!(
        shared.get_error_log(),
        vec![ClientError::SendError { kind: NetErrorKind::ConnectionAborted }]
    );
}

/// A scripted transport: surfaces pre-arranged events and records sends.
struct ScriptedTransport {
    events: Vec<ClientTransportEvent>,
    sent: Rc<RefCell<Vec<Vec<u8>>>>,
}

impl ClientTransport for ScriptedTransport {
    fn receive_event(&mut self) -> Option<ClientTransportEvent> {
        if self.events.is_empty() {
            None
        } else {
            Some(self.events.remove(0))
        }
    }

    fn send(&mut self, data: &[u8]) {
        self.sent.borrow_mut().push(data.to_vec());
    }
}

#[test]
fn thin_client_decodes_events() {
    let sent = Rc::new(RefCell::new(Vec::new()));
    let transport = ScriptedTransport {
        events: vec![
            ClientTransportEvent::NewMsg(encode_server_packet(&InternalServerPacket::Ping)),
            ClientTransportEvent::NewMsg(vec![9, 9, 9]),
            ClientTransportEvent::FailedToReceiveMsg(NetErrorKind::Other),
            ClientTransportEvent::ServerDisconnected,
        ],
        sent: Rc::clone(&sent),
    };
    let mut client = Client::new(transport);
    assert_eq!(client.handle_event(), Some(ClientEvent::MsgFromServer(InternalServerPacket::Ping)));
    assert_eq!(client.handle_event(), Some(ClientEvent::FailedToParseMsg));
    assert_eq!(
        client.handle_event(),
        Some(ClientEvent::FailedToReceiveMsg(NetErrorKind::Other))
    );
    assert_eq!(client.handle_event(), Some(ClientEvent::ServerDisconnected));
    assert_eq!(client.handle_event(), None);
}

#[test]
fn thin_client_send_writes_one_envelope() {
    let sent = Rc::new(RefCell::new(Vec::new()));
    let transport = ScriptedTransport { events: Vec::new(), sent: Rc::clone(&sent) };
    let mut client = Client::new(transport);
    client.send(&InternalClientPacket::ServerMessage(b"stat".to_vec()));
    let written = sent.borrow();
    assert_eq!(written.len(), 1);
    assert_eq!(
        decode_client_packet(&written[0]),
        Some(InternalClientPacket::ServerMessage(b"stat".to_vec()))
    );
}
