use peerlink::transport::{NetErrorKind, ServerTransportEvent, TransportMsg};
use peerlink::{
    decode_server_packet, encode_client_packet, AppPacket, InternalClientPacket,
    InternalServerPacket, Outbound, PeerAddr, Server, ServerError, ServerEvent,
};

fn addr(n: u16) -> PeerAddr {
    PeerAddr { ip: 0x7f00_0001, port: n }
}

fn connect(server: &mut Server, a: PeerAddr) -> (u64, Vec<Outbound>) {
    let (ev, out) = server.receive_event(ServerTransportEvent::NewClient(a), 0);
    match ev {
        Some(ServerEvent::NewClient(id)) => (id, out),
        other => panic!("expected NewClient, got {:?}", other),
    }
}

fn msg_from(server: &mut Server, a: PeerAddr, pkt: &InternalClientPacket, now: u64) -> (Option<ServerEvent>, Vec<Outbound>) {
    let data = encode_client_packet(pkt);
    server.receive_event(
        ServerTransportEvent::NewMsg(TransportMsg { sender_address: a, data }),
        now,
    )
}

#[test]
fn stream_round_trip() {
    // One client connects and broadcasts a greeting: the server sees
    // exactly its connection and then the message, nothing else.
    let mut server = Server::new();
    let (id, out) = connect(&mut server, addr(5000));
    assert_eq!(id, 0);
    // The new peer is told its id; nobody else exists to notify.
    assert_eq!(out.len(), 1);
    assert_eq!(out[0].address, addr(5000));
    assert_eq!(
        decode_server_packet(&out[0].bytes),
        Some(InternalServerPacket::ConnectResponse(0))
    );

    let (ev, out) = msg_from(&mut server, addr(5000), &InternalClientPacket::BroadcastMessage(b"Hello".to_vec()), 1);
    assert!(ev.is_some());
    // No other peer: the broadcast fans out to nobody.
    assert_eq!(out.len(), 0);

    assert_eq!(server.poll_packet(), Some(AppPacket::Connected { author: 0 }));
    assert_eq!(
        server.poll_packet(),
        Some(AppPacket::ClientToClient { author: 0, payload: b"Hello".to_vec() })
    );
    assert_eq!(server.poll_packet(), None);
}

#[test]
fn connect_announces_to_others() {
    let mut server = Server::new();
    let (a_id, _) = connect(&mut server, addr(1));
    let (b_id, out) = connect(&mut server, addr(2));
    assert_eq!((a_id, b_id), (0, 1));
    // The second accept tells the newcomer its id and announces it to the
    // first peer.
    assert_eq!(out.len(), 2);
    assert_eq!(out[0].address, addr(2));
    assert_eq!(decode_server_packet(&out[0].bytes), Some(InternalServerPacket::ConnectResponse(1)));
    assert_eq!(out[1].address, addr(1));
    assert_eq!(
        decode_server_packet(&out[1].bytes),
        Some(InternalServerPacket::NewClientConnected(1))
    );
}

#[test]
fn two_clients_targeted_message() {
    // A sends a personal message to B: exactly one forward, to B's
    // address, carrying the payload byte-for-byte; the server logs the
    // exchange in its own queue.
    let mut server = Server::new();
    let (a_id, _) = connect(&mut server, addr(1));
    let (b_id, _) = connect(&mut server, addr(2));
    server.poll_packet();
    server.poll_packet();

    let (ev, out) = msg_from(&mut server, addr(1), &InternalClientPacket::PersonalMessage(b_id, b"Hi".to_vec()), 5);
    assert!(ev.is_some());
    assert_eq!(out.len(), 1);
    assert_eq!(out[0].address, addr(2));
    assert_eq!(
        decode_server_packet(&out[0].bytes),
        Some(InternalServerPacket::ClientToClient(a_id, b"Hi".to_vec()))
    );
    assert_eq!(
        server.poll_packet(),
        Some(AppPacket::ClientToClient { author: a_id, payload: b"Hi".to_vec() })
    );
    assert_eq!(server.poll_packet(), None);
}

#[test]
fn broadcast_skips_author() {
    // A broadcast from one peer reaches every other peer exactly once and
    // never its author.
    let mut server = Server::new();
    connect(&mut server, addr(1));
    connect(&mut server, addr(2));
    connect(&mut server, addr(3));

    let (_, out) = msg_from(&mut server, addr(2), &InternalClientPacket::BroadcastMessage(b"all".to_vec()), 9);
    let targets: Vec<PeerAddr> = out.iter().map(|o| o.address).collect();
    assert_eq!(targets, vec![addr(1), addr(3)]);
    for o in &out {
        assert_eq!(
            decode_server_packet(&o.bytes),
            Some(InternalServerPacket::ClientToClient(1, b"all".to_vec()))
        );
    }
}

#[test]
fn broadcast_all_and_broadcast_with_exclusion() {
    let mut server = Server::new();
    connect(&mut server, addr(1));
    connect(&mut server, addr(2));
    connect(&mut server, addr(3));

    let out = server.broadcast_all(b"news");
    let targets: Vec<PeerAddr> = out.iter().map(|o| o.address).collect();
    assert_eq!(targets, vec![addr(1), addr(2), addr(3)]);
    for o in &out {
        assert_eq!(
            decode_server_packet(&o.bytes),
            Some(InternalServerPacket::ServerToClient(b"news".to_vec()))
        );
    }

    let out = server.broadcast(b"news", 1);
    let targets: Vec<PeerAddr> = out.iter().map(|o| o.address).collect();
    assert_eq!(targets, vec![addr(1), addr(3)]);
}

#[test]
fn send_to_unknown_id_is_invalid() {
    let mut server = Server::new();
    connect(&mut server, addr(1));
    match server.send_to(42, b"x") {
        Err(ServerError::InvalidClientId { id }) => assert_eq!(id, 42),
        other => panic!("expected InvalidClientId, got {:?}", other),
    }
    let ok = server.send_to(0, b"x").unwrap();
    assert_eq!(ok.address, addr(1));
    assert_eq!(
        decode_server_packet(&ok.bytes),
        Some(InternalServerPacket::ServerToClient(b"x".to_vec()))
    );
}

#[test]
fn kick_removes_peer_and_notifies() {
    let mut server = Server::new();
    connect(&mut server, addr(1));
    let (victim, _) = connect(&mut server, addr(2));

    let out = server.kick(victim);
    assert_eq!(out.len(), 2);
    assert_eq!(out[0].address, addr(2));
    assert_eq!(decode_server_packet(&out[0].bytes), Some(InternalServerPacket::YouWereKicked));
    assert_eq!(out[1].address, addr(1));
    assert_eq!(
        decode_server_packet(&out[1].bytes),
        Some(InternalServerPacket::ClientKicked(victim))
    );
    assert_eq!(server.list_clients(), vec![0]);
    assert_eq!(server.get_client_address(victim), None);
}

#[test]
fn kick_absent_id_has_no_effect() {
    let mut server = Server::new();
    connect(&mut server, addr(1));
    let out = server.kick(99);
    assert_eq!(out.len(), 0);
    assert_eq!(server.list_clients(), vec![0]);
    assert_eq!(server.get_error_log(), Vec::new());
}

#[test]
fn ping_cycle_measures_round_trip() {
    let mut server = Server::new();
    connect(&mut server, addr(1));
    server.set_ping_interval(100);

    // The first pass always pings.
    let out = server.update(1000);
    assert_eq!(out.len(), 1);
    assert_eq!(out[0].address, addr(1));
    assert_eq!(decode_server_packet(&out[0].bytes), Some(InternalServerPacket::Ping));

    // While the ping is pending and young, no new ping leaves.
    assert_eq!(server.update(1050).len(), 0);

    // The pong arrives 40 units later: the estimate is half the elapsed
    // time, and the pending timestamp is consumed.
    msg_from(&mut server, addr(1), &InternalClientPacket::PingResponse, 1040);
    assert_eq!(server.get_ping(0), Some(20));
}

#[test]
fn disabled_ping_emits_nothing() {
    let mut server = Server::new();
    connect(&mut server, addr(1));
    assert_eq!(server.update(500).len(), 0);
    server.set_ping_interval(10);
    assert_eq!(server.update(600).len(), 1);
    server.disable_ping();
    assert_eq!(server.update(700).len(), 0);
    assert_eq!(server.update(100_000).len(), 0);
}

#[test]
fn disconnect_announces_and_forgets() {
    let mut server = Server::new();
    connect(&mut server, addr(1));
    connect(&mut server, addr(2));
    server.poll_packet();
    server.poll_packet();

    let (ev, out) = server.receive_event(ServerTransportEvent::ClientDisconnected(addr(1)), 10);
    assert_eq!(
        match ev {
            Some(ServerEvent::ClientDisconnected(id)) => id,
            other => panic!("expected ClientDisconnected, got {:?}", other),
        },
        0
    );
    assert_eq!(out.len(), 1);
    assert_eq!(out[0].address, addr(2));
    assert_eq!(
        decode_server_packet(&out[0].bytes),
        Some(InternalServerPacket::ClientDisconnected(0))
    );
    assert_eq!(server.poll_packet(), Some(AppPacket::Disconnected { author: 0 }));
    assert_eq!(server.list_clients(), vec![1]);
}

#[test]
fn reconnect_gets_fresh_id() {
    // Ids are never reused within one server lifetime: the same address
    // returning after a disconnect is a new peer under a new id.
    let mut server = Server::new();
    let (first, _) = connect(&mut server, addr(1));
    server.receive_event(ServerTransportEvent::ClientDisconnected(addr(1)), 1);
    let (second, _) = connect(&mut server, addr(1));
    assert_eq!(first, 0);
    assert_eq!(second, 1);
}

#[test]
fn undecodable_bytes_are_logged_against_sender() {
    let mut server = Server::new();
    connect(&mut server, addr(1));
    let (ev, out) = server.receive_event(
        ServerTransportEvent::NewMsg(TransportMsg { sender_address: addr(1), data: vec![9, 9] }),
        0,
    );
    assert_eq!(
        match ev {
            Some(ServerEvent::FailedToParseMsg(id)) => id,
            other => panic!("expected FailedToParseMsg, got {:?}", other),
        },
        0
    );
    assert_eq!(out.len(), 0);
    assert_eq!(server.get_error_log(), vec![ServerError::DeserializePacket { peer_id: 0 }]);
}

#[test]
fn failures_populate_error_log() {
    let mut server = Server::new();
    server.receive_event(ServerTransportEvent::FailedToReceiveMsg(NetErrorKind::Other), 0);
    server.receive_event(
        ServerTransportEvent::FailedToAcceptConnection(NetErrorKind::ConnectionReset),
        0,
    );
    server.record_send_error(3, NetErrorKind::ConnectionAborted);
    assert_eq!(
        server.get_error_log(),
        vec![
            ServerError::ReadError { kind: NetErrorKind::Other },
            ServerError::ErrorAcceptingConnection { kind: NetErrorKind::ConnectionReset },
            ServerError::SendError { peer_id: 3, kind: NetErrorKind::ConnectionAborted },
        ]
    );
    // Draining clears the log.
    assert_eq!(server.get_error_log(), Vec::new());
}

#[test]
fn personal_message_to_unknown_target_logs_invalid_id() {
    let mut server = Server::new();
    connect(&mut server, addr(1));
    let (_, out) = msg_from(&mut server, addr(1), &InternalClientPacket::PersonalMessage(77, b"x".to_vec()), 0);
    assert_eq!(out.len(), 0);
    assert_eq!(server.get_error_log(), vec![ServerError::InvalidClientId { id: 77 }]);
}

#[test]
fn server_message_is_not_forwarded() {
    let mut server = Server::new();
    connect(&mut server, addr(1));
    connect(&mut server, addr(2));
    server.poll_packet();
    server.poll_packet();
    let (_, out) = msg_from(&mut server, addr(1), &InternalClientPacket::ServerMessage(b"admin".to_vec()), 0);
    assert_eq!(out.len(), 0);
    assert_eq!(
        server.poll_packet(),
        Some(AppPacket::ClientToServer { author: 0, payload: b"admin".to_vec() })
    );
}

#[test]
fn address_hash_is_deterministic() {
    let a = addr(9000);
    let b = PeerAddr { ip: 0x7f00_0001, port: 9001 };
    let h1 = Server::client_id_from_address(a);
    let h2 = Server::client_id_from_address(a);
    let h3 = Server::client_id_from_address(b);
    assert_eq!(h1, h2);
    assert_ne!(h1, h3);
}
