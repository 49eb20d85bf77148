use peerlink::transport::{
    classify_client_read, classify_server_read, ClientTransportEvent, NetErrorKind, ReadOutcome,
    ServerTransportEvent,
};
use peerlink::{
    decode_datagram_msg, disconnect_sentinel, encode_datagram_msg, frame_datagram, DatagramMsg,
    DatagramClientFilter, DatagramServerState, PeerAddr,
};

fn addr(n: u16) -> PeerAddr {
    PeerAddr { ip: 10, port: n }
}

fn inner(data: &[u8]) -> Vec<u8> {
    encode_datagram_msg(&DatagramMsg::InnerMsg(data.to_vec()))
}

#[test]
fn first_sight_synthesizes_connect() {
    // The first datagram from an unseen address manufactures NewClient,
    // then the message; a second datagram emits only the message.
    let mut state = DatagramServerState::new();
    let evs = state.handle_datagram(addr(1), &inner(b"one"));
    assert_eq!(evs.len(), 2);
    assert!(matches!(evs[0], ServerTransportEvent::NewClient(a) if a == addr(1)));
    match &evs[1] {
        ServerTransportEvent::NewMsg(m) => {
            assert_eq!(m.sender_address, addr(1));
            assert_eq!(m.data, b"one".to_vec());
        },
        other => panic!("expected NewMsg, got {:?}", other),
    }

    let evs = state.handle_datagram(addr(1), &inner(b"two"));
    assert_eq!(evs.len(), 1);
    assert!(matches!(&evs[0], ServerTransportEvent::NewMsg(_)));
}

#[test]
fn sentinel_disconnects_and_readmits() {
    let mut state = DatagramServerState::new();
    state.handle_datagram(addr(1), &inner(b"hello"));

    let evs = state.handle_datagram(addr(1), &disconnect_sentinel());
    assert_eq!(evs.len(), 1);
    assert!(matches!(evs[0], ServerTransportEvent::ClientDisconnected(a) if a == addr(1)));

    // The address was dropped: its next datagram is a first sight again.
    let evs = state.handle_datagram(addr(1), &inner(b"back"));
    assert_eq!(evs.len(), 2);
    assert!(matches!(evs[0], ServerTransportEvent::NewClient(_)));
}

#[test]
fn lost_sentinel_leaves_peer_connected() {
    // If the closing sentinel never arrives, the server still knows the
    // address: a later message produces no duplicate NewClient.
    let mut state = DatagramServerState::new();
    state.handle_datagram(addr(7), &inner(b"first"));
    // The peer goes away silently; no sentinel is processed.
    let evs = state.handle_datagram(addr(7), &inner(b"after silence"));
    assert_eq!(evs.len(), 1);
    assert!(matches!(&evs[0], ServerTransportEvent::NewMsg(_)));
}

#[test]
fn undecodable_datagram_is_a_receive_failure() {
    let mut state = DatagramServerState::new();
    let evs = state.handle_datagram(addr(3), &[0xff, 0xee]);
    assert_eq!(evs.len(), 2);
    assert!(matches!(evs[0], ServerTransportEvent::NewClient(_)));
    assert!(matches!(evs[1], ServerTransportEvent::FailedToReceiveMsg(NetErrorKind::Other)));
}

#[test]
fn client_filter_drops_strays() {
    let filter = DatagramClientFilter::new(vec![addr(1)]);
    assert_eq!(filter.handle_datagram(addr(2), &inner(b"stray")), None);
    assert_eq!(
        filter.handle_datagram(addr(1), &inner(b"srv")),
        Some(ClientTransportEvent::NewMsg(b"srv".to_vec()))
    );
    assert_eq!(
        filter.handle_datagram(addr(1), &disconnect_sentinel()),
        Some(ClientTransportEvent::ServerDisconnected)
    );
    assert_eq!(
        filter.handle_datagram(addr(1), &[1, 2]),
        Some(ClientTransportEvent::FailedToReceiveMsg(NetErrorKind::Other))
    );
}

#[test]
fn framing_round_trips() {
    let framed = frame_datagram(b"payload");
    assert_eq!(decode_datagram_msg(&framed), Some(DatagramMsg::InnerMsg(b"payload".to_vec())));
    assert_eq!(decode_datagram_msg(&disconnect_sentinel()), Some(DatagramMsg::Disconnected));
}

#[test]
fn stream_read_classification() {
    let (ev, keep_going) = classify_client_read(ReadOutcome::Data(b"x".to_vec()));
    assert_eq!(ev, ClientTransportEvent::NewMsg(b"x".to_vec()));
    assert!(keep_going);

    let (ev, keep_going) = classify_client_read(ReadOutcome::Closed);
    assert_eq!(ev, ClientTransportEvent::ServerDisconnected);
    assert!(!keep_going);

    let (ev, keep_going) = classify_client_read(ReadOutcome::Failed(NetErrorKind::ConnectionAborted));
    assert_eq!(ev, ClientTransportEvent::ServerDisconnected);
    assert!(!keep_going);

    let (ev, keep_going) = classify_client_read(ReadOutcome::Failed(NetErrorKind::Other));
    assert_eq!(ev, ClientTransportEvent::FailedToReceiveMsg(NetErrorKind::Other));
    assert!(keep_going);

    let (ev, keep_going) = classify_server_read(addr(1), ReadOutcome::Closed);
    assert!(matches!(ev, ServerTransportEvent::ClientDisconnected(a) if a == addr(1)));
    assert!(!keep_going);

    let (ev, keep_going) = classify_server_read(addr(1), ReadOutcome::Data(b"d".to_vec()));
    assert!(keep_going);
    match ev {
        ServerTransportEvent::NewMsg(m) => {
            assert_eq!(m.sender_address, addr(1));
            assert_eq!(m.data, b"d".to_vec());
        },
        other => panic!("expected NewMsg, got {:?}", other),
    }
}
