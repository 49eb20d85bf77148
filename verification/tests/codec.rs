use peerlink::{
    decode_client_packet, decode_datagram_msg, decode_server_packet, encode_client_packet,
    encode_datagram_msg, encode_server_packet, DatagramMsg, InternalClientPacket,
    InternalServerPacket, MAX_MESSAGE_SIZE,
};

fn client_round_trip(p: InternalClientPacket) {
    let bytes = encode_client_packet(&p);
    assert_eq!(decode_client_packet(&bytes), Some(p));
}

fn server_round_trip(p: InternalServerPacket) {
    let bytes = encode_server_packet(&p);
    assert_eq!(decode_server_packet(&bytes), Some(p));
}

#[test]
fn client_packet_round_trips() {
    client_round_trip(InternalClientPacket::BroadcastMessage(b"Hello".to_vec()));
    client_round_trip(InternalClientPacket::PersonalMessage(7, b"Hi".to_vec()));
    client_round_trip(InternalClientPacket::ServerMessage(Vec::new()));
    client_round_trip(InternalClientPacket::PingResponse);
}

#[test]
fn server_packet_round_trips() {
    server_round_trip(InternalServerPacket::ConnectResponse(1));
    server_round_trip(InternalServerPacket::NewClientConnected(2));
    server_round_trip(InternalServerPacket::ClientDisconnected(3));
    server_round_trip(InternalServerPacket::ClientKicked(u64::MAX));
    server_round_trip(InternalServerPacket::YouWereKicked);
    server_round_trip(InternalServerPacket::ClientToClient(9, b"payload".to_vec()));
    server_round_trip(InternalServerPacket::ServerToClient(vec![0, 255, 128]));
    server_round_trip(InternalServerPacket::Ping);
}

#[test]
fn datagram_msg_round_trips() {
    let inner = DatagramMsg::InnerMsg(b"abc".to_vec());
    assert_eq!(decode_datagram_msg(&encode_datagram_msg(&inner)), Some(inner));
    let bye = DatagramMsg::Disconnected;
    assert_eq!(decode_datagram_msg(&encode_datagram_msg(&bye)), Some(bye));
}

#[test]
fn broadcast_message_exact_bytes() {
    // Variant tag 0 as 4 little-endian bytes, payload length as 8, then the
    // payload itself, uninterpreted.
    let bytes = encode_client_packet(&InternalClientPacket::BroadcastMessage(b"Hello".to_vec()));
    let expected: Vec<u8> = vec![
        0, 0, 0, 0, // tag
        5, 0, 0, 0, 0, 0, 0, 0, // length
        b'H', b'e', b'l', b'l', b'o',
    ];
    assert_eq!(bytes, expected);
}

#[test]
fn ping_exact_bytes() {
    // Ping is the eighth server variant: tag 7, no fields.
    assert_eq!(encode_server_packet(&InternalServerPacket::Ping), vec![7, 0, 0, 0]);
}

#[test]
fn connect_response_exact_bytes() {
    let bytes = encode_server_packet(&InternalServerPacket::ConnectResponse(0x0102));
    assert_eq!(bytes, vec![0, 0, 0, 0, 2, 1, 0, 0, 0, 0, 0, 0]);
}

#[test]
fn disconnect_sentinel_exact_bytes() {
    assert_eq!(encode_datagram_msg(&DatagramMsg::Disconnected), vec![1, 0, 0, 0]);
}

#[test]
fn decode_rejects_malformed_buffers() {
    // Too short for a tag.
    assert_eq!(decode_client_packet(&[]), None);
    assert_eq!(decode_client_packet(&[0, 0]), None);
    // Unknown tag.
    assert_eq!(decode_client_packet(&[200, 0, 0, 0]), None);
    assert_eq!(decode_server_packet(&[8, 0, 0, 0]), None);
    assert_eq!(decode_datagram_msg(&[2, 0, 0, 0]), None);
    // Length prefix disagrees with the buffer.
    assert_eq!(decode_client_packet(&[0, 0, 0, 0, 9, 0, 0, 0, 0, 0, 0, 0, b'x']), None);
    // Truncated id.
    assert_eq!(decode_server_packet(&[0, 0, 0, 0, 1, 2, 3]), None);
}

#[test]
fn decode_rejects_trailing_bytes() {
    // The format is canonical: one envelope occupies the buffer exactly.
    let mut bytes = encode_client_packet(&InternalClientPacket::PingResponse);
    bytes.push(0);
    assert_eq!(decode_client_packet(&bytes), None);

    let mut bytes = encode_server_packet(&InternalServerPacket::YouWereKicked);
    bytes.push(7);
    assert_eq!(decode_server_packet(&bytes), None);
}

#[test]
fn payload_at_ceiling_is_accepted() {
    // A payload of exactly the documented ceiling passes through intact.
    let payload = vec![0xabu8; MAX_MESSAGE_SIZE];
    let p = InternalClientPacket::BroadcastMessage(payload.clone());
    let bytes = encode_client_packet(&p);
    assert_eq!(bytes.len(), 12 + MAX_MESSAGE_SIZE);
    match decode_client_packet(&bytes) {
        Some(InternalClientPacket::BroadcastMessage(m)) => assert_eq!(m, payload),
        other => panic!("unexpected decode: {:?}", other),
    }
}
