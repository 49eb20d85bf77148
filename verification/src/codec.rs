//! Wire codec for the envelope types: a variant-tagged binary format with
//! little-endian integer widths. Layout of one envelope:
//! a 4-byte little-endian variant tag (numbered in declaration order),
//! then the variant's fields: a client id as 8 little-endian bytes, a byte
//! payload as an 8-byte little-endian length followed by the bytes.
//! Decoding demands that the buffer hold exactly one envelope, so every
//! byte sequence is the encoding of at most one envelope.

use vstd::prelude::*;
use vstd::bytes::*;
use crate::internal::{InternalClientPacket, InternalServerPacket, DatagramMsg, ClientPacketModel, ServerPacketModel, DatagramMsgModel};

verus! {

/// A client id on the wire: 8 little-endian bytes.
pub open spec fn spec_enc_id(id: u64) -> Seq<u8> {
    spec_u64_to_le_bytes(id)
}

/// A byte payload on the wire: 8-byte little-endian length, then the bytes.
pub open spec fn spec_enc_payload(m: Seq<u8>) -> Seq<u8> {
    spec_u64_to_le_bytes(m.len() as u64) + m
}

/// Reads a payload that must fill the rest of the buffer exactly.
pub open spec fn spec_dec_payload(rest: Seq<u8>) -> Option<Seq<u8>> {
    if rest.len() >= 8 && spec_u64_from_le_bytes(rest.subrange(0, 8)) == rest.len() - 8 {
        Some(rest.skip(8))
    } else {
        None
    }
}

/// Reads a client id that must fill the rest of the buffer exactly.
pub open spec fn spec_dec_id(rest: Seq<u8>) -> Option<u64> {
    if rest.len() == 8 {
        Some(spec_u64_from_le_bytes(rest))
    } else {
        None
    }
}

/// Reads a client id followed by a payload filling the rest exactly.
pub open spec fn spec_dec_id_payload(rest: Seq<u8>) -> Option<(u64, Seq<u8>)> {
    if rest.len() >= 16 && spec_u64_from_le_bytes(rest.subrange(8, 16)) == rest.len() - 16 {
        Some((spec_u64_from_le_bytes(rest.subrange(0, 8)), rest.skip(16)))
    } else {
        None
    }
}

pub open spec fn spec_encode_client_packet(p: ClientPacketModel) -> Seq<u8> {
    match p {
        ClientPacketModel::BroadcastMessage(m) => spec_u32_to_le_bytes(0) + spec_enc_payload(m),
        ClientPacketModel::PersonalMessage(id, m) => spec_u32_to_le_bytes(1) + spec_enc_id(id) + spec_enc_payload(m),
        ClientPacketModel::ServerMessage(m) => spec_u32_to_le_bytes(2) + spec_enc_payload(m),
        ClientPacketModel::PingResponse => spec_u32_to_le_bytes(3),
    }
}

pub open spec fn spec_decode_client_packet(b: Seq<u8>) -> Option<ClientPacketModel> {
    if b.len() < 4 {
        None
    } else {
        let tag = spec_u32_from_le_bytes(b.subrange(0, 4));
        let rest = b.skip(4);
        if tag == 0 {
            match spec_dec_payload(rest) {
                Some(m) => Some(ClientPacketModel::BroadcastMessage(m)),
                None => None,
            }
        } else if tag == 1 {
            match spec_dec_id_payload(rest) {
                Some((id, m)) => Some(ClientPacketModel::PersonalMessage(id, m)),
                None => None,
            }
        } else if tag == 2 {
            match spec_dec_payload(rest) {
                Some(m) => Some(ClientPacketModel::ServerMessage(m)),
                None => None,
            }
        } else if tag == 3 {
            if rest.len() == 0 {
                Some(ClientPacketModel::PingResponse)
            } else {
                None
            }
        } else {
            None
        }
    }
}

/// Decoding a payload undoes encoding it.
proof fn lemma_payload_round_trip(m: Seq<u8>)
    requires
        m.len() <= u64::MAX,
    ensures
        spec_dec_payload(spec_enc_payload(m)) == Some(m),
{
    lemma_auto_spec_u64_to_from_le_bytes();
    let e = spec_enc_payload(m);
    assert(e.subrange(0, 8) =~= spec_u64_to_le_bytes(m.len() as u64));
    assert(e.skip(8) =~= m);
}

/// A successfully decoded payload re-encodes to the same bytes.
proof fn lemma_payload_canonical(rest: Seq<u8>, m: Seq<u8>)
    requires
        spec_dec_payload(rest) == Some(m),
    ensures
        spec_enc_payload(m) == rest,
        m.len() <= u64::MAX,
{
    lemma_auto_spec_u64_to_from_le_bytes();
    assert(spec_u64_to_le_bytes(spec_u64_from_le_bytes(rest.subrange(0, 8))) == rest.subrange(0, 8));
    assert(spec_enc_payload(m) =~= rest);
}

proof fn lemma_id_payload_round_trip(id: u64, m: Seq<u8>)
    requires
        m.len() <= u64::MAX,
    ensures
        spec_dec_id_payload(spec_enc_id(id) + spec_enc_payload(m)) == Some((id, m)),
{
    lemma_auto_spec_u64_to_from_le_bytes();
    let e = spec_enc_id(id) + spec_enc_payload(m);
    assert(e.subrange(0, 8) =~= spec_u64_to_le_bytes(id));
    assert(e.subrange(8, 16) =~= spec_u64_to_le_bytes(m.len() as u64));
    assert(e.skip(16) =~= m);
}

proof fn lemma_id_payload_canonical(rest: Seq<u8>, id: u64, m: Seq<u8>)
    requires
        spec_dec_id_payload(rest) == Some((id, m)),
    ensures
        spec_enc_id(id) + spec_enc_payload(m) == rest,
        m.len() <= u64::MAX,
{
    lemma_auto_spec_u64_to_from_le_bytes();
    assert(spec_u64_to_le_bytes(spec_u64_from_le_bytes(rest.subrange(0, 8))) == rest.subrange(0, 8));
    assert(spec_u64_to_le_bytes(spec_u64_from_le_bytes(rest.subrange(8, 16))) == rest.subrange(8, 16));
    assert(spec_enc_id(id) + spec_enc_payload(m) =~= rest);
}

/// Every payload a client packet carries, for bounding lemmas.
pub open spec fn client_packet_payload_len(p: ClientPacketModel) -> nat {
    match p {
        ClientPacketModel::BroadcastMessage(m) => m.len(),
        ClientPacketModel::PersonalMessage(_, m) => m.len(),
        ClientPacketModel::ServerMessage(m) => m.len(),
        ClientPacketModel::PingResponse => 0,
    }
}

/// An encoded client envelope is at most 20 bytes of framing plus its
/// payload: enough to bound what reaches a transport.
pub proof fn lemma_encode_client_packet_len(p: ClientPacketModel)
    ensures
        spec_encode_client_packet(p).len() <= 20 + client_packet_payload_len(p),
{
    lemma_auto_spec_u32_to_from_le_bytes();
    lemma_auto_spec_u64_to_from_le_bytes();
}

/// An encoded server envelope is at most 20 bytes of framing plus its
/// payload.
pub proof fn lemma_encode_server_packet_len(p: ServerPacketModel)
    ensures
        spec_encode_server_packet(p).len() <= 20 + server_packet_payload_len(p),
{
    lemma_auto_spec_u32_to_from_le_bytes();
    lemma_auto_spec_u64_to_from_le_bytes();
}

/// An encoded datagram envelope is at most 12 bytes of framing plus its
/// payload.
pub proof fn lemma_encode_datagram_msg_len(p: DatagramMsgModel)
    ensures
        spec_encode_datagram_msg(p).len() <= 12 + match p {
            DatagramMsgModel::InnerMsg(m) => m.len(),
            DatagramMsgModel::Disconnected => 0,
        },
{
    lemma_auto_spec_u32_to_from_le_bytes();
    lemma_auto_spec_u64_to_from_le_bytes();
}

/// Decoding undoes encoding: every client envelope survives a round trip.
pub proof fn lemma_client_packet_round_trip(p: ClientPacketModel)
    requires
        client_packet_payload_len(p) <= u64::MAX,
    ensures
        spec_decode_client_packet(spec_encode_client_packet(p)) == Some(p),
{
    lemma_auto_spec_u32_to_from_le_bytes();
    let b = spec_encode_client_packet(p);
    match p {
        ClientPacketModel::BroadcastMessage(m) => {
            assert(b.subrange(0, 4) =~= spec_u32_to_le_bytes(0));
            assert(b.skip(4) =~= spec_enc_payload(m));
            lemma_payload_round_trip(m);
        },
        ClientPacketModel::PersonalMessage(id, m) => {
            assert(b.subrange(0, 4) =~= spec_u32_to_le_bytes(1));
            assert(b.skip(4) =~= spec_enc_id(id) + spec_enc_payload(m));
            lemma_id_payload_round_trip(id, m);
        },
        ClientPacketModel::ServerMessage(m) => {
            assert(b.subrange(0, 4) =~= spec_u32_to_le_bytes(2));
            assert(b.skip(4) =~= spec_enc_payload(m));
            lemma_payload_round_trip(m);
        },
        ClientPacketModel::PingResponse => {
            assert(b.subrange(0, 4) =~= spec_u32_to_le_bytes(3));
            assert(b.skip(4) =~= Seq::<u8>::empty());
        },
    }
}

/// The format is canonical: a buffer that decodes to an envelope is exactly
/// that envelope's encoding. With the round trip this makes decoding the
/// inverse of encoding.
pub proof fn lemma_client_packet_canonical(b: Seq<u8>, p: ClientPacketModel)
    requires
        spec_decode_client_packet(b) == Some(p),
    ensures
        spec_encode_client_packet(p) == b,
{
    lemma_auto_spec_u32_to_from_le_bytes();
    lemma_auto_spec_u64_to_from_le_bytes();
    let tag = spec_u32_from_le_bytes(b.subrange(0, 4));
    let rest = b.skip(4);
    assert(spec_u32_to_le_bytes(tag) == b.subrange(0, 4));
    if tag == 0 {
        let m = spec_dec_payload(rest)->Some_0;
        lemma_payload_canonical(rest, m);
        assert(spec_encode_client_packet(p) =~= b);
    } else if tag == 1 {
        let (id, m) = spec_dec_id_payload(rest)->Some_0;
        lemma_id_payload_canonical(rest, id, m);
        assert(spec_encode_client_packet(p) =~= b);
    } else if tag == 2 {
        let m = spec_dec_payload(rest)->Some_0;
        lemma_payload_canonical(rest, m);
        assert(spec_encode_client_packet(p) =~= b);
    } else {
        assert(tag == 3 && rest.len() == 0);
        assert(b.len() == 4);
        assert(spec_encode_client_packet(p) == spec_u32_to_le_bytes(3));
        assert(spec_encode_client_packet(p) =~= b);
    }
}

/// Encodes one client envelope.
pub fn encode_client_packet(p: &InternalClientPacket) -> (r: Vec<u8>)
    ensures
        r@ == spec_encode_client_packet(p@),
{
    match p {
        InternalClientPacket::BroadcastMessage(m) => {
            let mut r = u32_to_le_bytes(0);
            enc_payload(&mut r, m);
            r
        },
        InternalClientPacket::PersonalMessage(id, m) => {
            let mut r = u32_to_le_bytes(1);
            let mut idb = u64_to_le_bytes(*id);
            r.append(&mut idb);
            enc_payload(&mut r, m);
            r
        },
        InternalClientPacket::ServerMessage(m) => {
            let mut r = u32_to_le_bytes(2);
            enc_payload(&mut r, m);
            r
        },
        InternalClientPacket::PingResponse => u32_to_le_bytes(3),
    }
}

/// Appends a length-prefixed payload to a buffer being built.
fn enc_payload(r: &mut Vec<u8>, m: &Vec<u8>)
    ensures
        final(r)@ == old(r)@ + spec_enc_payload(m@),
{
    let mut lenb = u64_to_le_bytes(m.len() as u64);
    r.append(&mut lenb);
    r.extend_from_slice(m.as_slice());
    assert(final(r)@ =~= old(r)@ + spec_enc_payload(m@));
}

/// Decodes one client envelope; `None` when the buffer is not exactly one
/// well-formed envelope.
pub fn decode_client_packet(b: &[u8]) -> (r: Option<InternalClientPacket>)
    ensures
        match r {
            Some(p) => spec_decode_client_packet(b@) == Some(p@),
            None => spec_decode_client_packet(b@) is None,
        },
{
    if b.len() < 4 {
        return None;
    }
    let tag = u32_from_le_bytes(vstd::slice::slice_subrange(b, 0, 4));
    if tag == 0 {
        match dec_payload(b) {
            Some(m) => Some(InternalClientPacket::BroadcastMessage(m)),
            None => None,
        }
    } else if tag == 1 {
        match dec_id_payload(b) {
            Some((id, m)) => Some(InternalClientPacket::PersonalMessage(id, m)),
            None => None,
        }
    } else if tag == 2 {
        match dec_payload(b) {
            Some(m) => Some(InternalClientPacket::ServerMessage(m)),
            None => None,
        }
    } else if tag == 3 {
        if b.len() == 4 {
            Some(InternalClientPacket::PingResponse)
        } else {
            None
        }
    } else {
        None
    }
}

/// Reads a length-prefixed payload occupying the whole buffer after the tag.
fn dec_payload(b: &[u8]) -> (r: Option<Vec<u8>>)
    requires
        b@.len() >= 4,
    ensures
        match r {
            Some(m) => spec_dec_payload(b@.skip(4)) == Some(m@),
            None => spec_dec_payload(b@.skip(4)) is None,
        },
{
    if b.len() < 12 {
        assert(b@.skip(4).len() < 8);
        return None;
    }
    let len = u64_from_le_bytes(vstd::slice::slice_subrange(b, 4, 12));
    proof {
        assert(b@.skip(4).subrange(0, 8) =~= b@.subrange(4, 12));
    }
    if len == (b.len() - 12) as u64 {
        let m = vstd::slice::slice_to_vec(vstd::slice::slice_subrange(b, 12, b.len()));
        proof {
            assert(b@.skip(4).skip(8) =~= b@.subrange(12, b@.len() as int));
        }
        Some(m)
    } else {
        None
    }
}

pub open spec fn spec_encode_server_packet(p: ServerPacketModel) -> Seq<u8> {
    match p {
        ServerPacketModel::ConnectResponse(id) => spec_u32_to_le_bytes(0) + spec_enc_id(id),
        ServerPacketModel::NewClientConnected(id) => spec_u32_to_le_bytes(1) + spec_enc_id(id),
        ServerPacketModel::ClientDisconnected(id) => spec_u32_to_le_bytes(2) + spec_enc_id(id),
        ServerPacketModel::ClientKicked(id) => spec_u32_to_le_bytes(3) + spec_enc_id(id),
        ServerPacketModel::YouWereKicked => spec_u32_to_le_bytes(4),
        ServerPacketModel::ClientToClient(id, m) => spec_u32_to_le_bytes(5) + spec_enc_id(id) + spec_enc_payload(m),
        ServerPacketModel::ServerToClient(m) => spec_u32_to_le_bytes(6) + spec_enc_payload(m),
        ServerPacketModel::Ping => spec_u32_to_le_bytes(7),
    }
}

pub open spec fn spec_decode_server_packet(b: Seq<u8>) -> Option<ServerPacketModel> {
    if b.len() < 4 {
        None
    } else {
        let tag = spec_u32_from_le_bytes(b.subrange(0, 4));
        let rest = b.skip(4);
        if tag == 0 {
            match spec_dec_id(rest) {
                Some(id) => Some(ServerPacketModel::ConnectResponse(id)),
                None => None,
            }
        } else if tag == 1 {
            match spec_dec_id(rest) {
                Some(id) => Some(ServerPacketModel::NewClientConnected(id)),
                None => None,
            }
        } else if tag == 2 {
            match spec_dec_id(rest) {
                Some(id) => Some(ServerPacketModel::ClientDisconnected(id)),
                None => None,
            }
        } else if tag == 3 {
            match spec_dec_id(rest) {
                Some(id) => Some(ServerPacketModel::ClientKicked(id)),
                None => None,
            }
        } else if tag == 4 {
            if rest.len() == 0 {
                Some(ServerPacketModel::YouWereKicked)
            } else {
                None
            }
        } else if tag == 5 {
            match spec_dec_id_payload(rest) {
                Some((id, m)) => Some(ServerPacketModel::ClientToClient(id, m)),
                None => None,
            }
        } else if tag == 6 {
            match spec_dec_payload(rest) {
                Some(m) => Some(ServerPacketModel::ServerToClient(m)),
                None => None,
            }
        } else if tag == 7 {
            if rest.len() == 0 {
                Some(ServerPacketModel::Ping)
            } else {
                None
            }
        } else {
            None
        }
    }
}

/// Every payload a server packet carries, for bounding lemmas.
pub open spec fn server_packet_payload_len(p: ServerPacketModel) -> nat {
    match p {
        ServerPacketModel::ClientToClient(_, m) => m.len(),
        ServerPacketModel::ServerToClient(m) => m.len(),
        _ => 0,
    }
}

/// The wire tag of a server envelope, by variant order.
pub open spec fn server_packet_tag(p: ServerPacketModel) -> u32 {
    match p {
        ServerPacketModel::ConnectResponse(_) => 0,
        ServerPacketModel::NewClientConnected(_) => 1,
        ServerPacketModel::ClientDisconnected(_) => 2,
        ServerPacketModel::ClientKicked(_) => 3,
        ServerPacketModel::YouWereKicked => 4,
        ServerPacketModel::ClientToClient(_, _) => 5,
        ServerPacketModel::ServerToClient(_) => 6,
        ServerPacketModel::Ping => 7,
    }
}

/// An encoding begins with its variant's tag, so envelopes of different
/// variants never encode to the same bytes.
pub proof fn lemma_server_packet_tag_prefix(p: ServerPacketModel)
    ensures
        spec_encode_server_packet(p).len() >= 4,
        spec_encode_server_packet(p).subrange(0, 4) == spec_u32_to_le_bytes(server_packet_tag(p)),
{
    lemma_auto_spec_u32_to_from_le_bytes();
    lemma_auto_spec_u64_to_from_le_bytes();
    let b = spec_encode_server_packet(p);
    assert(b.subrange(0, 4) =~= spec_u32_to_le_bytes(server_packet_tag(p)));
}

/// Decoding undoes encoding: every server envelope survives a round trip.
pub proof fn lemma_server_packet_round_trip(p: ServerPacketModel)
    requires
        server_packet_payload_len(p) <= u64::MAX,
    ensures
        spec_decode_server_packet(spec_encode_server_packet(p)) == Some(p),
{
    lemma_auto_spec_u32_to_from_le_bytes();
    lemma_auto_spec_u64_to_from_le_bytes();
    let b = spec_encode_server_packet(p);
    match p {
        ServerPacketModel::ConnectResponse(id) => {
            assert(b.subrange(0, 4) =~= spec_u32_to_le_bytes(0));
            assert(b.skip(4) =~= spec_enc_id(id));
        },
        ServerPacketModel::NewClientConnected(id) => {
            assert(b.subrange(0, 4) =~= spec_u32_to_le_bytes(1));
            assert(b.skip(4) =~= spec_enc_id(id));
        },
        ServerPacketModel::ClientDisconnected(id) => {
            assert(b.subrange(0, 4) =~= spec_u32_to_le_bytes(2));
            assert(b.skip(4) =~= spec_enc_id(id));
        },
        ServerPacketModel::ClientKicked(id) => {
            assert(b.subrange(0, 4) =~= spec_u32_to_le_bytes(3));
            assert(b.skip(4) =~= spec_enc_id(id));
        },
        ServerPacketModel::YouWereKicked => {
            assert(b.subrange(0, 4) =~= spec_u32_to_le_bytes(4));
            assert(b.skip(4) =~= Seq::<u8>::empty());
        },
        ServerPacketModel::ClientToClient(id, m) => {
            assert(b.subrange(0, 4) =~= spec_u32_to_le_bytes(5));
            assert(b.skip(4) =~= spec_enc_id(id) + spec_enc_payload(m));
            lemma_id_payload_round_trip(id, m);
        },
        ServerPacketModel::ServerToClient(m) => {
            assert(b.subrange(0, 4) =~= spec_u32_to_le_bytes(6));
            assert(b.skip(4) =~= spec_enc_payload(m));
            lemma_payload_round_trip(m);
        },
        ServerPacketModel::Ping => {
            assert(b.subrange(0, 4) =~= spec_u32_to_le_bytes(7));
            assert(b.skip(4) =~= Seq::<u8>::empty());
        },
    }
}

/// A buffer that decodes to a server envelope is exactly its encoding.
pub proof fn lemma_server_packet_canonical(b: Seq<u8>, p: ServerPacketModel)
    requires
        spec_decode_server_packet(b) == Some(p),
    ensures
        spec_encode_server_packet(p) == b,
{
    lemma_auto_spec_u32_to_from_le_bytes();
    lemma_auto_spec_u64_to_from_le_bytes();
    let tag = spec_u32_from_le_bytes(b.subrange(0, 4));
    let rest = b.skip(4);
    assert(spec_u32_to_le_bytes(tag) == b.subrange(0, 4));
    if tag == 0 || tag == 1 || tag == 2 || tag == 3 {
        assert(spec_u64_to_le_bytes(spec_u64_from_le_bytes(rest)) == rest);
        assert(spec_encode_server_packet(p) =~= b);
    } else if tag == 4 || tag == 7 {
        assert(rest.len() == 0 && b.len() == 4);
        assert(spec_encode_server_packet(p) =~= b);
    } else if tag == 5 {
        let (id, m) = spec_dec_id_payload(rest)->Some_0;
        lemma_id_payload_canonical(rest, id, m);
        assert(spec_encode_server_packet(p) =~= b);
    } else {
        let m = spec_dec_payload(rest)->Some_0;
        lemma_payload_canonical(rest, m);
        assert(spec_encode_server_packet(p) =~= b);
    }
}

/// Encodes one server envelope.
pub fn encode_server_packet(p: &InternalServerPacket) -> (r: Vec<u8>)
    ensures
        r@ == spec_encode_server_packet(p@),
{
    match p {
        InternalServerPacket::ConnectResponse(id) => enc_tag_id(0, *id),
        InternalServerPacket::NewClientConnected(id) => enc_tag_id(1, *id),
        InternalServerPacket::ClientDisconnected(id) => enc_tag_id(2, *id),
        InternalServerPacket::ClientKicked(id) => enc_tag_id(3, *id),
        InternalServerPacket::YouWereKicked => u32_to_le_bytes(4),
        InternalServerPacket::ClientToClient(id, m) => {
            let mut r = enc_tag_id(5, *id);
            enc_payload(&mut r, m);
            r
        },
        InternalServerPacket::ServerToClient(m) => {
            let mut r = u32_to_le_bytes(6);
            enc_payload(&mut r, m);
            r
        },
        InternalServerPacket::Ping => u32_to_le_bytes(7),
    }
}

/// Builds a tag followed by a client id.
fn enc_tag_id(tag: u32, id: u64) -> (r: Vec<u8>)
    ensures
        r@ == spec_u32_to_le_bytes(tag) + spec_enc_id(id),
{
    let mut r = u32_to_le_bytes(tag);
    let mut idb = u64_to_le_bytes(id);
    r.append(&mut idb);
    r
}

/// Decodes one server envelope; `None` when the buffer is not exactly one
/// well-formed envelope.
pub fn decode_server_packet(b: &[u8]) -> (r: Option<InternalServerPacket>)
    ensures
        match r {
            Some(p) => spec_decode_server_packet(b@) == Some(p@),
            None => spec_decode_server_packet(b@) is None,
        },
{
    if b.len() < 4 {
        return None;
    }
    let tag = u32_from_le_bytes(vstd::slice::slice_subrange(b, 0, 4));
    if tag == 0 {
        match dec_id(b) {
            Some(id) => Some(InternalServerPacket::ConnectResponse(id)),
            None => None,
        }
    } else if tag == 1 {
        match dec_id(b) {
            Some(id) => Some(InternalServerPacket::NewClientConnected(id)),
            None => None,
        }
    } else if tag == 2 {
        match dec_id(b) {
            Some(id) => Some(InternalServerPacket::ClientDisconnected(id)),
            None => None,
        }
    } else if tag == 3 {
        match dec_id(b) {
            Some(id) => Some(InternalServerPacket::ClientKicked(id)),
            None => None,
        }
    } else if tag == 4 {
        if b.len() == 4 {
            Some(InternalServerPacket::YouWereKicked)
        } else {
            None
        }
    } else if tag == 5 {
        match dec_id_payload(b) {
            Some((id, m)) => Some(InternalServerPacket::ClientToClient(id, m)),
            None => None,
        }
    } else if tag == 6 {
        match dec_payload(b) {
            Some(m) => Some(InternalServerPacket::ServerToClient(m)),
            None => None,
        }
    } else if tag == 7 {
        if b.len() == 4 {
            Some(InternalServerPacket::Ping)
        } else {
            None
        }
    } else {
        None
    }
}

/// Reads a client id occupying the whole buffer after the tag.
fn dec_id(b: &[u8]) -> (r: Option<u64>)
    requires
        b@.len() >= 4,
    ensures
        match r {
            Some(id) => spec_dec_id(b@.skip(4)) == Some(id),
            None => spec_dec_id(b@.skip(4)) is None,
        },
{
    if b.len() != 12 {
        return None;
    }
    let id = u64_from_le_bytes(vstd::slice::slice_subrange(b, 4, 12));
    proof {
        assert(b@.skip(4) =~= b@.subrange(4, 12));
    }
    Some(id)
}

pub open spec fn spec_encode_datagram_msg(p: DatagramMsgModel) -> Seq<u8> {
    match p {
        DatagramMsgModel::InnerMsg(m) => spec_u32_to_le_bytes(0) + spec_enc_payload(m),
        DatagramMsgModel::Disconnected => spec_u32_to_le_bytes(1),
    }
}

pub open spec fn spec_decode_datagram_msg(b: Seq<u8>) -> Option<DatagramMsgModel> {
    if b.len() < 4 {
        None
    } else {
        let tag = spec_u32_from_le_bytes(b.subrange(0, 4));
        let rest = b.skip(4);
        if tag == 0 {
            match spec_dec_payload(rest) {
                Some(m) => Some(DatagramMsgModel::InnerMsg(m)),
                None => None,
            }
        } else if tag == 1 {
            if rest.len() == 0 {
                Some(DatagramMsgModel::Disconnected)
            } else {
                None
            }
        } else {
            None
        }
    }
}

/// Decoding undoes encoding: every datagram envelope survives a round trip.
pub proof fn lemma_datagram_msg_round_trip(p: DatagramMsgModel)
    requires
        p matches DatagramMsgModel::InnerMsg(m) ==> m.len() <= u64::MAX,
    ensures
        spec_decode_datagram_msg(spec_encode_datagram_msg(p)) == Some(p),
{
    lemma_auto_spec_u32_to_from_le_bytes();
    let b = spec_encode_datagram_msg(p);
    match p {
        DatagramMsgModel::InnerMsg(m) => {
            assert(b.subrange(0, 4) =~= spec_u32_to_le_bytes(0));
            assert(b.skip(4) =~= spec_enc_payload(m));
            lemma_payload_round_trip(m);
        },
        DatagramMsgModel::Disconnected => {
            assert(b.subrange(0, 4) =~= spec_u32_to_le_bytes(1));
            assert(b.skip(4) =~= Seq::<u8>::empty());
        },
    }
}

/// A buffer that decodes to a datagram envelope is exactly its encoding.
pub proof fn lemma_datagram_msg_canonical(b: Seq<u8>, p: DatagramMsgModel)
    requires
        spec_decode_datagram_msg(b) == Some(p),
    ensures
        spec_encode_datagram_msg(p) == b,
{
    lemma_auto_spec_u32_to_from_le_bytes();
    lemma_auto_spec_u64_to_from_le_bytes();
    let tag = spec_u32_from_le_bytes(b.subrange(0, 4));
    let rest = b.skip(4);
    assert(spec_u32_to_le_bytes(tag) == b.subrange(0, 4));
    if tag == 0 {
        let m = spec_dec_payload(rest)->Some_0;
        lemma_payload_canonical(rest, m);
        assert(spec_encode_datagram_msg(p) =~= b);
    } else {
        assert(rest.len() == 0 && b.len() == 4);
        assert(spec_encode_datagram_msg(p) =~= b);
    }
}

/// Encodes one datagram envelope.
pub fn encode_datagram_msg(p: &DatagramMsg) -> (r: Vec<u8>)
    ensures
        r@ == spec_encode_datagram_msg(p@),
{
    match p {
        DatagramMsg::InnerMsg(m) => {
            let mut r = u32_to_le_bytes(0);
            enc_payload(&mut r, m);
            r
        },
        DatagramMsg::Disconnected => u32_to_le_bytes(1),
    }
}

/// Decodes one datagram envelope.
pub fn decode_datagram_msg(b: &[u8]) -> (r: Option<DatagramMsg>)
    ensures
        match r {
            Some(p) => spec_decode_datagram_msg(b@) == Some(p@),
            None => spec_decode_datagram_msg(b@) is None,
        },
{
    if b.len() < 4 {
        return None;
    }
    let tag = u32_from_le_bytes(vstd::slice::slice_subrange(b, 0, 4));
    if tag == 0 {
        match dec_payload(b) {
            Some(m) => Some(DatagramMsg::InnerMsg(m)),
            None => None,
        }
    } else if tag == 1 {
        if b.len() == 4 {
            Some(DatagramMsg::Disconnected)
        } else {
            None
        }
    } else {
        None
    }
}

/// Reads a client id and then a payload occupying the rest of the buffer.
fn dec_id_payload(b: &[u8]) -> (r: Option<(u64, Vec<u8>)>)
    requires
        b@.len() >= 4,
    ensures
        match r {
            Some((id, m)) => spec_dec_id_payload(b@.skip(4)) == Some((id, m@)),
            None => spec_dec_id_payload(b@.skip(4)) is None,
        },
{
    if b.len() < 20 {
        assert(b@.skip(4).len() < 16);
        return None;
    }
    let id = u64_from_le_bytes(vstd::slice::slice_subrange(b, 4, 12));
    let len = u64_from_le_bytes(vstd::slice::slice_subrange(b, 12, 20));
    proof {
        assert(b@.skip(4).subrange(0, 8) =~= b@.subrange(4, 12));
        assert(b@.skip(4).subrange(8, 16) =~= b@.subrange(12, 20));
    }
    if len == (b.len() - 20) as u64 {
        let m = vstd::slice::slice_to_vec(vstd::slice::slice_subrange(b, 20, b.len()));
        proof {
            assert(b@.skip(4).skip(16) =~= b@.subrange(20, b@.len() as int));
        }
        Some((id, m))
    } else {
        None
    }
}

} // verus!
