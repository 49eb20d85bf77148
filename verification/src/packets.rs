use vstd::prelude::*;

verus! {

/// Identifier the server assigns to a peer. Ids are issued by a monotonic
/// counter and are never reused for a different peer within one server
/// lifetime (a deterministic address hash is offered as the alternative
/// policy; see `Server::client_id_from_address`).
pub type ClientId = u64;

/// Application payload bytes carried through envelopes uninterpreted.
pub type RawMessageData = Vec<u8>;

/// Ceiling on an application payload carried in one envelope. A payload of
/// exactly this many bytes is accepted; anything larger is outside the
/// protocol and is excluded by the send paths' preconditions.
pub const MAX_MESSAGE_SIZE: usize = 1024;

/// A peer's network address, as the registry models it: the IP as an
/// integer (IPv4 addresses are mapped into the low 32 bits) and the port.
#[derive(Clone, Copy, PartialEq, Eq, Structural, Debug)]
pub struct PeerAddr {
    pub ip: u128,
    pub port: u16,
}

} // verus!
