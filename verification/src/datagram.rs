//! Datagram transport logic: a connectionless carrier has no accept or
//! teardown, so connection events are synthesized. The first datagram from
//! an unseen address manufactures `NewClient`; an in-band `Disconnected`
//! sentinel stands in for teardown and drops the address, so the next
//! datagram from it is a first sight again. A lost sentinel leaves the
//! address known until its next message, which then produces no duplicate
//! `NewClient`.
//!
//! The receiver loop reads datagrams outside the library and feeds each
//! one in as a plain value.

use vstd::prelude::*;
use crate::packets::PeerAddr;
use crate::internal::{DatagramMsg, DatagramMsgModel};
use crate::transport::{
    NetErrorKind, ClientTransportEvent, ClientTransportEventModel, ServerTransportEvent,
    ServerTransportEventModel, TransportMsg, MAX_MSG_SIZE, DATAGRAM_FRAMING_OVERHEAD,
};
use crate::codec::{
    spec_encode_datagram_msg, spec_decode_datagram_msg, encode_datagram_msg, decode_datagram_msg,
};

verus! {

/// No address appears twice in the known set.
pub open spec fn addrs_distinct(s: Seq<PeerAddr>) -> bool {
    forall|i: int, j: int| 0 <= i < j < s.len() ==> s[i] != s[j]
}

pub open spec fn has_addr(s: Seq<PeerAddr>, a: PeerAddr) -> bool {
    exists|i: int| 0 <= i < s.len() && s[i] == a
}

/// Index of `a` in `s` (unique when `addrs_distinct`).
pub open spec fn idx_of(s: Seq<PeerAddr>, a: PeerAddr) -> int {
    choose|i: int| 0 <= i < s.len() && s[i] == a
}

/// What one received datagram does to the known set, and the events it
/// emits, in order: a first sight prepends `NewClient`, then the envelope
/// maps to `NewMsg`, `ClientDisconnected` (dropping the address), or
/// `FailedToReceiveMsg` when it does not decode.
pub open spec fn spec_datagram_server_step(known: Seq<PeerAddr>, from: PeerAddr, data: Seq<u8>) -> (Seq<PeerAddr>, Seq<ServerTransportEventModel>) {
    let first_sight = !has_addr(known, from);
    let known1 = if first_sight { known.push(from) } else { known };
    let head: Seq<ServerTransportEventModel> = if first_sight {
        seq![ServerTransportEventModel::NewClient(from)]
    } else {
        Seq::empty()
    };
    match spec_decode_datagram_msg(data) {
        Some(DatagramMsgModel::InnerMsg(m)) => (
            known1,
            head.push(ServerTransportEventModel::NewMsg(from, m)),
        ),
        Some(DatagramMsgModel::Disconnected) => (
            known1.remove(idx_of(known1, from)),
            head.push(ServerTransportEventModel::ClientDisconnected(from)),
        ),
        None => (
            known1,
            head.push(ServerTransportEventModel::FailedToReceiveMsg(NetErrorKind::Other)),
        ),
    }
}

/// The datagram server receiver's state: the source addresses seen and not
/// yet disconnected.
pub struct DatagramServerState {
    known: Vec<PeerAddr>,
}

impl View for DatagramServerState {
    type V = Seq<PeerAddr>;

    closed spec fn view(&self) -> Seq<PeerAddr> {
        self.known@
    }
}

impl DatagramServerState {
    /// A receiver that has seen nobody.
    pub fn new() -> (s: DatagramServerState)
        ensures
            s@ == Seq::<PeerAddr>::empty(),
            addrs_distinct(s@),
    {
        DatagramServerState { known: Vec::new() }
    }

    fn find(&self, a: PeerAddr) -> (r: Option<usize>)
        ensures
            match r {
                Some(i) => i < self@.len() && self@[i as int] == a,
                None => !has_addr(self@, a),
            },
    {
        let mut i: usize = 0;
        while i < self.known.len()
            invariant
                i <= self@.len(),
                forall|j: int| 0 <= j < i ==> self@[j] != a,
            decreases self@.len() - i,
        {
            if self.known[i] == a {
                return Some(i);
            }
            i = i + 1;
        }
        None
    }

    /// Processes one received datagram, exactly as
    /// `spec_datagram_server_step` describes.
    pub fn handle_datagram(&mut self, from: PeerAddr, data: &[u8]) -> (evs: Vec<ServerTransportEvent>)
        requires
            addrs_distinct(old(self)@),
        ensures
            final(self)@ == spec_datagram_server_step(old(self)@, from, data@).0,
            evs@.map_values(|e: ServerTransportEvent| e@) == spec_datagram_server_step(old(self)@, from, data@).1,
            addrs_distinct(final(self)@),
    {
        let mut evs: Vec<ServerTransportEvent> = Vec::new();
        let known_index = match self.find(from) {
            Some(i) => i,
            None => {
                let i = self.known.len();
                self.known.push(from);
                evs.push(ServerTransportEvent::NewClient(from));
                i
            },
        };
        let ghost known1 = self@;
        let ghost head = evs@.map_values(|e: ServerTransportEvent| e@);
        proof {
            assert(self@[known_index as int] == from);
            if !has_addr(old(self)@, from) {
                assert(head =~~= seq![ServerTransportEventModel::NewClient(from)]);
            } else {
                assert(head =~~= Seq::<ServerTransportEventModel>::empty());
            }
            assert(addrs_distinct(known1));
        }
        match decode_datagram_msg(data) {
            Some(DatagramMsg::InnerMsg(m)) => {
                evs.push(ServerTransportEvent::NewMsg(TransportMsg { sender_address: from, data: m }));
                proof {
                    assert(evs@.map_values(|e: ServerTransportEvent| e@)
                        =~~= spec_datagram_server_step(old(self)@, from, data@).1);
                }
            },
            Some(DatagramMsg::Disconnected) => {
                proof {
                    let k = idx_of(known1, from);
                    assert(known1[k] == from);
                    assert(k == known_index as int);
                }
                self.known.remove(known_index);
                evs.push(ServerTransportEvent::ClientDisconnected(from));
                proof {
                    assert(evs@.map_values(|e: ServerTransportEvent| e@)
                        =~~= spec_datagram_server_step(old(self)@, from, data@).1);
                    let r = known1.remove(known_index as int);
                    assert forall|x: int, y: int| 0 <= x < y < r.len() implies r[x] != r[y] by {
                        let ox = if x < known_index as int { x } else { x + 1 };
                        let oy = if y < known_index as int { y } else { y + 1 };
                        assert(r[x] == known1[ox]);
                        assert(r[y] == known1[oy]);
                    }
                }
            },
            None => {
                evs.push(ServerTransportEvent::FailedToReceiveMsg(NetErrorKind::Other));
                proof {
                    assert(evs@.map_values(|e: ServerTransportEvent| e@)
                        =~~= spec_datagram_server_step(old(self)@, from, data@).1);
                }
            },
        }
        evs
    }
}

/// The event a datagram client surfaces for one received datagram: strays
/// from other addresses are dropped; the server's envelopes map to message,
/// disconnection, or a receive failure when they do not decode.
pub open spec fn spec_datagram_client_event(server_addrs: Seq<PeerAddr>, from: PeerAddr, data: Seq<u8>) -> Option<ClientTransportEventModel> {
    if !has_addr(server_addrs, from) {
        None
    } else {
        match spec_decode_datagram_msg(data) {
            Some(DatagramMsgModel::InnerMsg(m)) => Some(ClientTransportEventModel::NewMsg(m)),
            Some(DatagramMsgModel::Disconnected) => Some(ClientTransportEventModel::ServerDisconnected),
            None => Some(ClientTransportEventModel::FailedToReceiveMsg(NetErrorKind::Other)),
        }
    }
}

/// The datagram client receiver's filter: the resolved server addresses.
pub struct DatagramClientFilter {
    server_addrs: Vec<PeerAddr>,
}

impl View for DatagramClientFilter {
    type V = Seq<PeerAddr>;

    closed spec fn view(&self) -> Seq<PeerAddr> {
        self.server_addrs@
    }
}

impl DatagramClientFilter {
    /// Accepts datagrams from exactly these addresses.
    pub fn new(server_addrs: Vec<PeerAddr>) -> (s: DatagramClientFilter)
        ensures
            s@ == server_addrs@,
    {
        DatagramClientFilter { server_addrs }
    }

    /// Classifies one received datagram, exactly as
    /// `spec_datagram_client_event` describes.
    pub fn handle_datagram(&self, from: PeerAddr, data: &[u8]) -> (r: Option<ClientTransportEvent>)
        ensures
            match r {
                Some(e) => spec_datagram_client_event(self@, from, data@) == Some(e@),
                None => spec_datagram_client_event(self@, from, data@) is None,
            },
    {
        let mut i: usize = 0;
        let mut found = false;
        while i < self.server_addrs.len()
            invariant
                i <= self@.len(),
                found ==> has_addr(self@, from),
                !found ==> forall|j: int| 0 <= j < i ==> self@[j] != from,
            decreases self@.len() - i,
        {
            if self.server_addrs[i] == from {
                found = true;
            }
            i = i + 1;
        }
        if !found {
            return None;
        }
        match decode_datagram_msg(data) {
            Some(DatagramMsg::InnerMsg(m)) => Some(ClientTransportEvent::NewMsg(m)),
            Some(DatagramMsg::Disconnected) => Some(ClientTransportEvent::ServerDisconnected),
            None => Some(ClientTransportEvent::FailedToReceiveMsg(NetErrorKind::Other)),
        }
    }
}

/// Wraps a payload in the datagram envelope, within the datagram size cap.
pub fn frame_datagram(data: &[u8]) -> (r: Vec<u8>)
    requires
        data@.len() + DATAGRAM_FRAMING_OVERHEAD <= MAX_MSG_SIZE,
    ensures
        r@ == spec_encode_datagram_msg(DatagramMsgModel::InnerMsg(data@)),
        r@.len() <= MAX_MSG_SIZE,
{
    let payload = vstd::slice::slice_to_vec(data);
    let r = encode_datagram_msg(&DatagramMsg::InnerMsg(payload));
    proof {
        crate::codec::lemma_encode_datagram_msg_len(DatagramMsgModel::InnerMsg(data@));
    }
    r
}

/// The closing sentinel a datagram client sends, best effort, on shutdown.
pub fn disconnect_sentinel() -> (r: Vec<u8>)
    ensures
        r@ == spec_encode_datagram_msg(DatagramMsgModel::Disconnected),
        r@.len() <= MAX_MSG_SIZE,
{
    let r = encode_datagram_msg(&DatagramMsg::Disconnected);
    proof {
        crate::codec::lemma_encode_datagram_msg_len(DatagramMsgModel::Disconnected);
    }
    r
}

} // verus!
