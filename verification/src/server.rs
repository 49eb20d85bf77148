//! Server runtime: the peer registry, the inbound packet queue, the
//! liveness (ping) scheduler, kick, and broadcast semantics.
//!
//! The runtime is a state machine. Operations that would write to the
//! network instead return the planned sends as `Outbound` values; the
//! caller performs the writes and reports failures back through
//! `record_send_error`. Identity policy: ids come from a monotonic counter
//! starting at 0, so an id is never reused for a different peer within one
//! server lifetime (`client_id_from_address` offers the deterministic
//! address-hash alternative).

use vstd::prelude::*;
use crate::packets::{ClientId, PeerAddr, MAX_MESSAGE_SIZE};
use crate::internal::{InternalClientPacket, InternalServerPacket, ClientPacketModel, ServerPacketModel};
use crate::transport::{NetErrorKind, ServerTransportEvent, ServerTransportEventModel};
use crate::codec::{spec_encode_server_packet, spec_decode_client_packet, encode_server_packet, decode_client_packet};
use std::collections::VecDeque;

verus! {

/// Per-peer state the registry holds.
#[derive(Clone, Copy, PartialEq, Eq, Structural, Debug)]
pub struct PeerRecord {
    pub id: ClientId,
    pub address: PeerAddr,
    /// When the last unanswered ping left, if one is pending.
    pub last_ping_sent_at: Option<u64>,
    /// Latest round-trip estimate: half the elapsed time to the pong.
    pub last_round_trip: Option<u64>,
}

/// A message a client sent, with the sender's identity attached.
#[derive(Clone, PartialEq, Eq, Debug)]
pub struct ClientMsg {
    pub sender_id: ClientId,
    pub msg: InternalClientPacket,
}

/// Mathematical value of a `ClientMsg`.
#[verifier::ext_equal]
pub struct ClientMsgModel {
    pub sender_id: ClientId,
    pub msg: ClientPacketModel,
}

impl View for ClientMsg {
    type V = ClientMsgModel;

    open spec fn view(&self) -> ClientMsgModel {
        ClientMsgModel { sender_id: self.sender_id, msg: self.msg@ }
    }
}

/// What one processed transport event looks like to the application.
#[derive(Clone, PartialEq, Eq, Debug)]
pub enum ServerEvent {
    NewClient(ClientId),
    ClientDisconnected(ClientId),
    NewMsg(ClientMsg),
    FailedToParseMsg(ClientId),
    FailedToAcceptConnection(NetErrorKind),
    FailedToReceiveMsg(NetErrorKind),
}

/// Mathematical value of a `ServerEvent`.
#[verifier::ext_equal]
pub enum ServerEventModel {
    NewClient(ClientId),
    ClientDisconnected(ClientId),
    NewMsg(ClientMsgModel),
    FailedToParseMsg(ClientId),
    FailedToAcceptConnection(NetErrorKind),
    FailedToReceiveMsg(NetErrorKind),
}

impl View for ServerEvent {
    type V = ServerEventModel;

    open spec fn view(&self) -> ServerEventModel {
        match self {
            ServerEvent::NewClient(id) => ServerEventModel::NewClient(*id),
            ServerEvent::ClientDisconnected(id) => ServerEventModel::ClientDisconnected(*id),
            ServerEvent::NewMsg(m) => ServerEventModel::NewMsg(m@),
            ServerEvent::FailedToParseMsg(id) => ServerEventModel::FailedToParseMsg(*id),
            ServerEvent::FailedToAcceptConnection(k) => ServerEventModel::FailedToAcceptConnection(*k),
            ServerEvent::FailedToReceiveMsg(k) => ServerEventModel::FailedToReceiveMsg(*k),
        }
    }
}

/// Entry of the server's inbound application queue.
#[derive(Clone, PartialEq, Eq, Debug)]
pub enum AppPacket {
    Connected { author: ClientId },
    Disconnected { author: ClientId },
    ClientToClient { author: ClientId, payload: Vec<u8> },
    ClientToServer { author: ClientId, payload: Vec<u8> },
}

/// Mathematical value of an `AppPacket`.
#[verifier::ext_equal]
pub enum AppPacketModel {
    Connected { author: ClientId },
    Disconnected { author: ClientId },
    ClientToClient { author: ClientId, payload: Seq<u8> },
    ClientToServer { author: ClientId, payload: Seq<u8> },
}

impl View for AppPacket {
    type V = AppPacketModel;

    open spec fn view(&self) -> AppPacketModel {
        match self {
            AppPacket::Connected { author } => AppPacketModel::Connected { author: *author },
            AppPacket::Disconnected { author } => AppPacketModel::Disconnected { author: *author },
            AppPacket::ClientToClient { author, payload } => AppPacketModel::ClientToClient {
                author: *author,
                payload: payload@,
            },
            AppPacket::ClientToServer { author, payload } => AppPacketModel::ClientToServer {
                author: *author,
                payload: payload@,
            },
        }
    }
}

/// Errors the server runtime records or returns.
#[derive(Clone, Copy, PartialEq, Eq, Structural, Debug)]
pub enum ServerError {
    /// A write to one peer failed; broadcast goes on for the others.
    SendError { peer_id: ClientId, kind: NetErrorKind },
    /// A non-terminal read failure.
    ReadError { kind: NetErrorKind },
    /// A peer's bytes did not decode to a client envelope.
    DeserializePacket { peer_id: ClientId },
    /// An operation referenced an unknown peer.
    InvalidClientId { id: ClientId },
    /// The listener failed to accept a connection.
    ErrorAcceptingConnection { kind: NetErrorKind },
}

/// A planned unicast: the caller writes `bytes` to `address`.
#[derive(Clone, PartialEq, Eq, Debug)]
pub struct Outbound {
    pub address: PeerAddr,
    pub bytes: Vec<u8>,
}

/// Mathematical value of an `Outbound`.
#[verifier::ext_equal]
pub struct OutboundModel {
    pub address: PeerAddr,
    pub bytes: Seq<u8>,
}

impl View for Outbound {
    type V = OutboundModel;

    open spec fn view(&self) -> OutboundModel {
        OutboundModel { address: self.address, bytes: self.bytes@ }
    }
}

/// Mathematical value of the whole server runtime.
#[verifier::ext_equal]
pub struct ServerModel {
    pub peers: Seq<PeerRecord>,
    pub next_id: ClientId,
    pub ping_interval: Option<u64>,
    pub packets: Seq<AppPacketModel>,
    pub errors: Seq<ServerError>,
}

/// The server runtime's state. Shared-mutability callers guard the whole
/// value with one coarse lock and keep every operation under it short.
pub struct Server {
    peers: Vec<PeerRecord>,
    next_id: ClientId,
    ping_interval: Option<u64>,
    packets: VecDeque<AppPacket>,
    errors: Vec<ServerError>,
}

impl View for Server {
    type V = ServerModel;

    closed spec fn view(&self) -> ServerModel {
        ServerModel {
            peers: self.peers@,
            next_id: self.next_id,
            ping_interval: self.ping_interval,
            packets: self.packets@.map_values(|p: AppPacket| p@),
            errors: self.errors@,
        }
    }
}

impl ServerModel {
    /// Registry well-formedness: ids and addresses are unique, and every
    /// issued id is below the counter.
    pub open spec fn wf(self) -> bool {
        &&& forall|i: int, j: int|
            0 <= i < j < self.peers.len() ==> self.peers[i].id != self.peers[j].id
                && self.peers[i].address != self.peers[j].address
        &&& forall|i: int| 0 <= i < self.peers.len() ==> #[trigger] self.peers[i].id < self.next_id
    }

    pub open spec fn has_peer_id(self, id: ClientId) -> bool {
        exists|i: int| 0 <= i < self.peers.len() && #[trigger] self.peers[i].id == id
    }

    pub open spec fn has_peer_addr(self, a: PeerAddr) -> bool {
        exists|i: int| 0 <= i < self.peers.len() && #[trigger] self.peers[i].address == a
    }

    /// Index of the peer with this id (unique under `wf`).
    pub open spec fn idx_of_id(self, id: ClientId) -> int {
        choose|i: int| 0 <= i < self.peers.len() && #[trigger] self.peers[i].id == id
    }

    /// Index of the peer at this address (unique under `wf`).
    pub open spec fn idx_of_addr(self, a: PeerAddr) -> int {
        choose|i: int| 0 <= i < self.peers.len() && #[trigger] self.peers[i].address == a
    }

    pub open spec fn addr_of_id(self, id: ClientId) -> PeerAddr {
        self.peers[self.idx_of_id(id)].address
    }
}

/// The planned sends of a fan-out of `pkt` to every peer in registry order,
/// skipping `except` when given.
pub open spec fn spec_broadcast(peers: Seq<PeerRecord>, except: Option<ClientId>, pkt: ServerPacketModel) -> Seq<OutboundModel>
    decreases peers.len(),
{
    if peers.len() == 0 {
        Seq::empty()
    } else {
        let rest = spec_broadcast(peers.drop_last(), except, pkt);
        let p = peers.last();
        if except == Some(p.id) {
            rest
        } else {
            rest.push(OutboundModel { address: p.address, bytes: spec_encode_server_packet(pkt) })
        }
    }
}

/// View of a planned send list.
pub open spec fn outs_model(v: Seq<Outbound>) -> Seq<OutboundModel> {
    v.map_values(|o: Outbound| o@)
}

impl Server {
    /// A fresh runtime: no peers, no queued packets, no errors, pings off.
    pub fn new() -> (s: Server)
        ensures
            s@ == (ServerModel {
                peers: Seq::<PeerRecord>::empty(),
                next_id: 0,
                ping_interval: None::<u64>,
                packets: Seq::<AppPacketModel>::empty(),
                errors: Seq::<ServerError>::empty(),
            }),
            s@.wf(),
    {
        let s = Server {
            peers: Vec::new(),
            next_id: 0,
            ping_interval: None,
            packets: VecDeque::new(),
            errors: Vec::new(),
        };
        proof {
            assert(s@.packets =~= Seq::<AppPacketModel>::empty());
            assert(s@ =~= ServerModel {
                peers: Seq::<PeerRecord>::empty(),
                next_id: 0,
                ping_interval: None::<u64>,
                packets: Seq::<AppPacketModel>::empty(),
                errors: Seq::<ServerError>::empty(),
            });
        }
        s
    }

    /// Finds the registry slot of `id`.
    fn find_id(&self, id: ClientId) -> (r: Option<usize>)
        ensures
            match r {
                Some(i) => i < self.peers@.len() && self.peers@[i as int].id == id,
                None => !self@.has_peer_id(id),
            },
    {
        let mut i: usize = 0;
        while i < self.peers.len()
            invariant
                i <= self.peers@.len(),
                forall|j: int| 0 <= j < i ==> self.peers@[j].id != id,
            decreases self.peers@.len() - i,
        {
            if self.peers[i].id == id {
                return Some(i);
            }
            i = i + 1;
        }
        None
    }

    /// Finds the registry slot of address `a`.
    fn find_addr(&self, a: PeerAddr) -> (r: Option<usize>)
        ensures
            match r {
                Some(i) => i < self.peers@.len() && self.peers@[i as int].address == a,
                None => !self@.has_peer_addr(a),
            },
    {
        let mut i: usize = 0;
        while i < self.peers.len()
            invariant
                i <= self.peers@.len(),
                forall|j: int| 0 <= j < i ==> self.peers@[j].address != a,
            decreases self.peers@.len() - i,
        {
            if self.peers[i].address == a {
                return Some(i);
            }
            i = i + 1;
        }
        None
    }

    /// The address registered for `id`, if any.
    pub fn get_client_address(&self, id: ClientId) -> (r: Option<PeerAddr>)
        requires
            self@.wf(),
        ensures
            match r {
                Some(a) => self@.has_peer_id(id) && a == self@.addr_of_id(id),
                None => !self@.has_peer_id(id),
            },
    {
        match self.find_id(id) {
            Some(i) => {
                proof {
                    let k = self@.idx_of_id(id);
                    assert(self.peers@[k].id == id);
                    assert(k == i as int);
                }
                Some(self.peers[i].address)
            },
            None => None,
        }
    }

    /// The latest round-trip estimate for `id`, if one was recorded.
    pub fn get_ping(&self, id: ClientId) -> (r: Option<u64>)
        requires
            self@.wf(),
        ensures
            match r {
                Some(d) => self@.has_peer_id(id)
                    && self@.peers[self@.idx_of_id(id)].last_round_trip == Some(d),
                None => !self@.has_peer_id(id)
                    || self@.peers[self@.idx_of_id(id)].last_round_trip is None,
            },
    {
        match self.find_id(id) {
            Some(i) => {
                proof {
                    let k = self@.idx_of_id(id);
                    assert(self.peers@[k].id == id);
                    assert(k == i as int);
                }
                self.peers[i].last_round_trip
            },
            None => None,
        }
    }

    /// Ids of all registered peers, in registry order.
    pub fn list_clients(&self) -> (r: Vec<ClientId>)
        ensures
            r@ == self@.peers.map_values(|p: PeerRecord| p.id),
    {
        let mut r: Vec<ClientId> = Vec::new();
        let mut i: usize = 0;
        while i < self.peers.len()
            invariant
                i <= self.peers@.len(),
                r@ == self.peers@.take(i as int).map_values(|p: PeerRecord| p.id),
            decreases self.peers@.len() - i,
        {
            r.push(self.peers[i].id);
            proof {
                assert(self.peers@.take(i + 1 as int).map_values(|p: PeerRecord| p.id)
                    =~= self.peers@.take(i as int).map_values(|p: PeerRecord| p.id).push(self.peers@[i as int].id));
            }
            i = i + 1;
        }
        proof {
            assert(self.peers@.take(self.peers@.len() as int) =~= self.peers@);
        }
        r
    }

    /// Turns liveness probing on with the given interval.
    pub fn set_ping_interval(&mut self, interval: u64)
        ensures
            final(self)@ == (ServerModel { ping_interval: Some(interval), ..old(self)@ }),
    {
        self.ping_interval = Some(interval);
    }

    /// Turns liveness probing off; no ping traffic is emitted after this.
    pub fn disable_ping(&mut self)
        ensures
            final(self)@ == (ServerModel { ping_interval: None::<u64>, ..old(self)@ }),
    {
        self.ping_interval = None;
    }

    /// Pops the oldest inbound application packet, if any.
    pub fn poll_packet(&mut self) -> (r: Option<AppPacket>)
        ensures
            match r {
                Some(p) => old(self)@.packets.len() > 0 && p@ == old(self)@.packets[0]
                    && final(self)@ == (ServerModel {
                        packets: old(self)@.packets.skip(1),
                        ..old(self)@
                    }),
                None => old(self)@.packets.len() == 0 && final(self)@ == old(self)@,
            },
    {
        let r = self.packets.pop_front();
        proof {
            if old(self).packets@.len() > 0 {
                assert(self@.packets =~= old(self)@.packets.skip(1));
                assert(self@ =~~= (ServerModel { packets: old(self)@.packets.skip(1), ..old(self)@ }));
            } else {
                assert(self@ =~= old(self)@);
            }
        }
        r
    }

    /// Returns and clears the accumulated error log.
    pub fn get_error_log(&mut self) -> (r: Vec<ServerError>)
        ensures
            r@ == old(self)@.errors,
            final(self)@ == (ServerModel { errors: Seq::<ServerError>::empty(), ..old(self)@ }),
    {
        let mut out: Vec<ServerError> = Vec::new();
        std::mem::swap(&mut out, &mut self.errors);
        out
    }

    /// Records that a planned send to `peer_id` failed; broadcasts go on
    /// for the remaining peers, so the failure is only logged.
    pub fn record_send_error(&mut self, peer_id: ClientId, kind: NetErrorKind)
        ensures
            final(self)@ == (ServerModel {
                errors: old(self)@.errors.push(ServerError::SendError { peer_id, kind }),
                ..old(self)@
            }),
    {
        self.errors.push(ServerError::SendError { peer_id, kind });
    }

    /// Appends the fan-out of `pkt` to every peer (skipping `except`) to a
    /// send plan being built.
    fn plan_broadcast(&self, pkt: &InternalServerPacket, except: Option<ClientId>, out: &mut Vec<Outbound>)
        ensures
            outs_model(final(out)@) == outs_model(old(out)@) + spec_broadcast(self@.peers, except, pkt@),
    {
        let ghost base = outs_model(old(out)@);
        let mut i: usize = 0;
        while i < self.peers.len()
            invariant
                i <= self.peers@.len(),
                outs_model(out@) == base + spec_broadcast(self.peers@.take(i as int), except, pkt@),
            decreases self.peers@.len() - i,
        {
            let p = self.peers[i];
            let ghost prev = out@;
            let skip = match except {
                Some(e) => p.id == e,
                None => false,
            };
            if !skip {
                let bytes = encode_server_packet(pkt);
                out.push(Outbound { address: p.address, bytes });
            }
            proof {
                let taken = self.peers@.take(i + 1 as int);
                assert(taken.drop_last() =~= self.peers@.take(i as int));
                assert(taken.last() == self.peers@[i as int]);
                if skip {
                    assert(spec_broadcast(taken, except, pkt@) == spec_broadcast(self.peers@.take(i as int), except, pkt@));
                } else {
                    let x = OutboundModel { address: p.address, bytes: spec_encode_server_packet(pkt@) };
                    assert(spec_broadcast(taken, except, pkt@) == spec_broadcast(self.peers@.take(i as int), except, pkt@).push(x));
                    assert(out@ == prev.push(out@.last()));
                    assert(out@.last()@ == x);
                    assert(outs_model(out@) =~~= outs_model(prev).push(x));
                }
                assert(outs_model(out@) =~~= base + spec_broadcast(taken, except, pkt@));
            }
            i = i + 1;
        }
        proof {
            assert(self.peers@.take(self.peers@.len() as int) =~= self.peers@);
        }
    }

    /// Plans a `ServerToClient(msg)` to every peer, in registry order. The
    /// caller performs the writes and logs per-peer failures, so a partial
    /// failure never stops the fan-out.
    pub fn broadcast_all(&self, msg: &[u8]) -> (r: Vec<Outbound>)
        requires
            msg@.len() <= MAX_MESSAGE_SIZE,
        ensures
            outs_model(r@) == spec_broadcast(self@.peers, None, ServerPacketModel::ServerToClient(msg@)),
    {
        let payload = vstd::slice::slice_to_vec(msg);
        let pkt = InternalServerPacket::ServerToClient(payload);
        let mut out: Vec<Outbound> = Vec::new();
        self.plan_broadcast(&pkt, None, &mut out);
        proof {
            assert(outs_model(out@) =~~= spec_broadcast(self@.peers, None, ServerPacketModel::ServerToClient(msg@)));
        }
        out
    }

    /// Plans a `ServerToClient(msg)` to every peer but `except`: the
    /// excluded peer appears in no planned send; every other registered
    /// peer appears in exactly one, in registry order.
    pub fn broadcast(&self, msg: &[u8], except: ClientId) -> (r: Vec<Outbound>)
        requires
            msg@.len() <= MAX_MESSAGE_SIZE,
        ensures
            outs_model(r@) == spec_broadcast(self@.peers, Some(except), ServerPacketModel::ServerToClient(msg@)),
    {
        let payload = vstd::slice::slice_to_vec(msg);
        let pkt = InternalServerPacket::ServerToClient(payload);
        let mut out: Vec<Outbound> = Vec::new();
        self.plan_broadcast(&pkt, Some(except), &mut out);
        proof {
            assert(outs_model(out@) =~~= spec_broadcast(self@.peers, Some(except), ServerPacketModel::ServerToClient(msg@)));
        }
        out
    }

    /// Plans a unicast `ServerToClient(msg)` to `id`; `InvalidClientId`
    /// exactly when no such peer is registered.
    pub fn send_to(&self, id: ClientId, msg: &[u8]) -> (r: Result<Outbound, ServerError>)
        requires
            self@.wf(),
            msg@.len() <= MAX_MESSAGE_SIZE,
        ensures
            match r {
                Ok(o) => self@.has_peer_id(id) && o@ == (OutboundModel {
                    address: self@.addr_of_id(id),
                    bytes: spec_encode_server_packet(ServerPacketModel::ServerToClient(msg@)),
                }),
                Err(e) => !self@.has_peer_id(id) && e == (ServerError::InvalidClientId { id }),
            },
    {
        match self.find_id(id) {
            Some(i) => {
                proof {
                    let k = self@.idx_of_id(id);
                    assert(self.peers@[k].id == id);
                    assert(k == i as int);
                }
                let payload = vstd::slice::slice_to_vec(msg);
                let pkt = InternalServerPacket::ServerToClient(payload);
                let bytes = encode_server_packet(&pkt);
                Ok(Outbound { address: self.peers[i].address, bytes })
            },
            None => Err(ServerError::InvalidClientId { id }),
        }
    }

    /// Removes `id` from the registry, planning a `YouWereKicked` to it and
    /// a `ClientKicked(id)` to every remaining peer, exactly as `step_kick`
    /// describes. On an absent id: no effect and nothing planned.
    pub fn kick(&mut self, id: ClientId) -> (r: Vec<Outbound>)
        requires
            old(self)@.wf(),
        ensures
            final(self)@.wf(),
            final(self)@ == step_kick(old(self)@, id).post,
            outs_model(r@) == step_kick(old(self)@, id).out,
            !old(self)@.has_peer_id(id) ==> final(self)@ == old(self)@ && r@.len() == 0,
            old(self)@.has_peer_id(id) ==> {
                let i = old(self)@.idx_of_id(id);
                &&& final(self)@ == (ServerModel { peers: old(self)@.peers.remove(i), ..old(self)@ })
                &&& outs_model(r@) == seq![
                    OutboundModel {
                        address: old(self)@.addr_of_id(id),
                        bytes: spec_encode_server_packet(ServerPacketModel::YouWereKicked),
                    },
                ] + spec_broadcast(final(self)@.peers, None, ServerPacketModel::ClientKicked(id))
            },
    {
        match self.find_id(id) {
            None => Vec::new(),
            Some(i) => {
                proof {
                    let k = self@.idx_of_id(id);
                    assert(self.peers@[k].id == id);
                    assert(k == i as int);
                }
                let victim = self.peers[i];
                self.peers.remove(i);
                proof {
                    lemma_wf_remove(old(self)@.peers, self@.next_id, i as int);
                }
                let mut out: Vec<Outbound> = Vec::new();
                out.push(Outbound {
                    address: victim.address,
                    bytes: encode_server_packet(&InternalServerPacket::YouWereKicked),
                });
                let pkt = InternalServerPacket::ClientKicked(id);
                self.plan_broadcast(&pkt, None, &mut out);
                proof {
                    assert(self@ =~~= (ServerModel { peers: old(self)@.peers.remove(i as int), ..old(self)@ }));
                    assert(outs_model(out@) =~~= seq![
                        OutboundModel {
                            address: old(self)@.addr_of_id(id),
                            bytes: spec_encode_server_packet(ServerPacketModel::YouWereKicked),
                        },
                    ] + spec_broadcast(self@.peers, None, ServerPacketModel::ClientKicked(id)));
                }
                out
            },
        }
    }

    /// Runs the ping scheduler at time `now`: every peer with no ping
    /// pending, or whose pending ping is at least one interval old, is
    /// planned a `Ping` and marked. With no interval configured this is a
    /// no-op and no ping traffic is ever emitted.
    pub fn update(&mut self, now: u64) -> (r: Vec<Outbound>)
        requires
            old(self)@.wf(),
        ensures
            final(self)@.wf(),
            old(self)@.ping_interval is None ==> final(self)@ == old(self)@ && r@.len() == 0,
            old(self)@.ping_interval matches Some(interval) ==> {
                &&& final(self)@ == (ServerModel {
                    peers: old(self)@.peers.map_values(|p: PeerRecord| ping_mark(p, now, interval)),
                    ..old(self)@
                })
                &&& outs_model(r@) == spec_pings(old(self)@.peers, now, interval)
            },
    {
        let interval = match self.ping_interval {
            None => {
                return Vec::new();
            },
            Some(v) => v,
        };
        let mut out: Vec<Outbound> = Vec::new();
        let mut i: usize = 0;
        while i < self.peers.len()
            invariant
                i <= self.peers@.len(),
                self.peers@.len() == old(self)@.peers.len(),
                self@.next_id == old(self)@.next_id,
                self@.ping_interval == old(self)@.ping_interval,
                self@.packets == old(self)@.packets,
                self@.errors == old(self)@.errors,
                forall|j: int| i <= j < self.peers@.len() ==> self.peers@[j] == old(self)@.peers[j],
                forall|j: int| 0 <= j < i ==> self.peers@[j] == ping_mark(old(self)@.peers[j], now, interval),
                outs_model(out@) == spec_pings(old(self)@.peers.take(i as int), now, interval),
            decreases self.peers@.len() - i,
        {
            let p = self.peers[i];
            let due = match p.last_ping_sent_at {
                None => true,
                Some(t) => t <= now && now - t >= interval,
            };
            if due {
                out.push(Outbound {
                    address: p.address,
                    bytes: encode_server_packet(&InternalServerPacket::Ping),
                });
                self.peers.set(i, PeerRecord { last_ping_sent_at: Some(now), ..p });
            }
            proof {
                let taken = old(self)@.peers.take(i + 1 as int);
                assert(taken.drop_last() =~= old(self)@.peers.take(i as int));
                assert(taken.last() == old(self)@.peers[i as int]);
                assert(outs_model(out@) =~~= spec_pings(taken, now, interval));
            }
            i = i + 1;
        }
        proof {
            assert(old(self)@.peers.take(old(self)@.peers.len() as int) =~= old(self)@.peers);
            assert(self@.peers =~= old(self)@.peers.map_values(|p: PeerRecord| ping_mark(p, now, interval)));
            assert(self@ =~~= (ServerModel {
                peers: old(self)@.peers.map_values(|p: PeerRecord| ping_mark(p, now, interval)),
                ..old(self)@
            }));
            assert forall|a: int, b: int| 0 <= a < b < self@.peers.len() implies
                self@.peers[a].id != self@.peers[b].id && self@.peers[a].address != self@.peers[b].address by {
                assert(old(self)@.peers[a].id != old(self)@.peers[b].id);
            }
        }
        out
    }
}

/// Result of processing one transport event: the runtime afterwards, the
/// event surfaced to the application, and the planned sends.
#[verifier::ext_equal]
pub struct ServerStep {
    pub post: ServerModel,
    pub event: Option<ServerEventModel>,
    pub out: Seq<OutboundModel>,
}

/// View of an optional application event.
pub open spec fn opt_event_model(r: Option<ServerEvent>) -> Option<ServerEventModel> {
    match r {
        Some(e) => Some(e@),
        None => None,
    }
}

/// Round-trip estimate recorded when a pong arrives at `now` for a ping
/// sent at `t`: half the elapsed time, approximating one-way latency.
pub open spec fn rtt_estimate(now: u64, t: u64) -> u64 {
    if now >= t {
        ((now - t) / 2) as u64
    } else {
        0
    }
}

/// An event that changes nothing and surfaces nothing.
pub open spec fn step_noop(pre: ServerModel) -> ServerStep {
    ServerStep { post: pre, event: None, out: Seq::empty() }
}

/// An accepted connection: register the peer under a fresh id, queue the
/// synthetic `Connected` packet, tell the peer its id, and announce it to
/// everyone else. A repeated address (or an exhausted id counter) changes
/// nothing.
pub open spec fn step_new_client(pre: ServerModel, a: PeerAddr) -> ServerStep {
    if pre.has_peer_addr(a) || pre.next_id == u64::MAX {
        step_noop(pre)
    } else {
        let id = pre.next_id;
        ServerStep {
            post: ServerModel {
                peers: pre.peers.push(PeerRecord { id, address: a, last_ping_sent_at: None, last_round_trip: None }),
                next_id: (id + 1) as u64,
                packets: pre.packets.push(AppPacketModel::Connected { author: id }),
                ..pre
            },
            event: Some(ServerEventModel::NewClient(id)),
            out: seq![
                OutboundModel {
                    address: a,
                    bytes: spec_encode_server_packet(ServerPacketModel::ConnectResponse(id)),
                },
            ] + spec_broadcast(pre.peers, None, ServerPacketModel::NewClientConnected(id)),
        }
    }
}

/// A peer's reader saw the connection end: drop the record, queue the
/// synthetic `Disconnected` packet, and announce it to the remaining peers.
pub open spec fn step_disconnect(pre: ServerModel, a: PeerAddr) -> ServerStep {
    if !pre.has_peer_addr(a) {
        step_noop(pre)
    } else {
        let i = pre.idx_of_addr(a);
        let id = pre.peers[i].id;
        let remaining = pre.peers.remove(i);
        ServerStep {
            post: ServerModel {
                peers: remaining,
                packets: pre.packets.push(AppPacketModel::Disconnected { author: id }),
                ..pre
            },
            event: Some(ServerEventModel::ClientDisconnected(id)),
            out: spec_broadcast(remaining, None, ServerPacketModel::ClientDisconnected(id)),
        }
    }
}

/// Inbound routing of one decoded client envelope, per variant: broadcasts
/// are queued locally and forwarded to every peer but the author; personal
/// messages are queued locally and forwarded to the target alone; server
/// messages are only queued; a pong turns a pending ping timestamp into a
/// round-trip sample. Undecodable bytes are logged against the sender.
pub open spec fn step_new_msg(pre: ServerModel, a: PeerAddr, data: Seq<u8>, now: u64) -> ServerStep {
    if !pre.has_peer_addr(a) {
        step_noop(pre)
    } else {
        let i = pre.idx_of_addr(a);
        let sender = pre.peers[i].id;
        match spec_decode_client_packet(data) {
            None => ServerStep {
                post: ServerModel {
                    errors: pre.errors.push(ServerError::DeserializePacket { peer_id: sender }),
                    ..pre
                },
                event: Some(ServerEventModel::FailedToParseMsg(sender)),
                out: Seq::empty(),
            },
            Some(pkt) => {
                let event = Some(ServerEventModel::NewMsg(ClientMsgModel { sender_id: sender, msg: pkt }));
                match pkt {
                    ClientPacketModel::BroadcastMessage(m) => ServerStep {
                        post: ServerModel {
                            packets: pre.packets.push(AppPacketModel::ClientToClient { author: sender, payload: m }),
                            ..pre
                        },
                        event,
                        out: spec_broadcast(pre.peers, Some(sender), ServerPacketModel::ClientToClient(sender, m)),
                    },
                    ClientPacketModel::PersonalMessage(target, m) => {
                        let queued = pre.packets.push(AppPacketModel::ClientToClient { author: sender, payload: m });
                        if pre.has_peer_id(target) {
                            ServerStep {
                                post: ServerModel { packets: queued, ..pre },
                                event,
                                out: seq![
                                    OutboundModel {
                                        address: pre.addr_of_id(target),
                                        bytes: spec_encode_server_packet(ServerPacketModel::ClientToClient(sender, m)),
                                    },
                                ],
                            }
                        } else {
                            ServerStep {
                                post: ServerModel {
                                    packets: queued,
                                    errors: pre.errors.push(ServerError::InvalidClientId { id: target }),
                                    ..pre
                                },
                                event,
                                out: Seq::empty(),
                            }
                        }
                    },
                    ClientPacketModel::ServerMessage(m) => ServerStep {
                        post: ServerModel {
                            packets: pre.packets.push(AppPacketModel::ClientToServer { author: sender, payload: m }),
                            ..pre
                        },
                        event,
                        out: Seq::empty(),
                    },
                    ClientPacketModel::PingResponse => {
                        let p = pre.peers[i];
                        let peers2 = match p.last_ping_sent_at {
                            Some(t) => pre.peers.update(i, PeerRecord {
                                last_ping_sent_at: None,
                                last_round_trip: Some(rtt_estimate(now, t)),
                                ..p
                            }),
                            None => pre.peers,
                        };
                        ServerStep {
                            post: ServerModel { peers: peers2, ..pre },
                            event,
                            out: Seq::empty(),
                        }
                    },
                }
            },
        }
    }
}

/// What the administrative disconnect of `id` does: the peer is told, the
/// remaining peers are notified, the record is dropped; no application
/// packet is queued (the application invoked it itself). An absent id has
/// no effect.
pub open spec fn step_kick(pre: ServerModel, id: ClientId) -> ServerStep {
    if !pre.has_peer_id(id) {
        step_noop(pre)
    } else {
        let i = pre.idx_of_id(id);
        let remaining = pre.peers.remove(i);
        ServerStep {
            post: ServerModel { peers: remaining, ..pre },
            event: None,
            out: seq![
                OutboundModel {
                    address: pre.addr_of_id(id),
                    bytes: spec_encode_server_packet(ServerPacketModel::YouWereKicked),
                },
            ] + spec_broadcast(remaining, None, ServerPacketModel::ClientKicked(id)),
        }
    }
}

/// Kicking keeps the registry well-formed.
pub proof fn lemma_step_kick_wf(pre: ServerModel, id: ClientId)
    requires
        pre.wf(),
    ensures
        step_kick(pre, id).post.wf(),
{
    if pre.has_peer_id(id) {
        let i = pre.idx_of_id(id);
        assert(0 <= i < pre.peers.len() && pre.peers[i].id == id);
        lemma_wf_remove(pre.peers, pre.next_id, i);
    }
}

/// What one transport event does to the runtime at time `now`.
pub open spec fn server_step(pre: ServerModel, ev: ServerTransportEventModel, now: u64) -> ServerStep {
    match ev {
        ServerTransportEventModel::NewClient(a) => step_new_client(pre, a),
        ServerTransportEventModel::ClientDisconnected(a) => step_disconnect(pre, a),
        ServerTransportEventModel::NewMsg(a, data) => step_new_msg(pre, a, data, now),
        ServerTransportEventModel::FailedToReceiveMsg(k) => ServerStep {
            post: ServerModel { errors: pre.errors.push(ServerError::ReadError { kind: k }), ..pre },
            event: Some(ServerEventModel::FailedToReceiveMsg(k)),
            out: Seq::empty(),
        },
        ServerTransportEventModel::FailedToAcceptConnection(k) => ServerStep {
            post: ServerModel {
                errors: pre.errors.push(ServerError::ErrorAcceptingConnection { kind: k }),
                ..pre
            },
            event: Some(ServerEventModel::FailedToAcceptConnection(k)),
            out: Seq::empty(),
        },
    }
}

/// Processing an event keeps the registry well-formed.
pub proof fn lemma_server_step_wf(pre: ServerModel, ev: ServerTransportEventModel, now: u64)
    requires
        pre.wf(),
    ensures
        server_step(pre, ev, now).post.wf(),
{
    let post = server_step(pre, ev, now).post;
    match ev {
        ServerTransportEventModel::NewClient(a) => {
            if !(pre.has_peer_addr(a) || pre.next_id == u64::MAX) {
                assert forall|x: int, y: int| 0 <= x < y < post.peers.len() implies
                    post.peers[x].id != post.peers[y].id && post.peers[x].address != post.peers[y].address by {
                    if y < post.peers.len() - 1 {
                        assert(pre.peers[x].id != pre.peers[y].id);
                    } else {
                        assert(post.peers[x] == pre.peers[x]);
                        assert(pre.peers[x].id < pre.next_id);
                        assert(!pre.has_peer_addr(a) ==> pre.peers[x].address != a);
                    }
                }
            }
        },
        ServerTransportEventModel::ClientDisconnected(a) => {
            if pre.has_peer_addr(a) {
                let i = pre.idx_of_addr(a);
                assert(0 <= i < pre.peers.len() && pre.peers[i].address == a);
                lemma_wf_remove(pre.peers, pre.next_id, i);
            }
        },
        ServerTransportEventModel::NewMsg(a, data) => {
            if pre.has_peer_addr(a) {
                let i = pre.idx_of_addr(a);
                assert(0 <= i < pre.peers.len() && pre.peers[i].address == a);
                assert forall|x: int, y: int| 0 <= x < y < post.peers.len() implies
                    post.peers[x].id != post.peers[y].id && post.peers[x].address != post.peers[y].address by {
                    assert(pre.peers[x].id != pre.peers[y].id);
                    assert(post.peers[x].id == pre.peers[x].id && post.peers[x].address == pre.peers[x].address);
                    assert(post.peers[y].id == pre.peers[y].id && post.peers[y].address == pre.peers[y].address);
                }
                assert forall|x: int| 0 <= x < post.peers.len() implies #[trigger] post.peers[x].id < post.next_id by {
                    assert(pre.peers[x].id < pre.next_id);
                    assert(post.peers[x].id == pre.peers[x].id);
                }
            }
        },
        _ => {},
    }
}

impl Server {
    /// Processes one transport event at time `now`: updates the registry,
    /// queues application packets, and returns the application-visible
    /// event together with the planned sends, exactly as `server_step`
    /// describes.
    pub fn receive_event(&mut self, event: ServerTransportEvent, now: u64) -> (r: (Option<ServerEvent>, Vec<Outbound>))
        requires
            old(self)@.wf(),
        ensures
            final(self)@ == server_step(old(self)@, event@, now).post,
            opt_event_model(r.0) == server_step(old(self)@, event@, now).event,
            outs_model(r.1@) == server_step(old(self)@, event@, now).out,
            final(self)@.wf(),
    {
        proof {
            lemma_server_step_wf(old(self)@, event@, now);
        }
        match event {
            ServerTransportEvent::NewClient(a) => self.on_new_client(a),
            ServerTransportEvent::ClientDisconnected(a) => self.on_client_disconnected(a),
            ServerTransportEvent::NewMsg(tm) => self.on_new_msg(tm.sender_address, tm.data, now),
            ServerTransportEvent::FailedToReceiveMsg(k) => {
                self.errors.push(ServerError::ReadError { kind: k });
                proof {
                    assert(self@ =~~= (ServerModel {
                        errors: old(self)@.errors.push(ServerError::ReadError { kind: k }),
                        ..old(self)@
                    }));
                    assert(outs_model(Seq::<Outbound>::empty()) =~~= Seq::<OutboundModel>::empty());
                }
                (Some(ServerEvent::FailedToReceiveMsg(k)), Vec::new())
            },
            ServerTransportEvent::FailedToAcceptConnection(k) => {
                self.errors.push(ServerError::ErrorAcceptingConnection { kind: k });
                proof {
                    assert(self@ =~~= (ServerModel {
                        errors: old(self)@.errors.push(ServerError::ErrorAcceptingConnection { kind: k }),
                        ..old(self)@
                    }));
                    assert(outs_model(Seq::<Outbound>::empty()) =~~= Seq::<OutboundModel>::empty());
                }
                (Some(ServerEvent::FailedToAcceptConnection(k)), Vec::new())
            },
        }
    }

    fn on_new_client(&mut self, a: PeerAddr) -> (r: (Option<ServerEvent>, Vec<Outbound>))
        requires
            old(self)@.wf(),
        ensures
            final(self)@ == step_new_client(old(self)@, a).post,
            opt_event_model(r.0) == step_new_client(old(self)@, a).event,
            outs_model(r.1@) == step_new_client(old(self)@, a).out,
    {
        if self.next_id == u64::MAX {
            let r = (None, Vec::new());
            proof {
                assert(outs_model(r.1@) =~~= Seq::<OutboundModel>::empty());
            }
            return r;
        }
        match self.find_addr(a) {
            Some(_) => {
                let r = (None, Vec::new());
                proof {
                    assert(outs_model(r.1@) =~~= Seq::<OutboundModel>::empty());
                }
                r
            },
            None => {
                let id = self.next_id;
                let mut out: Vec<Outbound> = Vec::new();
                out.push(Outbound {
                    address: a,
                    bytes: encode_server_packet(&InternalServerPacket::ConnectResponse(id)),
                });
                let ghost first = outs_model(out@);
                proof {
                    assert(first =~~= seq![
                        OutboundModel {
                            address: a,
                            bytes: spec_encode_server_packet(ServerPacketModel::ConnectResponse(id)),
                        },
                    ]);
                }
                let pkt = InternalServerPacket::NewClientConnected(id);
                self.plan_broadcast(&pkt, None, &mut out);
                self.peers.push(PeerRecord { id, address: a, last_ping_sent_at: None, last_round_trip: None });
                self.next_id = id + 1;
                self.packets.push_back(AppPacket::Connected { author: id });
                proof {
                    let s = step_new_client(old(self)@, a);
                    assert(self@.packets =~~= old(self)@.packets.push(AppPacketModel::Connected { author: id }));
                    assert(self@ =~~= s.post);
                    assert(outs_model(out@) =~~= s.out);
                }
                (Some(ServerEvent::NewClient(id)), out)
            },
        }
    }

    fn on_client_disconnected(&mut self, a: PeerAddr) -> (r: (Option<ServerEvent>, Vec<Outbound>))
        requires
            old(self)@.wf(),
        ensures
            final(self)@ == step_disconnect(old(self)@, a).post,
            opt_event_model(r.0) == step_disconnect(old(self)@, a).event,
            outs_model(r.1@) == step_disconnect(old(self)@, a).out,
    {
        match self.find_addr(a) {
            None => {
                let r = (None, Vec::new());
                proof {
                    assert(outs_model(r.1@) =~~= Seq::<OutboundModel>::empty());
                }
                r
            },
            Some(i) => {
                proof {
                    let k = self@.idx_of_addr(a);
                    assert(self.peers@[k].address == a);
                    assert(k == i as int);
                }
                let id = self.peers[i].id;
                self.peers.remove(i);
                self.packets.push_back(AppPacket::Disconnected { author: id });
                let mut out: Vec<Outbound> = Vec::new();
                let pkt = InternalServerPacket::ClientDisconnected(id);
                self.plan_broadcast(&pkt, None, &mut out);
                proof {
                    let s = step_disconnect(old(self)@, a);
                    assert(self@.packets =~~= old(self)@.packets.push(AppPacketModel::Disconnected { author: id }));
                    assert(self@ =~~= s.post);
                    assert(outs_model(out@) =~~= s.out);
                }
                (Some(ServerEvent::ClientDisconnected(id)), out)
            },
        }
    }

    fn on_new_msg(&mut self, a: PeerAddr, data: Vec<u8>, now: u64) -> (r: (Option<ServerEvent>, Vec<Outbound>))
        requires
            old(self)@.wf(),
        ensures
            final(self)@ == step_new_msg(old(self)@, a, data@, now).post,
            opt_event_model(r.0) == step_new_msg(old(self)@, a, data@, now).event,
            outs_model(r.1@) == step_new_msg(old(self)@, a, data@, now).out,
    {
        let i = match self.find_addr(a) {
            None => {
                let r = (None, Vec::new());
                proof {
                    assert(outs_model(r.1@) =~~= Seq::<OutboundModel>::empty());
                }
                return r;
            },
            Some(i) => i,
        };
        proof {
            let k = self@.idx_of_addr(a);
            assert(self.peers@[k].address == a);
            assert(k == i as int);
        }
        let sender_id = self.peers[i].id;
        let pkt = match decode_client_packet(data.as_slice()) {
            None => {
                self.errors.push(ServerError::DeserializePacket { peer_id: sender_id });
                let r = (Some(ServerEvent::FailedToParseMsg(sender_id)), Vec::new());
                proof {
                    assert(self@ =~~= step_new_msg(old(self)@, a, data@, now).post);
                    assert(outs_model(r.1@) =~~= Seq::<OutboundModel>::empty());
                }
                return r;
            },
            Some(pkt) => pkt,
        };
        match pkt {
            InternalClientPacket::BroadcastMessage(m) => {
                let m_queue = vstd::slice::slice_to_vec(m.as_slice());
                let m_event = vstd::slice::slice_to_vec(m.as_slice());
                self.packets.push_back(AppPacket::ClientToClient { author: sender_id, payload: m_queue });
                let fwd = InternalServerPacket::ClientToClient(sender_id, m);
                let mut out: Vec<Outbound> = Vec::new();
                self.plan_broadcast(&fwd, Some(sender_id), &mut out);
                let ev = ServerEvent::NewMsg(ClientMsg {
                    sender_id,
                    msg: InternalClientPacket::BroadcastMessage(m_event),
                });
                proof {
                    let s = step_new_msg(old(self)@, a, data@, now);
                    assert(self@.packets =~~= s.post.packets);
                    assert(self@ =~~= s.post);
                    assert(outs_model(out@) =~~= s.out);
                    assert(opt_event_model(Some(ev)) =~~= s.event);
                }
                (Some(ev), out)
            },
            InternalClientPacket::PersonalMessage(target, m) => {
                let m_queue = vstd::slice::slice_to_vec(m.as_slice());
                let m_event = vstd::slice::slice_to_vec(m.as_slice());
                self.packets.push_back(AppPacket::ClientToClient { author: sender_id, payload: m_queue });
                let mut out: Vec<Outbound> = Vec::new();
                match self.find_id(target) {
                    Some(j) => {
                        proof {
                            let k = self@.idx_of_id(target);
                            assert(self.peers@[k].id == target);
                            assert(k == j as int);
                        }
                        let fwd = InternalServerPacket::ClientToClient(sender_id, m);
                        out.push(Outbound {
                            address: self.peers[j].address,
                            bytes: encode_server_packet(&fwd),
                        });
                    },
                    None => {
                        self.errors.push(ServerError::InvalidClientId { id: target });
                    },
                }
                let ev = ServerEvent::NewMsg(ClientMsg {
                    sender_id,
                    msg: InternalClientPacket::PersonalMessage(target, m_event),
                });
                proof {
                    let s = step_new_msg(old(self)@, a, data@, now);
                    assert(self@.packets =~~= s.post.packets);
                    assert(self@ =~~= s.post);
                    assert(outs_model(out@) =~~= s.out);
                    assert(opt_event_model(Some(ev)) =~~= s.event);
                }
                (Some(ev), out)
            },
            InternalClientPacket::ServerMessage(m) => {
                let m_event = vstd::slice::slice_to_vec(m.as_slice());
                self.packets.push_back(AppPacket::ClientToServer { author: sender_id, payload: m });
                let ev = ServerEvent::NewMsg(ClientMsg {
                    sender_id,
                    msg: InternalClientPacket::ServerMessage(m_event),
                });
                let r = (Some(ev), Vec::new());
                proof {
                    let s = step_new_msg(old(self)@, a, data@, now);
                    assert(self@.packets =~~= s.post.packets);
                    assert(self@ =~~= s.post);
                    assert(outs_model(r.1@) =~~= Seq::<OutboundModel>::empty());
                }
                r
            },
            InternalClientPacket::PingResponse => {
                let p = self.peers[i];
                match p.last_ping_sent_at {
                    Some(t) => {
                        let elapsed = if now >= t { now - t } else { 0 };
                        self.peers.set(i, PeerRecord {
                            last_ping_sent_at: None,
                            last_round_trip: Some(elapsed / 2),
                            ..p
                        });
                    },
                    None => {},
                }
                let ev = ServerEvent::NewMsg(ClientMsg { sender_id, msg: InternalClientPacket::PingResponse });
                let r = (Some(ev), Vec::new());
                proof {
                    let s = step_new_msg(old(self)@, a, data@, now);
                    assert(self@ =~~= s.post);
                    assert(outs_model(r.1@) =~~= Seq::<OutboundModel>::empty());
                }
                r
            },
        }
    }
}

/// Offset basis of the 64-bit FNV-1a hash.
pub const FNV_OFFSET_BASIS: u64 = 0xcbf2_9ce4_8422_2325;

/// Prime of the 64-bit FNV-1a hash.
pub const FNV_PRIME: u64 = 0x0000_0100_0000_01b3;

/// An address as the bytes the identity hash runs over: the IP in 16
/// little-endian bytes, then the port in 2.
pub open spec fn spec_addr_bytes(a: PeerAddr) -> Seq<u8> {
    vstd::bytes::spec_u128_to_le_bytes(a.ip) + vstd::bytes::spec_u16_to_le_bytes(a.port)
}

/// One byte folded into a 64-bit FNV-1a state.
pub open spec fn spec_fnv1a_step(h: u64, b: u8) -> u64 {
    ((((h ^ (b as u64)) as u128) * (FNV_PRIME as u128)) % 0x1_0000_0000_0000_0000) as u64
}

/// 64-bit FNV-1a over a byte sequence.
pub open spec fn spec_fnv1a(s: Seq<u8>) -> u64
    decreases s.len(),
{
    if s.len() == 0 {
        FNV_OFFSET_BASIS
    } else {
        spec_fnv1a_step(spec_fnv1a(s.drop_last()), s.last())
    }
}

/// The deterministic identity of an address: its FNV-1a hash.
pub open spec fn spec_client_id_from_address(a: PeerAddr) -> ClientId {
    spec_fnv1a(spec_addr_bytes(a))
}

impl Server {
    /// The alternative identity policy: a deterministic hash of the peer's
    /// address, so a connectionless transport can map an incoming address
    /// to the same id without per-peer registration state, across restarts
    /// of this layer.
    pub fn client_id_from_address(address: PeerAddr) -> (r: ClientId)
        ensures
            r == spec_client_id_from_address(address),
    {
        let mut bytes = vstd::bytes::u128_to_le_bytes(address.ip);
        let mut portb = vstd::bytes::u16_to_le_bytes(address.port);
        bytes.append(&mut portb);
        let ghost all = spec_addr_bytes(address);
        let mut h: u64 = FNV_OFFSET_BASIS;
        let mut i: usize = 0;
        while i < bytes.len()
            invariant
                i <= bytes@.len(),
                bytes@ == all,
                h == spec_fnv1a(all.take(i as int)),
            decreases bytes@.len() - i,
        {
            let x: u64 = h ^ (bytes[i] as u64);
            let prod: u128 = (x as u128) * (FNV_PRIME as u128);
            h = (prod % 0x1_0000_0000_0000_0000u128) as u64;
            proof {
                let taken = all.take(i + 1 as int);
                assert(taken.drop_last() =~= all.take(i as int));
                assert(taken.last() == all[i as int]);
            }
            i = i + 1;
        }
        proof {
            assert(all.take(all.len() as int) =~= all);
        }
        h
    }
}

/// Whether a peer is owed a ping at time `now` under `interval`.
pub open spec fn ping_due(p: PeerRecord, now: u64, interval: u64) -> bool {
    match p.last_ping_sent_at {
        None => true,
        Some(t) => t <= now && now - t >= interval,
    }
}

/// A peer after the scheduler visits it at time `now`.
pub open spec fn ping_mark(p: PeerRecord, now: u64, interval: u64) -> PeerRecord {
    if ping_due(p, now, interval) {
        PeerRecord { last_ping_sent_at: Some(now), ..p }
    } else {
        p
    }
}

/// The planned `Ping` sends of one scheduler pass, in registry order.
pub open spec fn spec_pings(peers: Seq<PeerRecord>, now: u64, interval: u64) -> Seq<OutboundModel>
    decreases peers.len(),
{
    if peers.len() == 0 {
        Seq::empty()
    } else {
        let rest = spec_pings(peers.drop_last(), now, interval);
        let p = peers.last();
        if ping_due(p, now, interval) {
            rest.push(OutboundModel { address: p.address, bytes: spec_encode_server_packet(ServerPacketModel::Ping) })
        } else {
            rest
        }
    }
}

/// Removing one record keeps ids and addresses unique and below the counter.
proof fn lemma_wf_remove(peers: Seq<PeerRecord>, next_id: ClientId, i: int)
    requires
        0 <= i < peers.len(),
        forall|a: int, b: int| 0 <= a < b < peers.len() ==> peers[a].id != peers[b].id
            && peers[a].address != peers[b].address,
        forall|a: int| 0 <= a < peers.len() ==> #[trigger] peers[a].id < next_id,
    ensures
        forall|a: int, b: int| 0 <= a < b < peers.remove(i).len() ==> peers.remove(i)[a].id != peers.remove(i)[b].id
            && peers.remove(i)[a].address != peers.remove(i)[b].address,
        forall|a: int| 0 <= a < peers.remove(i).len() ==> #[trigger] peers.remove(i)[a].id < next_id,
{
    let r = peers.remove(i);
    assert forall|a: int, b: int| 0 <= a < b < r.len() implies r[a].id != r[b].id
        && r[a].address != r[b].address by {
        let oa = if a < i { a } else { a + 1 };
        let ob = if b < i { b } else { b + 1 };
        assert(r[a] == peers[oa]);
        assert(r[b] == peers[ob]);
    }
    assert forall|a: int| 0 <= a < r.len() implies #[trigger] r[a].id < next_id by {
        let oa = if a < i { a } else { a + 1 };
        assert(r[a] == peers[oa]);
    }
}

} // verus!
