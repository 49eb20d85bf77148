//! Cross-cutting guarantees of the runtimes, stated and proved over the
//! spec step functions that the executable contracts are written in: the
//! round-trip bound on liveness samples, the exactness of broadcast with
//! exclusion, and the once-only lifecycle guarantees of a whole server run.

use vstd::prelude::*;
use crate::packets::{ClientId, PeerAddr};
use crate::internal::{ClientPacketModel, ServerPacketModel};
use crate::transport::ServerTransportEventModel;
use crate::server::{
    PeerRecord, ServerModel, ServerStep, OutboundModel, AppPacketModel, server_step, step_kick,
    step_new_msg, rtt_estimate, spec_broadcast,
};
use crate::client::{SharedDataModel, ServerPacketAppModel, client_handle};
use crate::codec::{
    spec_encode_server_packet, spec_decode_client_packet, spec_encode_client_packet,
    server_packet_tag, lemma_server_packet_tag_prefix, lemma_server_packet_round_trip,
    lemma_client_packet_round_trip,
};
use vstd::bytes::lemma_auto_spec_u32_to_from_le_bytes;

verus! {

/// A round-trip sample is recorded only by the receipt of a matching pong:
/// at the moment of recording it is half the elapsed time since the ping
/// left, so `0 <= last_round_trip <= (now - t) / 2`, and the pending
/// timestamp is cleared, never extrapolated.
pub proof fn lemma_round_trip_bound(pre: ServerModel, a: PeerAddr, data: Seq<u8>, now: u64, t: u64)
    requires
        pre.wf(),
        pre.has_peer_addr(a),
        spec_decode_client_packet(data) == Some(ClientPacketModel::PingResponse),
        pre.peers[pre.idx_of_addr(a)].last_ping_sent_at == Some(t),
        t <= now,
    ensures
        ({
            let i = pre.idx_of_addr(a);
            let post = step_new_msg(pre, a, data, now).post;
            &&& post.peers[i].last_round_trip == Some(rtt_estimate(now, t))
            &&& rtt_estimate(now, t) <= (now - t) / 2
            &&& post.peers[i].last_ping_sent_at is None
        }),
{
}

/// How many planned sends of a fan-out target address `a`.
pub open spec fn count_addr(out: Seq<OutboundModel>, a: PeerAddr) -> int
    decreases out.len(),
{
    if out.len() == 0 {
        0
    } else {
        count_addr(out.drop_last(), a) + if out.last().address == a { 1int } else { 0int }
    }
}

/// Appending one planned send counts it exactly when it targets `a`.
proof fn lemma_count_push(out: Seq<OutboundModel>, x: OutboundModel, a: PeerAddr)
    ensures
        count_addr(out.push(x), a) == count_addr(out, a) + if x.address == a { 1int } else { 0int },
{
    assert(out.push(x).drop_last() =~= out);
    assert(out.push(x).last() == x);
}

/// Every planned send of a fan-out carries the one encoded envelope.
pub proof fn lemma_broadcast_bytes(peers: Seq<PeerRecord>, except: Option<ClientId>, pkt: ServerPacketModel)
    ensures
        forall|j: int| 0 <= j < spec_broadcast(peers, except, pkt).len()
            ==> (#[trigger] spec_broadcast(peers, except, pkt)[j]).bytes == spec_encode_server_packet(pkt),
    decreases peers.len(),
{
    if peers.len() > 0 {
        lemma_broadcast_bytes(peers.drop_last(), except, pkt);
        let out = spec_broadcast(peers, except, pkt);
        let rest = spec_broadcast(peers.drop_last(), except, pkt);
        assert forall|j: int| 0 <= j < out.len() implies out[j].bytes == spec_encode_server_packet(pkt) by {
            if except == Some(peers.last().id) {
                assert(out[j] == rest[j]);
            } else if j < rest.len() {
                assert(out[j] == rest[j]);
            } else {
                assert(out[j] == (OutboundModel {
                    address: peers.last().address,
                    bytes: spec_encode_server_packet(pkt),
                }));
            }
        }
    }
}

/// An address whose every holder is excluded receives nothing.
proof fn lemma_broadcast_absent(peers: Seq<PeerRecord>, except: Option<ClientId>, pkt: ServerPacketModel, a: PeerAddr)
    requires
        forall|k: int| 0 <= k < peers.len() && (#[trigger] peers[k].address) == a
            ==> except == Some(peers[k].id),
    ensures
        count_addr(spec_broadcast(peers, except, pkt), a) == 0,
    decreases peers.len(),
{
    if peers.len() > 0 {
        let prefix = peers.drop_last();
        assert(forall|k: int| 0 <= k < prefix.len() ==> prefix[k] == peers[k]);
        lemma_broadcast_absent(prefix, except, pkt, a);
        let rest = spec_broadcast(prefix, except, pkt);
        if except != Some(peers.last().id) {
            let x = OutboundModel { address: peers.last().address, bytes: spec_encode_server_packet(pkt) };
            lemma_count_push(rest, x, a);
            if peers.last().address == a {
                assert(peers[peers.len() - 1].address == a);
            }
        }
    }
}

/// Broadcast with exclusion is exact: the excluded peer's address receives
/// nothing, and every other registered peer's address receives the message
/// exactly once.
pub proof fn lemma_broadcast_exclusion(peers: Seq<PeerRecord>, except: ClientId, pkt: ServerPacketModel, i: int)
    requires
        forall|x: int, y: int| 0 <= x < y < peers.len() ==> peers[x].id != peers[y].id
            && peers[x].address != peers[y].address,
        0 <= i < peers.len(),
    ensures
        peers[i].id == except ==> count_addr(spec_broadcast(peers, Some(except), pkt), peers[i].address) == 0,
        peers[i].id != except ==> count_addr(spec_broadcast(peers, Some(except), pkt), peers[i].address) == 1,
    decreases peers.len(),
{
    let a = peers[i].address;
    let prefix = peers.drop_last();
    let rest = spec_broadcast(prefix, Some(except), pkt);
    let x = OutboundModel { address: peers.last().address, bytes: spec_encode_server_packet(pkt) };
    assert(forall|k: int| 0 <= k < prefix.len() ==> prefix[k] == peers[k]);
    if i < peers.len() - 1 {
        lemma_broadcast_exclusion(prefix, except, pkt, i);
        if Some(except) != Some(peers.last().id) {
            assert(peers[i].address != peers[peers.len() - 1].address);
            lemma_count_push(rest, x, a);
        }
    } else {
        assert(forall|k: int| 0 <= k < prefix.len() ==> (#[trigger] prefix[k].address) != a);
        lemma_broadcast_absent(prefix, Some(except), pkt, a);
        if Some(except) != Some(peers.last().id) {
            lemma_count_push(rest, x, a);
        }
    }
}

/// One operation of a server run: a transport event processed at a time,
/// or an administrative kick.
pub enum ServerAction {
    Event(ServerTransportEventModel, u64),
    Kick(ClientId),
}

/// What one action does to the runtime.
pub open spec fn action_step(m: ServerModel, a: ServerAction) -> ServerStep {
    match a {
        ServerAction::Event(ev, now) => server_step(m, ev, now),
        ServerAction::Kick(id) => step_kick(m, id),
    }
}

/// The runtime after an initial state has processed a whole trace.
pub open spec fn run_server(m0: ServerModel, trace: Seq<ServerAction>) -> ServerModel
    decreases trace.len(),
{
    if trace.len() == 0 {
        m0
    } else {
        action_step(run_server(m0, trace.drop_last()), trace.last()).post
    }
}

/// The step a run takes at position `k` of its trace.
pub open spec fn step_at(m0: ServerModel, trace: Seq<ServerAction>, k: int) -> ServerStep {
    action_step(run_server(m0, trace.take(k)), trace[k])
}

/// Peeling one action off the front of the remaining trace.
pub proof fn lemma_run_snoc(m0: ServerModel, trace: Seq<ServerAction>, k: int)
    requires
        0 <= k < trace.len(),
    ensures
        run_server(m0, trace.take(k + 1)) == step_at(m0, trace, k).post,
{
    assert(trace.take(k + 1).drop_last() =~= trace.take(k));
    assert(trace.take(k + 1).last() == trace[k]);
}

/// A run from a well-formed state stays well-formed.
pub proof fn lemma_run_wf(m0: ServerModel, trace: Seq<ServerAction>)
    requires
        m0.wf(),
    ensures
        run_server(m0, trace).wf(),
    decreases trace.len(),
{
    if trace.len() > 0 {
        lemma_run_wf(m0, trace.drop_last());
        let prev = run_server(m0, trace.drop_last());
        match trace.last() {
            ServerAction::Event(ev, now) => crate::server::lemma_server_step_wf(prev, ev, now),
            ServerAction::Kick(id) => crate::server::lemma_step_kick_wf(prev, id),
        }
    }
}

/// Envelopes of different variants never encode to the same bytes.
proof fn lemma_distinct_server_encodings(p1: ServerPacketModel, p2: ServerPacketModel)
    requires
        server_packet_tag(p1) != server_packet_tag(p2),
    ensures
        spec_encode_server_packet(p1) != spec_encode_server_packet(p2),
{
    lemma_server_packet_tag_prefix(p1);
    lemma_server_packet_tag_prefix(p2);
    lemma_auto_spec_u32_to_from_le_bytes();
}

/// Whether a step's planned sends announce `id` as newly connected.
pub open spec fn announces_new_client(s: ServerStep, id: ClientId) -> bool {
    exists|j: int| 0 <= j < s.out.len()
        && (#[trigger] s.out[j]).bytes == spec_encode_server_packet(ServerPacketModel::NewClientConnected(id))
}

/// Whether a step's planned sends announce `id` as departed, by
/// disconnection or by kick.
pub open spec fn announces_departure(s: ServerStep, id: ClientId) -> bool {
    exists|j: int| 0 <= j < s.out.len()
        && ((#[trigger] s.out[j]).bytes == spec_encode_server_packet(ServerPacketModel::ClientDisconnected(id))
            || s.out[j].bytes == spec_encode_server_packet(ServerPacketModel::ClientKicked(id)))
}

/// Only the acceptance of a fresh peer announces `NewClientConnected(id)`,
/// and it pins `id` to the counter at that moment and advances it.
proof fn lemma_announcement_pins(pre: ServerModel, ev: ServerTransportEventModel, now: u64, id: ClientId)
    requires
        pre.wf(),
        announces_new_client(server_step(pre, ev, now), id),
    ensures
        ev matches ServerTransportEventModel::NewClient(_),
        pre.next_id == id,
        server_step(pre, ev, now).post.next_id == id + 1,
{
    let s = server_step(pre, ev, now);
    let target = spec_encode_server_packet(ServerPacketModel::NewClientConnected(id));
    let j = choose|j: int| 0 <= j < s.out.len() && (#[trigger] s.out[j]).bytes == target;
    match ev {
        ServerTransportEventModel::NewClient(a) => {
            assert(!(pre.has_peer_addr(a) || pre.next_id == u64::MAX));
            let nid = pre.next_id;
            if j == 0 {
                lemma_distinct_server_encodings(
                    ServerPacketModel::ConnectResponse(nid),
                    ServerPacketModel::NewClientConnected(id),
                );
                assert(false);
            } else {
                let bc = spec_broadcast(pre.peers, None, ServerPacketModel::NewClientConnected(nid));
                assert(s.out[j] == bc[j - 1]);
                lemma_broadcast_bytes(pre.peers, None, ServerPacketModel::NewClientConnected(nid));
                lemma_server_packet_round_trip(ServerPacketModel::NewClientConnected(nid));
                lemma_server_packet_round_trip(ServerPacketModel::NewClientConnected(id));
                assert(nid == id);
            }
        },
        ServerTransportEventModel::ClientDisconnected(a) => {
            assert(pre.has_peer_addr(a));
            let i = pre.idx_of_addr(a);
            let did = pre.peers[i].id;
            lemma_broadcast_bytes(pre.peers.remove(i), None, ServerPacketModel::ClientDisconnected(did));
            lemma_distinct_server_encodings(
                ServerPacketModel::ClientDisconnected(did),
                ServerPacketModel::NewClientConnected(id),
            );
            assert(false);
        },
        ServerTransportEventModel::NewMsg(a, data) => {
            assert(pre.has_peer_addr(a));
            let i = pre.idx_of_addr(a);
            let sender = pre.peers[i].id;
            match spec_decode_client_packet(data) {
                Some(ClientPacketModel::BroadcastMessage(m)) => {
                    lemma_broadcast_bytes(pre.peers, Some(sender), ServerPacketModel::ClientToClient(sender, m));
                    lemma_distinct_server_encodings(
                        ServerPacketModel::ClientToClient(sender, m),
                        ServerPacketModel::NewClientConnected(id),
                    );
                    assert(false);
                },
                Some(ClientPacketModel::PersonalMessage(target_id, m)) => {
                    lemma_distinct_server_encodings(
                        ServerPacketModel::ClientToClient(sender, m),
                        ServerPacketModel::NewClientConnected(id),
                    );
                    assert(false);
                },
                _ => {
                    assert(false);
                },
            }
        },
        _ => {
            assert(false);
        },
    }
}

/// A kick never announces anyone as newly connected.
proof fn lemma_action_announcement_pins(pre: ServerModel, a: ServerAction, id: ClientId)
    requires
        pre.wf(),
        announces_new_client(action_step(pre, a), id),
    ensures
        pre.next_id == id,
        action_step(pre, a).post.next_id == id + 1,
{
    match a {
        ServerAction::Event(ev, now) => {
            lemma_announcement_pins(pre, ev, now, id);
        },
        ServerAction::Kick(kid) => {
            let s = step_kick(pre, kid);
            let target = spec_encode_server_packet(ServerPacketModel::NewClientConnected(id));
            let j = choose|j: int| 0 <= j < s.out.len() && (#[trigger] s.out[j]).bytes == target;
            assert(pre.has_peer_id(kid));
            if j == 0 {
                lemma_distinct_server_encodings(
                    ServerPacketModel::YouWereKicked,
                    ServerPacketModel::NewClientConnected(id),
                );
            } else {
                let i = pre.idx_of_id(kid);
                let bc = spec_broadcast(pre.peers.remove(i), None, ServerPacketModel::ClientKicked(kid));
                assert(s.out[j] == bc[j - 1]);
                lemma_broadcast_bytes(pre.peers.remove(i), None, ServerPacketModel::ClientKicked(kid));
                lemma_distinct_server_encodings(
                    ServerPacketModel::ClientKicked(kid),
                    ServerPacketModel::NewClientConnected(id),
                );
            }
            assert(false);
        },
    }
}

/// One server run announces a given id as newly connected at most once:
/// the announcement pins the id to the counter, which then moves past it
/// for good.
pub proof fn lemma_new_client_announced_once(m0: ServerModel, trace: Seq<ServerAction>, k1: int, k2: int, id: ClientId)
    requires
        m0.wf(),
        0 <= k1 < k2 < trace.len(),
        announces_new_client(step_at(m0, trace, k1), id),
    ensures
        !announces_new_client(step_at(m0, trace, k2), id),
{
    lemma_run_wf(m0, trace.take(k1));
    lemma_action_announcement_pins(run_server(m0, trace.take(k1)), trace[k1], id);
    lemma_run_snoc(m0, trace, k1);
    assert(run_server(m0, trace.take(k1 + 1)).next_id == id + 1);
    lemma_run_counter_monotone(m0, trace, k1 + 1, k2);
    assert(run_server(m0, trace.take(k2)).next_id > id);
    if announces_new_client(step_at(m0, trace, k2), id) {
        lemma_run_wf(m0, trace.take(k2));
        lemma_action_announcement_pins(run_server(m0, trace.take(k2)), trace[k2], id);
        assert(false);
    }
}

/// Only the disconnection of the registered holder of `id` announces its
/// departure, and it removes that peer.
proof fn lemma_departure_pins(pre: ServerModel, ev: ServerTransportEventModel, now: u64, id: ClientId)
    requires
        pre.wf(),
        announces_departure(server_step(pre, ev, now), id),
    ensures
        ev matches ServerTransportEventModel::ClientDisconnected(_),
        pre.has_peer_id(id),
        !server_step(pre, ev, now).post.has_peer_id(id),
        id < server_step(pre, ev, now).post.next_id,
{
    let s = server_step(pre, ev, now);
    let j = choose|j: int| 0 <= j < s.out.len()
        && ((#[trigger] s.out[j]).bytes == spec_encode_server_packet(ServerPacketModel::ClientDisconnected(id))
            || s.out[j].bytes == spec_encode_server_packet(ServerPacketModel::ClientKicked(id)));
    match ev {
        ServerTransportEventModel::NewClient(a) => {
            assert(!(pre.has_peer_addr(a) || pre.next_id == u64::MAX));
            let nid = pre.next_id;
            if j == 0 {
                lemma_distinct_server_encodings(
                    ServerPacketModel::ConnectResponse(nid),
                    ServerPacketModel::ClientDisconnected(id),
                );
                lemma_distinct_server_encodings(
                    ServerPacketModel::ConnectResponse(nid),
                    ServerPacketModel::ClientKicked(id),
                );
                assert(false);
            } else {
                let bc = spec_broadcast(pre.peers, None, ServerPacketModel::NewClientConnected(nid));
                assert(s.out[j] == bc[j - 1]);
                lemma_broadcast_bytes(pre.peers, None, ServerPacketModel::NewClientConnected(nid));
                lemma_distinct_server_encodings(
                    ServerPacketModel::NewClientConnected(nid),
                    ServerPacketModel::ClientDisconnected(id),
                );
                lemma_distinct_server_encodings(
                    ServerPacketModel::NewClientConnected(nid),
                    ServerPacketModel::ClientKicked(id),
                );
                assert(false);
            }
        },
        ServerTransportEventModel::ClientDisconnected(a) => {
            assert(pre.has_peer_addr(a));
            let i = pre.idx_of_addr(a);
            let did = pre.peers[i].id;
            lemma_broadcast_bytes(pre.peers.remove(i), None, ServerPacketModel::ClientDisconnected(did));
            lemma_distinct_server_encodings(
                ServerPacketModel::ClientDisconnected(did),
                ServerPacketModel::ClientKicked(id),
            );
            lemma_server_packet_round_trip(ServerPacketModel::ClientDisconnected(did));
            lemma_server_packet_round_trip(ServerPacketModel::ClientDisconnected(id));
            assert(did == id);
            assert(pre.peers[i].id == id);
            let removed = pre.peers.remove(i);
            assert forall|k: int| 0 <= k < removed.len() implies (#[trigger] removed[k]).id != id by {
                let ok = if k < i { k } else { k + 1 };
                assert(removed[k] == pre.peers[ok]);
                assert(pre.peers[ok].id != pre.peers[i].id);
            }
        },
        ServerTransportEventModel::NewMsg(a, data) => {
            assert(pre.has_peer_addr(a));
            let i = pre.idx_of_addr(a);
            let sender = pre.peers[i].id;
            match spec_decode_client_packet(data) {
                Some(ClientPacketModel::BroadcastMessage(m)) => {
                    lemma_broadcast_bytes(pre.peers, Some(sender), ServerPacketModel::ClientToClient(sender, m));
                    lemma_distinct_server_encodings(
                        ServerPacketModel::ClientToClient(sender, m),
                        ServerPacketModel::ClientDisconnected(id),
                    );
                    lemma_distinct_server_encodings(
                        ServerPacketModel::ClientToClient(sender, m),
                        ServerPacketModel::ClientKicked(id),
                    );
                    assert(false);
                },
                Some(ClientPacketModel::PersonalMessage(target_id, m)) => {
                    lemma_distinct_server_encodings(
                        ServerPacketModel::ClientToClient(sender, m),
                        ServerPacketModel::ClientDisconnected(id),
                    );
                    lemma_distinct_server_encodings(
                        ServerPacketModel::ClientToClient(sender, m),
                        ServerPacketModel::ClientKicked(id),
                    );
                    assert(false);
                },
                _ => {
                    assert(false);
                },
            }
        },
        _ => {
            assert(false);
        },
    }
}

/// A departure is announced only while its id is registered, and the very
/// same action removes the record.
proof fn lemma_action_departure_pins(pre: ServerModel, a: ServerAction, id: ClientId)
    requires
        pre.wf(),
        announces_departure(action_step(pre, a), id),
    ensures
        pre.has_peer_id(id),
        !action_step(pre, a).post.has_peer_id(id),
        id < action_step(pre, a).post.next_id,
{
    match a {
        ServerAction::Event(ev, now) => {
            lemma_departure_pins(pre, ev, now, id);
        },
        ServerAction::Kick(kid) => {
            let s = step_kick(pre, kid);
            let j = choose|j: int| 0 <= j < s.out.len()
                && ((#[trigger] s.out[j]).bytes == spec_encode_server_packet(ServerPacketModel::ClientDisconnected(id))
                    || s.out[j].bytes == spec_encode_server_packet(ServerPacketModel::ClientKicked(id)));
            assert(pre.has_peer_id(kid));
            lemma_distinct_server_encodings(
                ServerPacketModel::YouWereKicked,
                ServerPacketModel::ClientDisconnected(id),
            );
            lemma_distinct_server_encodings(
                ServerPacketModel::YouWereKicked,
                ServerPacketModel::ClientKicked(id),
            );
            let i = pre.idx_of_id(kid);
            let removed = pre.peers.remove(i);
            assert(j > 0);
            let bc = spec_broadcast(removed, None, ServerPacketModel::ClientKicked(kid));
            assert(s.out[j] == bc[j - 1]);
            lemma_broadcast_bytes(removed, None, ServerPacketModel::ClientKicked(kid));
            lemma_distinct_server_encodings(
                ServerPacketModel::ClientKicked(kid),
                ServerPacketModel::ClientDisconnected(id),
            );
            lemma_server_packet_round_trip(ServerPacketModel::ClientKicked(kid));
            lemma_server_packet_round_trip(ServerPacketModel::ClientKicked(id));
            assert(kid == id);
            assert(pre.peers[i].id == id);
            assert forall|k: int| 0 <= k < removed.len() implies (#[trigger] removed[k]).id != id by {
                let ok = if k < i { k } else { k + 1 };
                assert(removed[k] == pre.peers[ok]);
                assert(pre.peers[ok].id != pre.peers[i].id);
            }
        },
    }
}

/// An id that is unregistered and already issued never returns.
proof fn lemma_unregistered_stays(pre: ServerModel, ev: ServerTransportEventModel, now: u64, id: ClientId)
    requires
        pre.wf(),
        !pre.has_peer_id(id),
        id < pre.next_id,
    ensures
        !server_step(pre, ev, now).post.has_peer_id(id),
        id < server_step(pre, ev, now).post.next_id,
{
    let post = server_step(pre, ev, now).post;
    assert forall|k: int| 0 <= k < post.peers.len() implies (#[trigger] post.peers[k]).id != id by {
        match ev {
            ServerTransportEventModel::NewClient(a) => {
                if !(pre.has_peer_addr(a) || pre.next_id == u64::MAX) {
                    if k < post.peers.len() - 1 {
                        assert(post.peers[k] == pre.peers[k]);
                    }
                }
            },
            ServerTransportEventModel::ClientDisconnected(a) => {
                if pre.has_peer_addr(a) {
                    let i = pre.idx_of_addr(a);
                    let ok = if k < i { k } else { k + 1 };
                    assert(post.peers[k] == pre.peers[ok]);
                }
            },
            ServerTransportEventModel::NewMsg(a, data) => {
                if pre.has_peer_addr(a) {
                    assert(post.peers[k].id == pre.peers[k].id);
                }
            },
            _ => {},
        }
    }
}

/// Kicks preserve it too: once unregistered and issued, an id never
/// returns, whatever the action.
proof fn lemma_action_unregistered_stays(pre: ServerModel, a: ServerAction, id: ClientId)
    requires
        pre.wf(),
        !pre.has_peer_id(id),
        id < pre.next_id,
    ensures
        !action_step(pre, a).post.has_peer_id(id),
        id < action_step(pre, a).post.next_id,
{
    match a {
        ServerAction::Event(ev, now) => {
            lemma_unregistered_stays(pre, ev, now, id);
        },
        ServerAction::Kick(kid) => {
            let post = step_kick(pre, kid).post;
            assert forall|k: int| 0 <= k < post.peers.len() implies (#[trigger] post.peers[k]).id != id by {
                if pre.has_peer_id(kid) {
                    let i = pre.idx_of_id(kid);
                    let ok = if k < i { k } else { k + 1 };
                    assert(post.peers[k] == pre.peers[ok]);
                }
            }
        },
    }
}

/// Once unregistered and issued, an id stays so for the rest of the run.
proof fn lemma_run_unregistered_stays(m0: ServerModel, trace: Seq<ServerAction>, k1: int, k2: int, id: ClientId)
    requires
        m0.wf(),
        0 <= k1 <= k2 <= trace.len(),
        !run_server(m0, trace.take(k1)).has_peer_id(id),
        id < run_server(m0, trace.take(k1)).next_id,
    ensures
        !run_server(m0, trace.take(k2)).has_peer_id(id),
        id < run_server(m0, trace.take(k2)).next_id,
    decreases k2 - k1,
{
    if k1 < k2 {
        lemma_run_wf(m0, trace.take(k1));
        lemma_action_unregistered_stays(run_server(m0, trace.take(k1)), trace[k1], id);
        lemma_run_snoc(m0, trace, k1);
        lemma_run_unregistered_stays(m0, trace, k1 + 1, k2, id);
    }
}

/// One server run announces a given id as departed (disconnected or
/// kicked) at most once: the departure removes the id's record, and the
/// counter has moved past it, so no later peer can hold it.
pub proof fn lemma_departure_announced_once(m0: ServerModel, trace: Seq<ServerAction>, k1: int, k2: int, id: ClientId)
    requires
        m0.wf(),
        0 <= k1 < k2 < trace.len(),
        announces_departure(step_at(m0, trace, k1), id),
    ensures
        !announces_departure(step_at(m0, trace, k2), id),
{
    lemma_run_wf(m0, trace.take(k1));
    lemma_action_departure_pins(run_server(m0, trace.take(k1)), trace[k1], id);
    lemma_run_snoc(m0, trace, k1);
    lemma_run_unregistered_stays(m0, trace, k1 + 1, k2, id);
    if announces_departure(step_at(m0, trace, k2), id) {
        lemma_run_wf(m0, trace.take(k2));
        lemma_action_departure_pins(run_server(m0, trace.take(k2)), trace[k2], id);
        assert(false);
    }
}

/// A broadcast payload relayed through the server arrives intact: when a
/// registered peer's `BroadcastMessage(m)` is processed, every planned
/// forward decodes at the receiving client to a `ClientToClientMessage`
/// whose payload is byte-equal to `m`, which that client then queues.
pub proof fn lemma_broadcast_payload_intact(pre: ServerModel, a: PeerAddr, m: Seq<u8>, now: u64, c: SharedDataModel, j: int)
    requires
        pre.wf(),
        pre.has_peer_addr(a),
        m.len() <= u64::MAX,
        0 <= j < step_new_msg(pre, a, spec_encode_client_packet(ClientPacketModel::BroadcastMessage(m)), now).out.len(),
    ensures
        ({
            let sender = pre.peers[pre.idx_of_addr(a)].id;
            let out = step_new_msg(pre, a, spec_encode_client_packet(ClientPacketModel::BroadcastMessage(m)), now).out;
            client_handle(c, out[j].bytes) == (
                SharedDataModel {
                    packets: c.packets.push(ServerPacketAppModel::ClientToClientMessage(sender, m)),
                    ..c
                },
                None::<Seq<u8>>,
            )
        }),
{
    lemma_client_packet_round_trip(ClientPacketModel::BroadcastMessage(m));
    let sender = pre.peers[pre.idx_of_addr(a)].id;
    let fwd = ServerPacketModel::ClientToClient(sender, m);
    lemma_broadcast_bytes(pre.peers, Some(sender), fwd);
    lemma_server_packet_round_trip(fwd);
}

/// A personal payload relayed through the server arrives intact at exactly
/// its target: processing a registered peer's `PersonalMessage(target, m)`
/// plans one send, to the target's address, and that send decodes at the
/// target to a `ClientToClientMessage` whose payload is byte-equal to `m`.
pub proof fn lemma_personal_payload_intact(pre: ServerModel, a: PeerAddr, target: ClientId, m: Seq<u8>, now: u64, c: SharedDataModel)
    requires
        pre.wf(),
        pre.has_peer_addr(a),
        pre.has_peer_id(target),
        m.len() <= u64::MAX,
    ensures
        ({
            let sender = pre.peers[pre.idx_of_addr(a)].id;
            let out = step_new_msg(pre, a, spec_encode_client_packet(ClientPacketModel::PersonalMessage(target, m)), now).out;
            &&& out.len() == 1
            &&& out[0].address == pre.addr_of_id(target)
            &&& client_handle(c, out[0].bytes) == (
                SharedDataModel {
                    packets: c.packets.push(ServerPacketAppModel::ClientToClientMessage(sender, m)),
                    ..c
                },
                None::<Seq<u8>>,
            )
        }),
{
    lemma_client_packet_round_trip(ClientPacketModel::PersonalMessage(target, m));
    let sender = pre.peers[pre.idx_of_addr(a)].id;
    lemma_server_packet_round_trip(ServerPacketModel::ClientToClient(sender, m));
}

/// The peer an application packet speaks about.
pub open spec fn packet_author(p: AppPacketModel) -> ClientId {
    match p {
        AppPacketModel::Connected { author } => author,
        AppPacketModel::Disconnected { author } => author,
        AppPacketModel::ClientToClient { author, .. } => author,
        AppPacketModel::ClientToServer { author, .. } => author,
    }
}

pub open spec fn is_connected_packet(p: AppPacketModel) -> bool {
    p matches AppPacketModel::Connected { .. }
}

pub open spec fn is_disconnected_packet(p: AppPacketModel) -> bool {
    p matches AppPacketModel::Disconnected { .. }
}

/// A message packet: what a peer authored between its connect and its
/// disconnect.
pub open spec fn is_data_packet(p: AppPacketModel) -> bool {
    p matches AppPacketModel::ClientToClient { .. } || p matches AppPacketModel::ClientToServer { .. }
}

/// The subsequence of the queue that one peer authored, in queue order.
pub open spec fn authored_stream(s: Seq<AppPacketModel>, id: ClientId) -> Seq<AppPacketModel>
    decreases s.len(),
{
    if s.len() == 0 {
        Seq::empty()
    } else {
        let rest = authored_stream(s.drop_last(), id);
        if packet_author(s.last()) == id {
            rest.push(s.last())
        } else {
            rest
        }
    }
}

/// Appending one packet extends exactly its author's stream.
proof fn lemma_authored_push(s: Seq<AppPacketModel>, p: AppPacketModel, id: ClientId)
    ensures
        authored_stream(s.push(p), id) == if packet_author(p) == id {
            authored_stream(s, id).push(p)
        } else {
            authored_stream(s, id)
        },
{
    assert(s.push(p).drop_last() =~= s);
    assert(s.push(p).last() == p);
}

/// The stream of a currently connected peer: its `Connected` packet first,
/// then only message packets.
pub open spec fn lifecycle_open(s: Seq<AppPacketModel>) -> bool {
    &&& s.len() >= 1
    &&& is_connected_packet(s[0])
    &&& forall|i: int| 1 <= i < s.len() ==> is_data_packet(#[trigger] s[i])
}

/// The stream of a departed peer: `Connected` first, `Disconnected` last,
/// only message packets between.
pub open spec fn lifecycle_closed(s: Seq<AppPacketModel>) -> bool {
    &&& s.len() >= 2
    &&& is_connected_packet(s[0])
    &&& is_disconnected_packet(s[s.len() - 1])
    &&& forall|i: int| 1 <= i < s.len() - 1 ==> is_data_packet(#[trigger] s[i])
}

/// The lifecycle invariant of a run: a registered id's stream is open; an
/// issued-and-departed id's stream is closed by its `Disconnected` packet,
/// or still open where a kick dropped the record without one; an unissued
/// id has none.
pub open spec fn peer_history_ok(m: ServerModel, id: ClientId) -> bool {
    if m.has_peer_id(id) {
        lifecycle_open(authored_stream(m.packets, id))
    } else if id < m.next_id {
        lifecycle_closed(authored_stream(m.packets, id))
            || lifecycle_open(authored_stream(m.packets, id))
    } else {
        authored_stream(m.packets, id).len() == 0
    }
}

/// Every step keeps every peer's lifecycle invariant.
proof fn lemma_step_preserves_history(pre: ServerModel, ev: ServerTransportEventModel, now: u64, id: ClientId)
    requires
        pre.wf(),
        peer_history_ok(pre, id),
    ensures
        peer_history_ok(server_step(pre, ev, now).post, id),
{
    let post = server_step(pre, ev, now).post;
    match ev {
        ServerTransportEventModel::NewClient(a) => {
            if !(pre.has_peer_addr(a) || pre.next_id == u64::MAX) {
                let nid = pre.next_id;
                let p = AppPacketModel::Connected { author: nid };
                lemma_authored_push(pre.packets, p, id);
                assert(post.has_peer_id(nid)) by {
                    assert(post.peers[post.peers.len() - 1].id == nid);
                }
                if id == nid {
                    assert(!pre.has_peer_id(id));
                    assert(authored_stream(pre.packets, id).len() == 0);
                    assert(lifecycle_open(authored_stream(post.packets, id)));
                } else {
                    assert(post.has_peer_id(id) <==> pre.has_peer_id(id)) by {
                        if pre.has_peer_id(id) {
                            let k = choose|k: int| 0 <= k < pre.peers.len() && #[trigger] pre.peers[k].id == id;
                            assert(post.peers[k].id == id);
                        }
                        if post.has_peer_id(id) {
                            let k = choose|k: int| 0 <= k < post.peers.len() && #[trigger] post.peers[k].id == id;
                            assert(k < pre.peers.len());
                            assert(pre.peers[k].id == id);
                        }
                    }
                }
            }
        },
        ServerTransportEventModel::ClientDisconnected(a) => {
            if pre.has_peer_addr(a) {
                let i = pre.idx_of_addr(a);
                let did = pre.peers[i].id;
                let p = AppPacketModel::Disconnected { author: did };
                lemma_authored_push(pre.packets, p, id);
                assert(pre.has_peer_id(did)) by {
                    assert(pre.peers[i].id == did);
                }
                let removed = pre.peers.remove(i);
                if id == did {
                    assert(!post.has_peer_id(id)) by {
                        assert forall|k: int| 0 <= k < removed.len() implies (#[trigger] removed[k]).id != id by {
                            let ok = if k < i { k } else { k + 1 };
                            assert(removed[k] == pre.peers[ok]);
                            assert(pre.peers[ok].id != pre.peers[i].id);
                        }
                    }
                    assert(id < post.next_id);
                    let s = authored_stream(pre.packets, id);
                    assert(lifecycle_closed(s.push(p)));
                } else {
                    assert(post.has_peer_id(id) <==> pre.has_peer_id(id)) by {
                        if pre.has_peer_id(id) {
                            let k = choose|k: int| 0 <= k < pre.peers.len() && #[trigger] pre.peers[k].id == id;
                            let nk = if k < i { k } else { k - 1 };
                            assert(k != i);
                            assert(removed[nk] == pre.peers[k]);
                        }
                        if post.has_peer_id(id) {
                            let k = choose|k: int| 0 <= k < removed.len() && #[trigger] removed[k].id == id;
                            let ok = if k < i { k } else { k + 1 };
                            assert(removed[k] == pre.peers[ok]);
                        }
                    }
                }
            }
        },
        ServerTransportEventModel::NewMsg(a, data) => {
            if pre.has_peer_addr(a) {
                let i = pre.idx_of_addr(a);
                let sender = pre.peers[i].id;
                assert(pre.has_peer_id(sender)) by {
                    assert(pre.peers[i].id == sender);
                }
                assert(post.has_peer_id(id) <==> pre.has_peer_id(id)) by {
                    assert(post.peers.len() == pre.peers.len());
                    assert forall|k: int| 0 <= k < pre.peers.len() implies (#[trigger] post.peers[k]).id == pre.peers[k].id by {}
                    if pre.has_peer_id(id) {
                        let k = choose|k: int| 0 <= k < pre.peers.len() && #[trigger] pre.peers[k].id == id;
                        assert(post.peers[k].id == id);
                    }
                    if post.has_peer_id(id) {
                        let k = choose|k: int| 0 <= k < post.peers.len() && #[trigger] post.peers[k].id == id;
                        assert(pre.peers[k].id == id);
                    }
                }
                match spec_decode_client_packet(data) {
                    Some(ClientPacketModel::BroadcastMessage(m)) => {
                        let p = AppPacketModel::ClientToClient { author: sender, payload: m };
                        lemma_authored_push(pre.packets, p, id);
                    },
                    Some(ClientPacketModel::PersonalMessage(t, m)) => {
                        let p = AppPacketModel::ClientToClient { author: sender, payload: m };
                        lemma_authored_push(pre.packets, p, id);
                    },
                    Some(ClientPacketModel::ServerMessage(m)) => {
                        let p = AppPacketModel::ClientToServer { author: sender, payload: m };
                        lemma_authored_push(pre.packets, p, id);
                    },
                    _ => {},
                }
            }
        },
        _ => {},
    }
}

/// A kick queues nothing, so it only moves its peer's open stream into the
/// departed case.
proof fn lemma_action_preserves_history(pre: ServerModel, a: ServerAction, id: ClientId)
    requires
        pre.wf(),
        peer_history_ok(pre, id),
    ensures
        peer_history_ok(action_step(pre, a).post, id),
{
    match a {
        ServerAction::Event(ev, now) => {
            lemma_step_preserves_history(pre, ev, now, id);
        },
        ServerAction::Kick(kid) => {
            let post = step_kick(pre, kid).post;
            if pre.has_peer_id(kid) {
                let i = pre.idx_of_id(kid);
                assert(pre.peers[i].id == kid);
                let removed = pre.peers.remove(i);
                if id == kid {
                    assert(!post.has_peer_id(id)) by {
                        assert forall|k: int| 0 <= k < removed.len() implies (#[trigger] removed[k]).id != id by {
                            let ok = if k < i { k } else { k + 1 };
                            assert(removed[k] == pre.peers[ok]);
                            assert(pre.peers[ok].id != pre.peers[i].id);
                        }
                    }
                    assert(id < post.next_id);
                } else {
                    assert(post.has_peer_id(id) <==> pre.has_peer_id(id)) by {
                        if pre.has_peer_id(id) {
                            let k = choose|k: int| 0 <= k < pre.peers.len() && #[trigger] pre.peers[k].id == id;
                            let nk = if k < i { k } else { k - 1 };
                            assert(k != i);
                            assert(removed[nk] == pre.peers[k]);
                        }
                        if post.has_peer_id(id) {
                            let k = choose|k: int| 0 <= k < removed.len() && #[trigger] removed[k].id == id;
                            let ok = if k < i { k } else { k + 1 };
                            assert(removed[k] == pre.peers[ok]);
                        }
                    }
                }
            }
        },
    }
}

/// A run from an empty server keeps every peer's lifecycle invariant.
proof fn lemma_run_history(m0: ServerModel, trace: Seq<ServerAction>, id: ClientId)
    requires
        m0.wf(),
        m0.peers.len() == 0,
        m0.next_id == 0,
        m0.packets.len() == 0,
    ensures
        peer_history_ok(run_server(m0, trace), id),
    decreases trace.len(),
{
    if trace.len() == 0 {
        assert(authored_stream(m0.packets, id).len() == 0);
    } else {
        lemma_run_history(m0, trace.drop_last(), id);
        lemma_run_wf(m0, trace.drop_last());
        lemma_action_preserves_history(run_server(m0, trace.drop_last()), trace.last(), id);
    }
}

/// Every packet of a peer's stream is its own.
proof fn lemma_authored_stream_authors(s: Seq<AppPacketModel>, id: ClientId)
    ensures
        forall|i: int| 0 <= i < authored_stream(s, id).len()
            ==> packet_author(#[trigger] authored_stream(s, id)[i]) == id,
    decreases s.len(),
{
    if s.len() > 0 {
        lemma_authored_stream_authors(s.drop_last(), id);
        let cur = authored_stream(s, id);
        let rest = authored_stream(s.drop_last(), id);
        assert forall|i: int| 0 <= i < cur.len() implies packet_author(#[trigger] cur[i]) == id by {
            if packet_author(s.last()) == id {
                if i < rest.len() {
                    assert(cur[i] == rest[i]);
                } else {
                    assert(cur[i] == s.last());
                }
            } else {
                assert(cur[i] == rest[i]);
            }
        }
    }
}

/// The lifecycle of every peer over a whole run from an empty server: in
/// the packets a peer authored, `Connected` appears exactly once and
/// first — before any of its messages — and `Disconnected` appears at most
/// once, last, after all of them.
pub proof fn lemma_peer_lifecycle(m0: ServerModel, trace: Seq<ServerAction>, id: ClientId)
    requires
        m0.wf(),
        m0.peers.len() == 0,
        m0.next_id == 0,
        m0.packets.len() == 0,
    ensures
        ({
            let s = authored_stream(run_server(m0, trace).packets, id);
            &&& forall|i: int| 0 <= i < s.len() ==> packet_author(#[trigger] s[i]) == id
            &&& forall|i: int| 0 <= i < s.len() ==> (is_connected_packet(#[trigger] s[i]) <==> i == 0)
            &&& forall|i: int| 0 <= i < s.len() ==> (is_disconnected_packet(#[trigger] s[i]) ==> i == s.len() - 1)
        }),
{
    lemma_run_history(m0, trace, id);
    lemma_authored_stream_authors(run_server(m0, trace).packets, id);
    let s = authored_stream(run_server(m0, trace).packets, id);
    let m = run_server(m0, trace);
    if m.has_peer_id(id) {
        assert(lifecycle_open(s));
    } else if id < m.next_id {
        assert(lifecycle_closed(s) || lifecycle_open(s));
    }
}

/// No action lowers the id counter.
pub proof fn lemma_step_counter_monotone(pre: ServerModel, a: ServerAction)
    ensures
        action_step(pre, a).post.next_id >= pre.next_id,
{
}

/// The id counter never falls along a run.
pub proof fn lemma_run_counter_monotone(m0: ServerModel, trace: Seq<ServerAction>, k1: int, k2: int)
    requires
        0 <= k1 <= k2 <= trace.len(),
    ensures
        run_server(m0, trace.take(k1)).next_id <= run_server(m0, trace.take(k2)).next_id,
    decreases k2 - k1,
{
    if k1 < k2 {
        lemma_run_counter_monotone(m0, trace, k1, k2 - 1);
        lemma_run_snoc(m0, trace, k2 - 1);
        lemma_step_counter_monotone(run_server(m0, trace.take(k2 - 1)), trace[k2 - 1]);
    }
}

} // verus!
