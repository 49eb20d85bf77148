//! A client/server messaging library: a wire codec for typed envelopes, a
//! server runtime (peer registry, packet queue, liveness probing, broadcast
//! and kick), a client runtime, datagram connection synthesis, and a
//! fault-injecting simulator for testing.
//!
//! All state-machine logic is verified; socket, clock and thread plumbing
//! lives outside the library and drives these state machines, performing
//! the planned sends they return and feeding transport events back in.

mod client;
mod codec;
mod datagram;
mod internal;
mod laws;
mod packets;
mod server;
mod simulator;
pub mod transport;

pub use client::{
    Client, ClientError, ClientEvent, ClientEventModel, ServerPacket, ServerPacketAppModel,
    SharedData, SharedDataModel, client_handle, client_read_step, client_step, map_client_event,
    spec_map_client_event,
};
pub use codec::{
    client_packet_payload_len, decode_client_packet, decode_datagram_msg, decode_server_packet,
    encode_client_packet, encode_datagram_msg, encode_server_packet,
    lemma_client_packet_canonical, lemma_client_packet_round_trip, lemma_datagram_msg_canonical,
    lemma_datagram_msg_round_trip, lemma_server_packet_canonical, lemma_server_packet_round_trip,
    server_packet_payload_len, spec_decode_client_packet, spec_decode_datagram_msg,
    spec_decode_server_packet, spec_encode_client_packet, spec_encode_datagram_msg,
    spec_encode_server_packet,
};
pub use datagram::{
    DatagramClientFilter, DatagramServerState, addrs_distinct, disconnect_sentinel, frame_datagram,
    has_addr, spec_datagram_client_event, spec_datagram_server_step,
};
pub use internal::{
    ClientPacketModel, DatagramMsg, DatagramMsgModel, InternalClientPacket, InternalServerPacket,
    ServerPacketModel,
};
pub use laws::{
    ServerAction, action_step, announces_departure, announces_new_client, authored_stream, count_addr,
    is_connected_packet, is_data_packet, is_disconnected_packet, lemma_broadcast_bytes,
    lemma_broadcast_exclusion, lemma_broadcast_payload_intact, lemma_departure_announced_once,
    lemma_new_client_announced_once, lemma_peer_lifecycle, lemma_personal_payload_intact,
    lemma_round_trip_bound, lemma_run_wf, packet_author, peer_history_ok, run_server, step_at,
};
pub use packets::{ClientId, MAX_MESSAGE_SIZE, PeerAddr, RawMessageData};
pub use server::{
    AppPacket, AppPacketModel, ClientMsg, ClientMsgModel, Outbound, OutboundModel, PeerRecord,
    Server, ServerError, ServerEvent, ServerEventModel, ServerModel, ServerStep, opt_event_model,
    outs_model, ping_due, ping_mark, rtt_estimate, server_step, spec_broadcast,
    spec_client_id_from_address, spec_pings, step_disconnect, step_kick, step_new_client,
    step_new_msg,
};
pub use simulator::{
    ClientSimulatorTransport, LOSS_DENOMINATOR, PendingPacket, PendingPacketModel, due_prefix_len,
    lemma_no_loss_delivers_all, lemma_simulator_deterministic, lemma_total_loss_delivers_nothing,
    offer_fold, pending_bytes, sim_deliver, sim_offer, spec_deadline, spec_keep,
};
