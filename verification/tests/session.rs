//! Whole sessions run against the engine: a server and client states wired
//! through in-memory delivery of the planned sends.

use peerlink::transport::{ServerTransportEvent, TransportMsg};
use peerlink::{
    encode_client_packet, AppPacket, InternalClientPacket, Outbound, PeerAddr, Server,
    ServerPacket, SharedData,
};

struct Session {
    server: Server,
    clients: Vec<(PeerAddr, SharedData)>,
    now: u64,
}

impl Session {
    fn new() -> Session {
        Session { server: Server::new(), clients: Vec::new(), now: 0 }
    }

    /// Hands every planned send to the addressed client; replies (pongs)
    /// flow back into the server.
    fn deliver(&mut self, out: Vec<Outbound>) {
        for o in out {
            let mut reply = None;
            for (addr, shared) in self.clients.iter_mut() {
                if *addr == o.address {
                    reply = shared.handle_incoming(&o.bytes).map(|r| (*addr, r));
                }
            }
            if let Some((addr, bytes)) = reply {
                self.feed(ServerTransportEvent::NewMsg(TransportMsg {
                    sender_address: addr,
                    data: bytes,
                }));
            }
        }
    }

    fn feed(&mut self, ev: ServerTransportEvent) {
        let (_, out) = self.server.receive_event(ev, self.now);
        self.deliver(out);
    }

    fn connect(&mut self, addr: PeerAddr) -> u64 {
        self.clients.push((addr, SharedData::new()));
        self.feed(ServerTransportEvent::NewClient(addr));
        let shared = &mut self.clients.iter_mut().find(|(a, _)| *a == addr).unwrap().1;
        shared.assigned_id().expect("the connect response assigns an id")
    }

    fn send(&mut self, from: PeerAddr, pkt: &InternalClientPacket) {
        self.feed(ServerTransportEvent::NewMsg(TransportMsg {
            sender_address: from,
            data: encode_client_packet(pkt),
        }));
    }

    fn client(&mut self, addr: PeerAddr) -> &mut SharedData {
        &mut self.clients.iter_mut().find(|(a, _)| *a == addr).unwrap().1
    }
}

fn addr(n: u16) -> PeerAddr {
    PeerAddr { ip: 0x7f00_0001, port: n }
}

#[test]
fn greeting_reaches_the_server_alone() {
    // One client connects and broadcasts a greeting: the server's queue
    // holds exactly the connection and the message.
    let mut s = Session::new();
    let id = s.connect(addr(1));
    s.send(addr(1), &InternalClientPacket::BroadcastMessage(b"Hello".to_vec()));
    assert_eq!(s.server.poll_packet(), Some(AppPacket::Connected { author: id }));
    assert_eq!(
        s.server.poll_packet(),
        Some(AppPacket::ClientToClient { author: id, payload: b"Hello".to_vec() })
    );
    assert_eq!(s.server.poll_packet(), None);
    // With nobody else connected, the client saw only its own welcome.
    assert_eq!(s.client(addr(1)).poll_packet(), Some(ServerPacket::ConnectedSuccessfully));
    assert_eq!(s.client(addr(1)).poll_packet(), None);
}

#[test]
fn targeted_message_reaches_only_its_target() {
    let mut s = Session::new();
    let a = s.connect(addr(1));
    let b = s.connect(addr(2));

    s.send(addr(1), &InternalClientPacket::PersonalMessage(b, b"Hi".to_vec()));

    // B observes the relayed message with the author's id and the exact
    // payload bytes.
    let shared_b = s.client(addr(2));
    assert_eq!(shared_b.poll_packet(), Some(ServerPacket::ConnectedSuccessfully));
    assert_eq!(shared_b.poll_packet(), Some(ServerPacket::ClientToClientMessage(a, b"Hi".to_vec())));
    assert_eq!(shared_b.poll_packet(), None);

    // A observes nothing beyond its own connection history.
    let shared_a = s.client(addr(1));
    assert_eq!(shared_a.poll_packet(), Some(ServerPacket::ConnectedSuccessfully));
    assert_eq!(shared_a.poll_packet(), Some(ServerPacket::NewClientConnected(b)));
    assert_eq!(shared_a.poll_packet(), None);

    // The server logged the exchange.
    s.server.poll_packet();
    s.server.poll_packet();
    assert_eq!(
        s.server.poll_packet(),
        Some(AppPacket::ClientToClient { author: a, payload: b"Hi".to_vec() })
    );
}

#[test]
fn kick_is_observed_on_both_sides() {
    let mut s = Session::new();
    let _a = s.connect(addr(1));
    let b = s.connect(addr(2));

    let out = s.server.kick(b);
    s.deliver(out);

    // The kicked client observes YouWereKicked; the transport-level
    // Disconnected follows when its reader ends.
    let shared_b = s.client(addr(2));
    assert_eq!(shared_b.poll_packet(), Some(ServerPacket::ConnectedSuccessfully));
    assert_eq!(shared_b.poll_packet(), Some(ServerPacket::YouWereKicked));
    shared_b.server_disconnected();
    assert_eq!(shared_b.poll_packet(), Some(ServerPacket::Disconnected));

    // The other client observes the kick announcement.
    let shared_a = s.client(addr(1));
    assert_eq!(shared_a.poll_packet(), Some(ServerPacket::ConnectedSuccessfully));
    assert_eq!(shared_a.poll_packet(), Some(ServerPacket::NewClientConnected(b)));
    assert_eq!(shared_a.poll_packet(), Some(ServerPacket::ClientKicked(b)));

    // The registry no longer holds the kicked id.
    assert_eq!(s.server.list_clients(), vec![0]);
}

#[test]
fn ping_cycle_through_a_live_client() {
    // The scheduler pings, the client's dispatcher answers by itself, and
    // the server turns the pong into a round-trip sample.
    let mut s = Session::new();
    let id = s.connect(addr(1));
    s.server.set_ping_interval(100);

    s.now = 1000;
    let out = s.server.update(s.now);
    assert_eq!(out.len(), 1);
    s.now = 1030;
    s.deliver(out);
    assert_eq!(s.server.get_ping(id), Some(15));

    // Once disabled, no further update emits a ping.
    s.server.disable_ping();
    assert_eq!(s.server.update(2000).len(), 0);
}
