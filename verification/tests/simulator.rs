use peerlink::transport::{ClientTransport, ClientTransportEvent};
use peerlink::{ClientSimulatorTransport, LOSS_DENOMINATOR};
use std::cell::RefCell;
use std::rc::Rc;

/// An inner transport that records what reaches it.
struct RecordingTransport {
    sent: Rc<RefCell<Vec<Vec<u8>>>>,
}

impl ClientTransport for RecordingTransport {
    fn receive_event(&mut self) -> Option<ClientTransportEvent> {
        None
    }

    fn send(&mut self, data: &[u8]) {
        self.sent.borrow_mut().push(data.to_vec());
    }
}

fn recording() -> (Rc<RefCell<Vec<Vec<u8>>>>, RecordingTransport) {
    let sent = Rc::new(RefCell::new(Vec::new()));
    let transport = RecordingTransport { sent: Rc::clone(&sent) };
    (sent, transport)
}

#[test]
fn total_loss_delivers_nothing() {
    let (sent, inner) = recording();
    let mut sim = ClientSimulatorTransport::new(LOSS_DENOMINATOR, 0, inner);
    for draw in [0u32, 1, 1 << 16, u32::MAX] {
        sim.offer(draw, 100, b"doomed");
    }
    sim.flush_due(u64::MAX);
    assert_eq!(sent.borrow().len(), 0);
}

#[test]
fn no_loss_delivers_everything_in_order() {
    let (sent, inner) = recording();
    let mut sim = ClientSimulatorTransport::new(0, 50, inner);
    sim.offer(0, 100, b"a");
    sim.offer(u32::MAX, 110, b"b");
    sim.offer(7, 120, b"c");

    // Nothing may leave before its 50-unit latency has passed.
    sim.flush_due(149);
    assert_eq!(sent.borrow().len(), 0);
    sim.flush_due(150);
    assert_eq!(*sent.borrow(), vec![b"a".to_vec()]);
    sim.flush_due(200);
    assert_eq!(*sent.borrow(), vec![b"a".to_vec(), b"b".to_vec(), b"c".to_vec()]);
}

#[test]
fn loss_draws_decide_survival() {
    // With the threshold in the middle, a draw below it drops the packet
    // and a draw at or above it keeps it.
    let threshold = 1u64 << 31;
    let (sent, inner) = recording();
    let mut sim = ClientSimulatorTransport::new(threshold, 0, inner);
    sim.offer((threshold - 1) as u32, 0, b"dropped");
    sim.offer(threshold as u32, 0, b"kept");
    sim.offer(u32::MAX, 0, b"kept too");
    sim.flush_due(1000);
    assert_eq!(*sent.borrow(), vec![b"kept".to_vec(), b"kept too".to_vec()]);
}

#[test]
fn fixed_draws_reproduce_the_same_subsequence() {
    // Determinism: the same draw sequence and configuration select the
    // same delivered subsequence, run after run.
    let draws: Vec<u32> = vec![12, 0xffff_0000, 3, 0x8000_0000, 77, 0xdead_beef];
    let sends: Vec<Vec<u8>> = (0u8..6).map(|i| vec![i; 3]).collect();
    let threshold = 1u64 << 20;

    let mut outcomes: Vec<Vec<Vec<u8>>> = Vec::new();
    for _ in 0..2 {
        let (sent, inner) = recording();
        let mut sim = ClientSimulatorTransport::new(threshold, 5, inner);
        for (draw, data) in draws.iter().zip(sends.iter()) {
            sim.offer(*draw, 0, data);
        }
        sim.flush_due(u64::MAX);
        outcomes.push(sent.borrow().clone());
    }
    assert_eq!(outcomes[0], outcomes[1]);
    // And the survivors are exactly the sends whose draw cleared the
    // threshold, in sending order.
    let expected: Vec<Vec<u8>> = draws
        .iter()
        .zip(sends.iter())
        .filter(|(d, _)| **d as u64 >= threshold)
        .map(|(_, s)| s.clone())
        .collect();
    assert_eq!(outcomes[0], expected);
}

#[test]
fn transport_send_path_delivers_through_inner() {
    // Through the ClientTransport face with no loss and no latency, every
    // send reaches the inner transport once flushed.
    let (sent, inner) = recording();
    let mut sim = ClientSimulatorTransport::new(0, 0, inner);
    sim.send(b"live");
    sim.flush_due(u64::MAX);
    assert_eq!(*sent.borrow(), vec![b"live".to_vec()]);
    assert_eq!(sim.receive_event(), None);
}
