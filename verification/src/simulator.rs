//! Fault-injecting simulator: wraps a client transport, drops each outgoing
//! packet with a configured probability and delays the rest by a configured
//! latency, preserving order.
//!
//! The loss probability is `loss / 2^32`: a uniform 32-bit draw below
//! `loss` drops the packet, so `loss = 0` keeps everything and
//! `loss = 2^32` drops everything. Which packets survive is a pure function
//! of the draws and the configuration (`sim_deliver`), so a fixed draw
//! sequence reproduces the same delivered subsequence. Delivery is driven
//! cooperatively: the caller pumps `flush_due` (typically from a background
//! thread) to forward packets whose deadline has passed to the inner
//! transport.

use vstd::prelude::*;
use crate::transport::{ClientTransport, ClientTransportEvent, MAX_MSG_SIZE, DATAGRAM_FRAMING_OVERHEAD};

verus! {

/// One draw of `2^32` equally likely values: the whole loss range.
pub const LOSS_DENOMINATOR: u64 = 0x1_0000_0000;

/// Whether a draw lets the packet through under loss numerator `loss`.
pub open spec fn spec_keep(draw: u32, loss: u64) -> bool {
    draw as u64 >= loss
}

/// A packet waiting out its latency.
#[derive(Clone, PartialEq, Eq, Debug)]
pub struct PendingPacket {
    pub deadline: u64,
    pub bytes: Vec<u8>,
}

/// Mathematical value of a `PendingPacket`.
#[verifier::ext_equal]
pub struct PendingPacketModel {
    pub deadline: u64,
    pub bytes: Seq<u8>,
}

impl View for PendingPacket {
    type V = PendingPacketModel;

    open spec fn view(&self) -> PendingPacketModel {
        PendingPacketModel { deadline: self.deadline, bytes: self.bytes@ }
    }
}

/// The deadline a packet offered at `now` must wait for.
pub open spec fn spec_deadline(now: u64, latency: u64) -> u64 {
    if now + latency <= u64::MAX {
        (now + latency) as u64
    } else {
        u64::MAX
    }
}

/// The queue after one offered packet: appended exactly when its draw
/// keeps it.
pub open spec fn sim_offer(pending: Seq<PendingPacketModel>, draw: u32, now: u64, data: Seq<u8>, loss: u64, latency: u64) -> Seq<PendingPacketModel> {
    if spec_keep(draw, loss) {
        pending.push(PendingPacketModel { deadline: spec_deadline(now, latency), bytes: data })
    } else {
        pending
    }
}

/// The subsequence of `sends` that survives the loss draws, in order: the
/// delivered subsequence is a pure function of the draws and the loss
/// numerator, so equal histories deliver equal subsequences.
pub open spec fn sim_deliver(draws: Seq<u32>, sends: Seq<Seq<u8>>, loss: u64) -> Seq<Seq<u8>>
    decreases draws.len(),
{
    if draws.len() == 0 || sends.len() == 0 {
        Seq::empty()
    } else {
        let rest = sim_deliver(draws.drop_last(), sends.drop_last(), loss);
        if spec_keep(draws.last(), loss) {
            rest.push(sends.last())
        } else {
            rest
        }
    }
}

/// With the whole range lost, nothing is delivered.
pub proof fn lemma_total_loss_delivers_nothing(draws: Seq<u32>, sends: Seq<Seq<u8>>, loss: u64)
    requires
        loss >= LOSS_DENOMINATOR,
    ensures
        sim_deliver(draws, sends, loss) == Seq::<Seq<u8>>::empty(),
    decreases draws.len(),
{
    if draws.len() != 0 && sends.len() != 0 {
        assert(draws.last() < LOSS_DENOMINATOR) by {
            assert(draws.last() <= u32::MAX);
        }
        lemma_total_loss_delivers_nothing(draws.drop_last(), sends.drop_last(), loss);
    }
}

/// With no loss, every send is delivered, in order.
pub proof fn lemma_no_loss_delivers_all(draws: Seq<u32>, sends: Seq<Seq<u8>>)
    requires
        draws.len() == sends.len(),
    ensures
        sim_deliver(draws, sends, 0) == sends,
    decreases draws.len(),
{
    if draws.len() == 0 {
        assert(sim_deliver(draws, sends, 0) =~= sends);
    } else {
        lemma_no_loss_delivers_all(draws.drop_last(), sends.drop_last());
        assert(sim_deliver(draws, sends, 0) =~= sends);
    }
}

/// The queue grown by a whole history of offers.
pub open spec fn offer_fold(pending: Seq<PendingPacketModel>, draws: Seq<u32>, nows: Seq<u64>, sends: Seq<Seq<u8>>, loss: u64, latency: u64) -> Seq<PendingPacketModel>
    decreases draws.len(),
{
    if draws.len() == 0 || nows.len() == 0 || sends.len() == 0 {
        pending
    } else {
        sim_offer(
            offer_fold(pending, draws.drop_last(), nows.drop_last(), sends.drop_last(), loss, latency),
            draws.last(),
            nows.last(),
            sends.last(),
            loss,
            latency,
        )
    }
}

/// The payload bytes of a queue, in order.
pub open spec fn pending_bytes(s: Seq<PendingPacketModel>) -> Seq<Seq<u8>>
    decreases s.len(),
{
    if s.len() == 0 {
        Seq::empty()
    } else {
        pending_bytes(s.drop_last()).push(s.last().bytes)
    }
}

/// Simulator determinism: which packets join the delay queue — and so
/// reach the inner transport, in order — is a pure function of the draw
/// sequence and the loss numerator alone, so fixing the random seed and
/// the configuration reproduces the same delivered subsequence.
pub proof fn lemma_simulator_deterministic(draws: Seq<u32>, nows: Seq<u64>, sends: Seq<Seq<u8>>, loss: u64, latency: u64)
    requires
        draws.len() == nows.len(),
        nows.len() == sends.len(),
    ensures
        pending_bytes(offer_fold(Seq::empty(), draws, nows, sends, loss, latency)) == sim_deliver(draws, sends, loss),
    decreases draws.len(),
{
    if draws.len() > 0 {
        lemma_simulator_deterministic(draws.drop_last(), nows.drop_last(), sends.drop_last(), loss, latency);
        let q = offer_fold(Seq::empty(), draws.drop_last(), nows.drop_last(), sends.drop_last(), loss, latency);
        if spec_keep(draws.last(), loss) {
            let x = PendingPacketModel { deadline: spec_deadline(nows.last(), latency), bytes: sends.last() };
            assert(q.push(x).drop_last() =~~= q);
            assert(q.push(x).last() == x);
            assert(pending_bytes(q.push(x)) =~~= pending_bytes(q).push(x.bytes));
            assert(pending_bytes(offer_fold(Seq::empty(), draws, nows, sends, loss, latency))
                =~~= sim_deliver(draws, sends, loss));
        } else {
            assert(pending_bytes(offer_fold(Seq::empty(), draws, nows, sends, loss, latency))
                =~~= sim_deliver(draws, sends, loss));
        }
    }
}

/// Relies on rand::random: a uniformly distributed random `u32` from the
/// thread-local generator. Nothing is assumed of the value.
#[verifier::external_body]
fn random_u32() -> u32 {
    rand::random::<u32>()
}

/// Relies on std::time::SystemTime::now and duration_since: the wall clock
/// as whole milliseconds since the Unix epoch, zero if the clock sits
/// before it. Nothing is assumed of the value.
#[verifier::external_body]
fn now_millis() -> u64 {
    match std::time::SystemTime::now().duration_since(std::time::UNIX_EPOCH) {
        Ok(d) => d.as_millis() as u64,
        Err(_) => 0,
    }
}

/// The simulator: an inner transport, the delay queue, and the fault
/// configuration.
pub struct ClientSimulatorTransport<T: ClientTransport> {
    inner: T,
    pending: std::collections::VecDeque<PendingPacket>,
    loss: u64,
    latency: u64,
}

impl<T: ClientTransport> View for ClientSimulatorTransport<T> {
    type V = Seq<PendingPacketModel>;

    closed spec fn view(&self) -> Seq<PendingPacketModel> {
        self.pending@.map_values(|p: PendingPacket| p@)
    }
}

impl<T: ClientTransport> ClientSimulatorTransport<T> {
    /// Every queued packet fits through the inner transport.
    pub open spec fn wf(self) -> bool {
        forall|i: int| 0 <= i < self@.len()
            ==> (#[trigger] self@[i].bytes).len() + DATAGRAM_FRAMING_OVERHEAD <= MAX_MSG_SIZE
    }

    /// The configured loss numerator over `LOSS_DENOMINATOR`.
    pub closed spec fn loss_numerator(self) -> u64 {
        self.loss
    }

    /// The configured latency, in milliseconds.
    pub closed spec fn latency_of(self) -> u64 {
        self.latency
    }

    /// Wraps `transport`, dropping sends with probability
    /// `loss / 2^32` and delaying the rest by `latency` milliseconds.
    pub fn new(loss: u64, latency: u64, transport: T) -> (s: ClientSimulatorTransport<T>)
        requires
            loss <= LOSS_DENOMINATOR,
        ensures
            s@ == Seq::<PendingPacketModel>::empty(),
            s.loss_numerator() == loss,
            s.latency_of() == latency,
            s.wf(),
    {
        let s = ClientSimulatorTransport {
            inner: transport,
            pending: std::collections::VecDeque::new(),
            loss,
            latency,
        };
        proof {
            assert(s@ =~~= Seq::<PendingPacketModel>::empty());
        }
        s
    }

    /// Applies one loss draw at time `now`: the packet joins the delay
    /// queue exactly when the draw keeps it, as `sim_offer` describes.
    pub fn offer(&mut self, draw: u32, now: u64, data: &[u8])
        requires
            data@.len() + DATAGRAM_FRAMING_OVERHEAD <= MAX_MSG_SIZE,
            old(self).wf(),
        ensures
            final(self)@ == sim_offer(old(self)@, draw, now, data@, old(self).loss_numerator(), old(self).latency_of()),
            final(self).loss_numerator() == old(self).loss_numerator(),
            final(self).latency_of() == old(self).latency_of(),
            final(self).wf(),
    {
        if draw as u64 >= self.loss {
            let deadline = if now <= u64::MAX - self.latency {
                now + self.latency
            } else {
                u64::MAX
            };
            let bytes = vstd::slice::slice_to_vec(data);
            self.pending.push_back(PendingPacket { deadline, bytes });
            proof {
                assert(self@ =~~= old(self)@.push(PendingPacketModel {
                    deadline: spec_deadline(now, old(self).latency_of()),
                    bytes: data@,
                }));
            }
        }
    }

    /// Forwards the front packet to the inner transport if its deadline
    /// has passed; says whether it did. Packets leave in arrival order.
    pub fn pop_ready(&mut self, now: u64) -> (sent: bool)
        requires
            old(self).wf(),
        ensures
            sent == (old(self)@.len() > 0 && old(self)@[0].deadline <= now),
            sent ==> final(self)@ == old(self)@.skip(1),
            !sent ==> final(self)@ == old(self)@,
            final(self).loss_numerator() == old(self).loss_numerator(),
            final(self).latency_of() == old(self).latency_of(),
            final(self).wf(),
    {
        let due = self.pending.len() > 0 && self.pending[0].deadline <= now;
        if due {
            match self.pending.pop_front() {
                Some(p) => {
                    proof {
                        assert(self@ =~~= old(self)@.skip(1));
                        assert(old(self)@[0].bytes.len() + DATAGRAM_FRAMING_OVERHEAD <= MAX_MSG_SIZE);
                        assert(p@ == old(self)@[0]);
                    }
                    self.inner.send(p.bytes.as_slice());
                },
                None => {},
            }
            true
        } else {
            proof {
                assert(self@ =~~= old(self)@);
            }
            false
        }
    }

    /// Forwards exactly the leading run of packets whose deadlines have
    /// passed to the inner transport, in arrival order; the caller pumps
    /// this from its delivery loop.
    pub fn flush_due(&mut self, now: u64)
        requires
            old(self).wf(),
        ensures
            final(self).wf(),
            final(self).loss_numerator() == old(self).loss_numerator(),
            final(self).latency_of() == old(self).latency_of(),
            final(self)@ == old(self)@.skip(due_prefix_len(old(self)@, now)),
            final(self)@.len() > 0 ==> final(self)@[0].deadline > now,
    {
        loop
            invariant
                self.wf(),
                self.loss_numerator() == old(self).loss_numerator(),
                self.latency_of() == old(self).latency_of(),
                self@.len() <= old(self)@.len(),
                self@ == old(self)@.skip(old(self)@.len() - self@.len()),
                due_prefix_len(old(self)@, now) == old(self)@.len() - self@.len()
                    + due_prefix_len(self@, now),
            ensures
                self@.len() > 0 ==> self@[0].deadline > now,
                self@ == old(self)@.skip(old(self)@.len() - self@.len()),
                due_prefix_len(old(self)@, now) == old(self)@.len() - self@.len(),
            decreases self@.len(),
        {
            let ghost before = self@;
            if !self.pop_ready(now) {
                break;
            }
            proof {
                let k = old(self)@.len() - before.len();
                assert(old(self)@.skip(k).skip(1) =~= old(self)@.skip(k + 1));
                assert(due_prefix_len(before, now) == 1 + due_prefix_len(before.skip(1), now));
            }
        }
        proof {
            assert(self@ =~= old(self)@.skip(due_prefix_len(old(self)@, now)));
        }
    }
}

/// How many leading packets of the queue are already due at `now`: the run
/// `flush_due` forwards.
pub open spec fn due_prefix_len(s: Seq<PendingPacketModel>, now: u64) -> int
    decreases s.len(),
{
    if s.len() == 0 || s[0].deadline > now {
        0
    } else {
        1 + due_prefix_len(s.skip(1), now)
    }
}

impl<T: ClientTransport> ClientTransport for ClientSimulatorTransport<T> {
    /// Polling passes through to the inner transport and leaves the delay
    /// queue and the configuration untouched.
    fn receive_event(&mut self) -> (r: Option<ClientTransportEvent>)
        ensures
            final(self)@ == old(self)@,
            final(self).loss_numerator() == old(self).loss_numerator(),
            final(self).latency_of() == old(self).latency_of(),
    {
        self.inner.receive_event()
    }

    /// Draws the loss lot for one packet at the current time and applies it
    /// as one `sim_offer` step: the packet joins the delay queue exactly
    /// when its draw keeps it.
    fn send(&mut self, data: &[u8])
        ensures
            final(self).loss_numerator() == old(self).loss_numerator(),
            final(self).latency_of() == old(self).latency_of(),
            exists|draw: u32, now: u64|
                final(self)@ == sim_offer(old(self)@, draw, now, data@,
                    old(self).loss_numerator(), old(self).latency_of()),
    {
        let draw = random_u32();
        let now = now_millis();
        if draw as u64 >= self.loss {
            let deadline = if now <= u64::MAX - self.latency {
                now + self.latency
            } else {
                u64::MAX
            };
            let bytes = vstd::slice::slice_to_vec(data);
            self.pending.push_back(PendingPacket { deadline, bytes });
        }
        proof {
            assert(self@ =~~= sim_offer(old(self)@, draw, now, data@,
                old(self).loss_numerator(), old(self).latency_of()));
        }
    }
}

} // verus!
