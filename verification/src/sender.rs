//! Sender of packets over a stream, as an automaton without input and output.
//!
//! It touches neither socket nor clock: it takes an [`Event`], the outcome of
//! the action before, and gives the next [`Action`]. A driver performs the
//! action on a real socket and hands the outcome back.
//!
//! The batch is dropped only on [`Event::Flushed`], when the peer has
//! acknowledged every byte. After an error before that, the same batch goes out
//! whole on a new connection; the receiver is idempotent in the time of a
//! reading. A packet is written until the socket has taken all of it: a partial
//! write left alone would tear the framing of the stream.

use vstd::prelude::*;

use crate::backlog;
use crate::backlog::SensorQueue;
use crate::crypto::Cipher;
use crate::time;
use crate::time::Duration;
use crate::wire;
use crate::wire::{
    PacketBuf, PacketCounter, PacketError, SensorBatch, SensorData, BUF_LEN, LEN_PREFIX, MAX_BATCH, TAG_LEN,
};

verus! {

/// Seconds before a failed connect is tried again.
pub const CONNECT_RETRY: u64 = 5;

/// Seconds before reconnecting after sending broke off.
pub const SEND_RETRY: u64 = 3;

/// Seconds between delivered packets: the backlog drains without a volley.
pub const SEND_PACING: u64 = 3;

/// Seconds between looks into an empty queue.
pub const EMPTY_POLL: u64 = 1;

/// Outcome of an action that the driver performed.
#[derive(Clone, Copy, PartialEq, Eq, Structural, Debug)]
pub enum Event {
    /// `Connect` succeeded.
    Connected,
    /// The socket took the first bytes of `Write`, this many.
    Written(usize),
    /// `Flush`: the peer acknowledged all that was written.
    Flushed,
    /// Any error or timeout of the socket; the driver has closed the connection.
    Failed,
    /// `Sleep` is over.
    Woke,
}

/// What the driver is to do next.
#[derive(PartialEq, Eq, Debug)]
pub enum Action<'a> {
    /// Open a new connection.
    Connect,
    /// Write these bytes; report how many were taken.
    Write(&'a [u8]),
    /// Wait until all that was written is acknowledged.
    Flush,
    Sleep(Duration),
}

/// What the sender waits for.
#[derive(Clone, Copy, PartialEq, Eq, Structural, Debug)]
pub enum Phase {
    /// The outcome of `Connect`.
    Connecting,
    /// The end of the pause before `Connect`.
    Backoff,
    /// The connection is up; the end of the pause before the next packet.
    Idle,
    /// The packet of `len` bytes is being written, `sent` of them are.
    Writing { sent: usize, len: usize },
    /// The packet is written; the acknowledgement.
    Flushing,
}

/// The sender.
pub struct Sender {
    cipher: Cipher,
    phase: Phase,
    batch: SensorBatch,
    counter: PacketCounter,
    packet: PacketBuf,
}

/// Can `event` be the outcome of the action that was given in `phase`.
pub open spec fn is_outcome(phase: Phase, event: Event) -> bool {
    match (phase, event) {
        (Phase::Connecting, Event::Connected) => true,
        (Phase::Connecting, Event::Failed) => true,
        (Phase::Backoff, Event::Woke) => true,
        (Phase::Idle, Event::Woke) => true,
        (Phase::Writing { sent, len }, Event::Written(n)) => 1 <= n <= len - sent,
        (Phase::Writing { .. }, Event::Failed) => true,
        (Phase::Flushing, Event::Flushed) => true,
        (Phase::Flushing, Event::Failed) => true,
        _ => false,
    }
}

/// What an outcome says of the server: `Some(true)`: it cannot be reached,
/// `Some(false)`: it can, `None`: nothing new.
pub fn server_missing(event: Event) -> (missing: Option<bool>)
    ensures
        missing == match event {
            Event::Failed => Some(true),
            Event::Connected => Some(false),
            _ => None,
        },
{
    match event {
        Event::Failed => Some(true),
        Event::Connected => Some(false),
        _ => None,
    }
}

/// Does the event free the connection for the next packet.
pub open spec fn starts_packet(phase: Phase, event: Event) -> bool {
    (phase == Phase::Connecting && event == Event::Connected) || (phase == Phase::Idle && event == Event::Woke)
}

/// How many of `n` queued readings one packet takes.
pub open spec fn packet_share(n: nat) -> nat {
    if n > MAX_BATCH {
        MAX_BATCH as nat
    } else {
        n
    }
}

/// The readings that the next packet carries: those in flight, or else the
/// oldest in the queue.
pub open spec fn next_batch(batch: Seq<SensorData>, queue: Seq<SensorData>) -> Seq<SensorData> {
    if batch.len() > 0 {
        batch
    } else {
        queue.take(packet_share(queue.len()) as int)
    }
}

/// What the queue keeps when the next packet is made up.
pub open spec fn queue_rest(batch: Seq<SensorData>, queue: Seq<SensorData>) -> Seq<SensorData> {
    if batch.len() > 0 {
        queue
    } else {
        queue.skip(packet_share(queue.len()) as int)
    }
}

/// Is `a` a pause of `secs` seconds.
pub open spec fn is_sleep(a: Action, secs: u64) -> bool {
    a matches Action::Sleep(d) && d.nanos == secs * time::NANOS_PER_SEC
}

impl Sender {
    /// The key of its cipher.
    pub closed spec fn key(&self) -> Seq<u8> {
        self.cipher.key@
    }

    /// What it waits for.
    pub closed spec fn phase(&self) -> Phase {
        self.phase
    }

    /// The readings in flight: taken from the queue, not acknowledged yet.
    pub closed spec fn batch(&self) -> Seq<SensorData> {
        wire::batch_rows(self.batch)
    }

    /// Number of the next packet of the connection.
    pub closed spec fn counter(&self) -> PacketCounter {
        self.counter
    }

    /// The packet buffer.
    pub closed spec fn packet(&self) -> Seq<u8> {
        self.packet@
    }

    /// While a packet is being written, the buffer holds the packet of the
    /// readings in flight under the number before the next; there are readings
    /// in flight as long as it is not acknowledged.
    pub open spec fn wf(&self) -> bool {
        &&& self.packet().len() == BUF_LEN
        &&& self.batch().len() <= MAX_BATCH
        &&& self.counter().0 >= 1
        &&& self.phase() is Flushing ==> self.batch().len() > 0
        &&& match self.phase() {
            Phase::Writing { sent, len } => {
                &&& sent < len <= BUF_LEN
                &&& self.batch().len() > 0
                &&& self.counter().0 > 1
                &&& self.packet().take(len as int) == wire::packet_of(
                    self.key(),
                    PacketCounter((self.counter().0 - 1) as u64),
                    self.batch(),
                )
                &&& wire::reads_back(
                    self.key(),
                    PacketCounter((self.counter().0 - 1) as u64),
                    self.batch(),
                )
            },
            _ => true,
        }
    }

    /// A sender that is about to connect, with nothing in flight.
    pub fn new(cipher: Cipher) -> (s: Sender)
        ensures
            s.wf(),
            s.key() == cipher.key@,
            s.phase() == Phase::Connecting,
            s.batch() == Seq::<SensorData>::empty(),
            s.counter().0 == 1,
    {
        Sender {
            cipher,
            phase: Phase::Connecting,
            batch: wire::batch_new(),
            counter: PacketCounter::first(),
            packet: [0u8; BUF_LEN],
        }
    }

    /// The first action.
    pub fn start(&self) -> (a: Action<'_>)
        requires
            self.phase() == Phase::Connecting,
        ensures
            a is Connect,
    {
        Action::Connect
    }

    /// How many readings are in flight.
    pub fn in_flight(&self) -> (n: usize)
        ensures
            n == self.batch().len(),
    {
        wire::batch_len(&self.batch)
    }

    /// Can `event` be handed in now: it is an outcome of the action before, and
    /// there is a number left for a packet.
    pub fn expects(&self, event: Event) -> (expected: bool)
        ensures
            expected <==> is_outcome(self.phase(), event) && (self.phase() is Idle ==> self.counter().0 < u64::MAX),
    {
        match (self.phase, event) {
            (Phase::Connecting, Event::Connected) => true,
            (Phase::Connecting, Event::Failed) => true,
            (Phase::Backoff, Event::Woke) => true,
            (Phase::Idle, Event::Woke) => self.counter.0 < u64::MAX,
            (Phase::Writing { sent, len }, Event::Written(n)) => 1 <= n && sent <= len && n <= len - sent,
            (Phase::Writing { .. }, Event::Failed) => true,
            (Phase::Flushing, Event::Flushed) => true,
            (Phase::Flushing, Event::Failed) => true,
            _ => false,
        }
    }

    /// Takes the outcome of the action before and gives the next. The queue is
    /// touched only when nothing is in flight and the connection is free.
    pub fn step(&mut self, event: Event, queue: &mut SensorQueue) -> (a: Action<'_>)
        requires
            old(self).wf(),
            is_outcome(old(self).phase(), event),
            old(self).phase() is Idle ==> old(self).counter().0 < u64::MAX,
        ensures
            final(self).wf(),
            final(self).key() == old(self).key(),
            // The queue and the readings in flight.
            starts_packet(old(self).phase(), event) ==> {
                &&& final(self).batch() == next_batch(old(self).batch(), backlog::queue_rows(*old(queue)))
                &&& backlog::queue_rows(*final(queue)) == queue_rest(
                    old(self).batch(),
                    backlog::queue_rows(*old(queue)),
                )
            },
            !starts_packet(old(self).phase(), event) ==> {
                &&& backlog::queue_rows(*final(queue)) == backlog::queue_rows(*old(queue))
                &&& final(self).batch() == if event is Flushed {
                    Seq::empty()
                } else {
                    old(self).batch()
                }
            },
            // The next phase and the action.
            starts_packet(old(self).phase(), event) && final(self).batch().len() == 0 ==> {
                &&& final(self).phase() == Phase::Idle
                &&& is_sleep(a, EMPTY_POLL)
                &&& final(self).counter().0 == if event is Connected {
                    1
                } else {
                    old(self).counter().0
                }
            },
            starts_packet(old(self).phase(), event) && final(self).batch().len() > 0 ==> {
                let number = if event is Connected {
                    1u64
                } else {
                    old(self).counter().0
                };
                let packet = wire::packet_of(old(self).key(), PacketCounter(number), final(self).batch());
                &&& final(self).counter().0 == number + 1
                &&& final(self).phase() == (Phase::Writing { sent: 0, len: packet.len() as usize })
                &&& packet.len() <= BUF_LEN
                &&& packet.len() == LEN_PREFIX + wire::batch_text(final(self).batch()).len() + TAG_LEN
                &&& wire::payload_rows(old(self).key(), PacketCounter(number), packet.skip(LEN_PREFIX as int)) == Ok::<
                    Seq<SensorData>,
                    PacketError,
                >(final(self).batch())
                &&& wire::reads_back(old(self).key(), PacketCounter(number), final(self).batch())
                &&& a matches Action::Write(bytes) && bytes@ == packet
            },
            !starts_packet(old(self).phase(), event) ==> final(self).counter() == old(self).counter(),
            !starts_packet(old(self).phase(), event) ==> final(self).packet() == old(self).packet(),
            match (old(self).phase(), event) {
                (Phase::Connecting, Event::Failed) => final(self).phase() == Phase::Backoff && is_sleep(
                    a,
                    CONNECT_RETRY,
                ),
                (Phase::Backoff, Event::Woke) => final(self).phase() == Phase::Connecting && a is Connect,
                (Phase::Writing { sent, len }, Event::Written(n)) => if sent + n == len {
                    final(self).phase() == Phase::Flushing && a is Flush
                } else {
                    &&& final(self).phase() == (Phase::Writing { sent: (sent + n) as usize, len })
                    &&& a matches Action::Write(bytes) && bytes@ == old(self).packet().subrange(
                        sent + n,
                        len as int,
                    )
                },
                (Phase::Flushing, Event::Flushed) => final(self).phase() == Phase::Idle && is_sleep(
                    a,
                    SEND_PACING,
                ),
                (Phase::Writing { .. }, Event::Failed) => final(self).phase() == Phase::Backoff && is_sleep(
                    a,
                    SEND_RETRY,
                ),
                (Phase::Flushing, Event::Failed) => final(self).phase() == Phase::Backoff && is_sleep(
                    a,
                    SEND_RETRY,
                ),
                _ => true,
            },
            // The pauses.
            old(self).phase() is Connecting && event is Failed ==> (a matches Action::Sleep(d) && d.nanos
                == 5_000_000_000),
            (old(self).phase() is Writing || old(self).phase() is Flushing) && event is Failed ==> (a matches Action::Sleep(
                d,
            ) && d.nanos == 3_000_000_000),
            old(self).phase() is Flushing && event is Flushed ==> (a matches Action::Sleep(d) && d.nanos
                == 3_000_000_000),
            starts_packet(old(self).phase(), event) && final(self).batch().len() == 0 ==> (a matches Action::Sleep(d)
                && d.nanos == 1_000_000_000),
    {
        match (self.phase, event) {
            (Phase::Connecting, Event::Connected) => {
                self.counter = PacketCounter::first();
                self.next_packet(queue)
            },
            (Phase::Connecting, Event::Failed) => self.backoff(CONNECT_RETRY),
            (Phase::Backoff, Event::Woke) => {
                self.phase = Phase::Connecting;
                Action::Connect
            },
            (Phase::Idle, Event::Woke) => self.next_packet(queue),
            (Phase::Writing { sent, len }, Event::Written(n)) => {
                let sent: usize = sent + n;
                if sent == len {
                    self.phase = Phase::Flushing;
                    Action::Flush
                } else {
                    self.phase = Phase::Writing { sent, len };
                    Action::Write(vstd::slice::slice_subrange(self.packet.as_slice(), sent, len))
                }
            },
            (Phase::Flushing, Event::Flushed) => {
                wire::batch_clear(&mut self.batch);
                self.phase = Phase::Idle;
                Action::Sleep(Duration::from_secs(SEND_PACING))
            },
            _ => self.backoff(SEND_RETRY),
        }
    }

    fn backoff(&mut self, pause: u64) -> (a: Action<'_>)
        requires
            old(self).wf(),
        ensures
            final(self).wf(),
            final(self).key() == old(self).key(),
            final(self).batch() == old(self).batch(),
            final(self).counter() == old(self).counter(),
            final(self).packet() == old(self).packet(),
            final(self).phase() == Phase::Backoff,
            is_sleep(a, pause),
    {
        self.phase = Phase::Backoff;
        Action::Sleep(Duration::from_secs(pause))
    }

    /// The connection is up and free: makes up a batch, or goes on with the one
    /// that was not delivered, and starts to write its packet.
    fn next_packet(&mut self, queue: &mut SensorQueue) -> (a: Action<'_>)
        requires
            old(self).packet().len() == BUF_LEN,
            old(self).batch().len() <= MAX_BATCH,
            1 <= old(self).counter().0 < u64::MAX,
        ensures
            final(self).wf(),
            final(self).key() == old(self).key(),
            final(self).batch() == next_batch(old(self).batch(), backlog::queue_rows(*old(queue))),
            backlog::queue_rows(*final(queue)) == queue_rest(
                old(self).batch(),
                backlog::queue_rows(*old(queue)),
            ),
            final(self).batch().len() == 0 ==> {
                &&& final(self).phase() == Phase::Idle
                &&& final(self).counter() == old(self).counter()
                &&& is_sleep(a, EMPTY_POLL)
            },
            final(self).batch().len() > 0 ==> {
                let packet = wire::packet_of(old(self).key(), old(self).counter(), final(self).batch());
                &&& final(self).counter().0 == old(self).counter().0 + 1
                &&& final(self).phase() == (Phase::Writing { sent: 0, len: packet.len() as usize })
                &&& packet.len() <= BUF_LEN
                &&& wire::reads_back(old(self).key(), old(self).counter(), final(self).batch())
                &&& a matches Action::Write(bytes) && bytes@ == packet
            },
    {
        let ghost all = backlog::queue_rows(*queue);
        if wire::batch_len(&self.batch) == 0 {
            assert(all.take(0) =~= self.batch());
            assert(all.skip(0) =~= all);
            let mut room = true;
            while room
                invariant
                    self.packet == old(self).packet,
                    self.cipher == old(self).cipher,
                    self.counter == old(self).counter,
                    all == backlog::queue_rows(*old(queue)),
                    self.batch().len() <= packet_share(all.len()),
                    self.batch() == all.take(self.batch().len() as int),
                    backlog::queue_rows(*queue) == all.skip(self.batch().len() as int),
                    !room ==> self.batch().len() == packet_share(all.len()),
                decreases (if room {
                    MAX_BATCH + 1 - self.batch().len()
                } else {
                    0
                }),
            {
                let ghost n = self.batch().len() as int;
                if wire::batch_len(&self.batch) == MAX_BATCH {
                    room = false;
                } else {
                    match backlog::dequeue(queue) {
                        Some(reading) => {
                            wire::batch_push(&mut self.batch, reading);
                            assert(all.take(n + 1) =~= all.take(n).push(reading));
                            assert(all.skip(n + 1) =~= all.skip(n).drop_first());
                        },
                        None => {
                            room = false;
                        },
                    }
                }
            }
        }
        if wire::batch_len(&self.batch) == 0 {
            self.phase = Phase::Idle;
            return Action::Sleep(Duration::from_secs(EMPTY_POLL));
        }
        let len: usize = wire::encode_packet(&self.cipher, self.counter, &self.batch, &mut self.packet);
        assert(wire::packet_of(self.key(), self.counter(), self.batch()).len() == len);
        self.counter = self.counter.next();
        self.phase = Phase::Writing { sent: 0, len };
        assert(self.packet@.subrange(0, len as int) =~= self.packet@.take(len as int));
        Action::Write(vstd::slice::slice_subrange(self.packet.as_slice(), 0, len))
    }
}

/// Making up a packet loses no reading and keeps their order: what was in
/// flight and queued still is.
pub proof fn packets_lose_nothing(batch: Seq<SensorData>, queue: Seq<SensorData>)
    ensures
        next_batch(batch, queue) + queue_rest(batch, queue) == batch + queue,
        next_batch(batch, queue).len() == 0 <==> batch.len() == 0 && queue.len() == 0,
{
    assert(next_batch(batch, queue) + queue_rest(batch, queue) =~= batch + queue);
}

/// Every phase has an outcome, so a driver can always go on.
pub proof fn some_outcome(phase: Phase)
    requires
        phase matches Phase::Writing { sent, len } ==> sent < len,
    ensures
        exists|event: Event| is_outcome(phase, event),
{
    match phase {
        Phase::Connecting => assert(is_outcome(phase, Event::Connected)),
        Phase::Backoff => assert(is_outcome(phase, Event::Woke)),
        Phase::Idle => assert(is_outcome(phase, Event::Woke)),
        Phase::Writing { .. } => assert(is_outcome(phase, Event::Failed)),
        Phase::Flushing => assert(is_outcome(phase, Event::Failed)),
    }
}

/// The pieces of a packet that the socket takes make up the packet: each write
/// offers exactly what is left of it.
pub proof fn writes_make_up_packet(packet: Seq<u8>, sent: int, n: int)
    requires
        0 <= sent,
        0 <= n,
        sent + n <= packet.len(),
    ensures
        packet.take(sent) + packet.skip(sent).take(n) == packet.take(sent + n),
        packet.skip(sent).skip(n) == packet.skip(sent + n),
{
    assert(packet.take(sent) + packet.skip(sent).take(n) =~= packet.take(sent + n));
    assert(packet.skip(sent).skip(n) =~= packet.skip(sent + n));
}

/// Readings leave in the order in which they were queued, at most 24 in a
/// packet, and a packet is full unless it empties the queue; readings in flight go
/// again before any other.
pub proof fn packets_are_filled(batch: Seq<SensorData>, queue: Seq<SensorData>)
    ensures
        batch.len() > 0 ==> next_batch(batch, queue) == batch && queue_rest(batch, queue) == queue,
        batch.len() == 0 ==> {
            &&& next_batch(batch, queue).len() <= 24
            &&& next_batch(batch, queue).len() == 24 || queue_rest(batch, queue).len() == 0
            &&& next_batch(batch, queue) + queue_rest(batch, queue) == queue
        },
{
    packets_lose_nothing(batch, queue);
    if batch.len() == 0 {
        assert(batch + queue =~= queue);
    }
}

/// A packet is made up only on a fresh connection or after a pause on one that
/// is up; a write is over when all that was offered is taken, and may take any
/// part of it but nothing.
pub proof fn outcomes_match_their_action(phase: Phase, event: Event)
    ensures
        starts_packet(phase, event) ==> is_outcome(phase, event),
        starts_packet(phase, event) <==> (phase is Connecting && event is Connected) || (phase is Idle && event is Woke),
        phase matches Phase::Writing { sent, len } ==> forall|n: usize|
            sent <= len ==> (#[trigger] is_outcome(phase, Event::Written(n)) <==> 1 <= n && sent + n <= len),
        is_outcome(phase, Event::Failed) <==> phase is Connecting || phase is Writing || phase is Flushing,
        is_outcome(phase, Event::Flushed) <==> phase is Flushing,
        is_outcome(phase, Event::Connected) <==> phase is Connecting,
        is_outcome(phase, Event::Woke) <==> phase is Backoff || phase is Idle,
{
}

} // verus!
