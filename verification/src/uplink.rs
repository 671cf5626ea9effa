//! Sender of datagrams as an automaton without input and output.
//!
//! Readings wait in a backlog until an acknowledgement says that the datagram
//! that carried them is stored. In batch mode they leave together every
//! [`BATCH_INTERVAL`] seconds; while the server grants live mode, each leaves
//! at once. Every datagram has a number of its own, also when it carries the
//! same readings again, so no nonce is ever used twice.
//!
//! The driver hands in readings and received datagrams, asks [`Uplink::poll`]
//! what to send, and comes back no later than [`Uplink::deadline`].

use vstd::prelude::*;

use crate::codec;
use crate::codec::{Deltas, Encoder, Reading, READING_MAX};
use crate::crypto::Cipher;
use crate::datagram;
use crate::datagram::{
    Ack, BootId, DatagramBuf, DatagramError, Header, SeqNo, UpHeader, HEADER_LEN, MAX_DATAGRAM, PLAIN_CAPACITY,
};
use crate::recv_window::{RecvWindow, SeqStatus};
use crate::supervisor::Uptime;
use crate::time;
use crate::time::Duration;
use crate::varint;

verus! {

/// Seconds between batches.
pub const BATCH_INTERVAL: u64 = 120;

/// Seconds to wait for an acknowledgement that was asked for.
pub const ACK_TIMEOUT: u64 = 10;

/// Seconds before sending again when an acknowledgement did not come.
pub const ACK_RETRY: u64 = 30;

/// Seconds before sending again when the socket refused a datagram.
pub const SEND_RETRY: u64 = 5;

/// Longest time in live mode without asking for an acknowledgement, in seconds.
pub const LIVE_ACK_INTERVAL: u64 = 180;

/// In live mode an acknowledgement is asked for when no more than this many
/// seconds of it are left.
pub const LIVE_RENEW: u64 = 60;

/// Most datagrams sent before one of them asks for an acknowledgement. Within
/// the reach of a receive window.
pub const MAX_BURST: u32 = 16;

/// How many readings the backlog holds: twelve hours of them.
pub const BACKLOG_CAPACITY: usize = 1440;

/// How readings leave.
#[derive(Clone, Copy, PartialEq, Eq, Structural, Debug)]
pub enum Mode {
    /// Together, every [`BATCH_INTERVAL`] seconds.
    Batch,
    /// Each at once, until the given time.
    Live { until: Uptime },
}

/// A reading that is not known to be stored.
#[derive(Clone, Copy, PartialEq, Eq, Structural, Debug)]
pub struct Entry {
    pub reading: Reading,
    /// Number of the last datagram that carried it; zero: none since it was
    /// queued.
    pub sent: u32,
}

/// An acknowledgement that was asked for.
#[derive(Clone, Copy, PartialEq, Eq, Structural, Debug)]
pub struct Waiting {
    pub seq: u32,
    pub deadline: Uptime,
}

/// Readings that are not known to be stored, oldest first.
pub struct Backlog {
    entries: Vec<Entry>,
}

impl Backlog {
    /// The entries, oldest first.
    pub closed spec fn view(&self) -> Seq<Entry> {
        self.entries@
    }

    /// An empty backlog.
    pub fn new() -> (b: Backlog)
        ensures
            b@ == Seq::<Entry>::empty(),
    {
        Backlog { entries: Vec::new() }
    }
}

/// What becomes of an entry when an acknowledgement comes.
pub enum Fate {
    /// Stored: it leaves the backlog.
    Delivered,
    /// Lost or unknown: it is queued again.
    Lost,
    /// Nothing is known of it yet.
    Kept,
}

/// What an acknowledged window says of an entry.
pub open spec fn fate(e: Entry, w: RecvWindow) -> Fate {
    if e.sent == 0 {
        Fate::Kept
    } else {
        match w.spec_status(e.sent as int) {
            SeqStatus::Seen => Fate::Delivered,
            SeqStatus::Ahead => Fate::Kept,
            SeqStatus::NotSeen => Fate::Lost,
            SeqStatus::OutOfWindow => Fate::Lost,
        }
    }
}

/// The entry, queued again.
pub open spec fn queued_again(e: Entry) -> Entry {
    Entry { reading: e.reading, sent: 0 }
}

/// The backlog after an acknowledgement.
pub open spec fn settled(es: Seq<Entry>, w: RecvWindow) -> Seq<Entry>
    decreases es.len(),
{
    if es.len() == 0 {
        Seq::empty()
    } else {
        let before = settled(es.drop_last(), w);
        match fate(es.last(), w) {
            Fate::Delivered => before,
            Fate::Lost => before.push(queued_again(es.last())),
            Fate::Kept => before.push(es.last()),
        }
    }
}

/// Does the window say of any entry that it is lost.
pub open spec fn any_lost(es: Seq<Entry>, w: RecvWindow) -> bool {
    exists|i: int| 0 <= i < es.len() && fate(#[trigger] es[i], w) is Lost
}

/// All entries queued again.
pub open spec fn all_queued(es: Seq<Entry>) -> Seq<Entry> {
    Seq::new(es.len(), |i: int| queued_again(es[i]))
}

/// The entries of datagram `seq` queued again.
pub open spec fn one_queued(es: Seq<Entry>, seq: u32) -> Seq<Entry> {
    Seq::new(
        es.len(),
        |i: int|
            if es[i].sent == seq {
                queued_again(es[i])
            } else {
                es[i]
            },
    )
}

/// The queued readings, oldest first.
pub open spec fn queued(es: Seq<Entry>) -> Seq<Reading>
    decreases es.len(),
{
    if es.len() == 0 {
        Seq::empty()
    } else if es[0].sent == 0 {
        seq![es[0].reading] + queued(es.drop_first())
    } else {
        queued(es.drop_first())
    }
}

/// The entries with the first `n` queued ones put into datagram `seq`.
pub open spec fn first_sent(es: Seq<Entry>, n: nat, seq: u32) -> Seq<Entry>
    decreases es.len(),
{
    if es.len() == 0 || n == 0 {
        es
    } else if es[0].sent == 0 {
        seq![Entry { reading: es[0].reading, sent: seq }] + first_sent(es.drop_first(), (n - 1) as nat, seq)
    } else {
        seq![es[0]] + first_sent(es.drop_first(), n, seq)
    }
}

/// How many of `rs` a datagram takes when `used` bytes of it are written: it
/// takes the next as long as the longest reading would fit.
pub open spec fn taken(used: nat, d: Deltas, rs: Seq<Reading>) -> nat
    decreases rs.len(),
{
    if rs.len() == 0 || PLAIN_CAPACITY - used < READING_MAX {
        0
    } else {
        1 + taken(used + codec::reading_text(d, rs[0]).len(), d.after(rs[0]), rs.drop_first())
    }
}

/// How many of the queued readings the next datagram takes.
pub open spec fn datagram_share(rs: Seq<Reading>) -> nat
    recommends
        rs.len() > 0,
{
    taken(varint::varint(rs[0].time.0 as nat).len(), Deltas::start(rs[0].time.0), rs)
}

/// State of the sender.
#[verifier::ext_equal]
pub struct Link {
    pub entries: Seq<Entry>,
    /// Number of the next datagram.
    pub next_seq: u32,
    pub mode: Mode,
    /// Nothing is sent before this time.
    pub next_send: Uptime,
    pub waiting: Option<Waiting>,
    /// When an acknowledgement was last asked for.
    pub last_ack_req: Uptime,
    /// The last acknowledgement asked for did not come: until one does, each
    /// datagram asks for one.
    pub probing: bool,
    /// Datagrams since the last that asked.
    pub burst: u32,
    /// The last that asked left readings queued.
    pub more: bool,
}

/// `secs` seconds after `t`.
pub open spec fn later(t: Uptime, secs: u64) -> Uptime {
    Uptime(t.0.spec_plus_secs(secs))
}

/// Is `now` not before `t`.
pub open spec fn reached(now: Uptime, t: Uptime) -> bool {
    now.0.nanos >= t.0.nanos
}

impl Link {
    /// Live mode ends when its time is over.
    pub open spec fn live_expired(self, now: Uptime) -> Link {
        match self.mode {
            Mode::Live { until } => if reached(now, until) {
                Link { mode: Mode::Batch, next_send: later(now, BATCH_INTERVAL), ..self }
            } else {
                self
            },
            Mode::Batch => self,
        }
    }

    /// An acknowledgement that does not come in time gives up all that is in
    /// flight.
    pub open spec fn ack_expired(self, now: Uptime) -> Link {
        match self.waiting {
            Some(w) => if reached(now, w.deadline) {
                Link {
                    entries: all_queued(self.entries),
                    waiting: None,
                    probing: true,
                    burst: 0,
                    next_send: later(now, ACK_RETRY),
                    ..self
                }
            } else {
                self
            },
            None => self,
        }
    }

    /// In batch mode, readings in flight that nothing will acknowledge any more
    /// are sent again when the next batch is due.
    pub open spec fn strays_queued(self, now: Uptime) -> Link {
        if self.mode is Batch && self.waiting is None && reached(now, self.next_send) && queued(self.entries).len()
            == 0 {
            Link { entries: all_queued(self.entries), ..self }
        } else {
            self
        }
    }

    /// All that time alone brings about.
    pub open spec fn refreshed(self, now: Uptime) -> Link {
        self.live_expired(now).ack_expired(now).strays_queued(now)
    }

    /// Is a datagram to be sent.
    pub open spec fn is_due(self, now: Uptime) -> bool {
        &&& queued(self.entries).len() > 0
        &&& reached(now, self.next_send)
        &&& self.mode is Batch ==> self.waiting is None
    }

    /// Does the next datagram, with `n` readings, ask for an acknowledgement.
    pub open spec fn asks(self, n: nat, now: Uptime) -> bool {
        match self.mode {
            Mode::Batch => n >= queued(self.entries).len() || self.probing || self.burst + 1 >= MAX_BURST,
            Mode::Live { until } => self.waiting is None && (self.probing || reached(
                now,
                later(self.last_ack_req, LIVE_ACK_INTERVAL),
            ) || until.0.spec_saturating_sub(now.0) <= LIVE_RENEW * time::NANOS_PER_SEC),
        }
    }

    /// After a datagram with the first `n` queued readings.
    pub open spec fn after_send(self, n: nat, now: Uptime) -> Link {
        let sent = Link {
            entries: first_sent(self.entries, n, self.next_seq),
            next_seq: (self.next_seq + 1) as u32,
            ..self
        };
        if self.asks(n, now) {
            Link {
                waiting: Some(Waiting { seq: self.next_seq, deadline: later(now, ACK_TIMEOUT) }),
                last_ack_req: now,
                burst: 0,
                more: n < queued(self.entries).len(),
                next_send: if self.mode is Batch {
                    later(now, BATCH_INTERVAL)
                } else {
                    self.next_send
                },
                ..sent
            }
        } else {
            Link {
                burst: if self.burst < MAX_BURST {
                    (self.burst + 1) as u32
                } else {
                    self.burst
                },
                ..sent
            }
        }
    }

    /// After an acknowledgement for this boot.
    pub open spec fn after_ack(self, ack: Ack, now: Uptime) -> Link {
        let waiting = match self.waiting {
            Some(w) => if ack.window.spec_status(w.seq as int) is Ahead {
                Some(w)
            } else {
                None
            },
            None => None,
        };
        let again = waiting is None && (self.more || any_lost(self.entries, ack.window));
        Link {
            entries: settled(self.entries, ack.window),
            waiting,
            probing: false,
            more: if waiting is None {
                false
            } else {
                self.more
            },
            mode: if ack.live_for.0 > 0 {
                Mode::Live { until: later(now, ack.live_for.0 as u64) }
            } else {
                Mode::Batch
            },
            next_send: if ack.live_for.0 > 0 || again {
                now
            } else if self.mode is Batch {
                self.next_send
            } else {
                later(now, BATCH_INTERVAL)
            },
            ..self
        }
    }

    /// After the socket refused the last datagram.
    pub open spec fn after_failure(self, now: Uptime) -> Link {
        let last = (self.next_seq - 1) as u32;
        Link {
            entries: one_queued(self.entries, last),
            waiting: match self.waiting {
                Some(w) => if w.seq == last {
                    None
                } else {
                    Some(w)
                },
                None => None,
            },
            next_send: later(now, SEND_RETRY),
            ..self
        }
    }

    /// After a new reading; the oldest leaves a full backlog.
    pub open spec fn after_reading(self, r: Reading) -> Link {
        let kept = if self.entries.len() >= BACKLOG_CAPACITY {
            self.entries.drop_first()
        } else {
            self.entries
        };
        Link { entries: kept.push(Entry { reading: r, sent: 0 }), ..self }
    }

    /// The earlier of a time and perhaps another.
    pub open spec fn sooner(a: Option<Uptime>, b: Uptime) -> Option<Uptime> {
        match a {
            Some(t) => if t.0.nanos <= b.0.nanos {
                Some(t)
            } else {
                Some(b)
            },
            None => Some(b),
        }
    }

    /// When the sender is to be polled at the latest.
    pub open spec fn spec_deadline(self) -> Option<Uptime> {
        let ack = match self.waiting {
            Some(w) => Some(w.deadline),
            None => None,
        };
        match self.mode {
            Mode::Batch => if self.waiting is None && self.entries.len() > 0 {
                Self::sooner(ack, self.next_send)
            } else {
                ack
            },
            Mode::Live { until } => {
                let end = Self::sooner(ack, until);
                if queued(self.entries).len() > 0 {
                    Self::sooner(end, self.next_send)
                } else {
                    end
                }
            },
        }
    }
}

/// Is each reading in flight one that the datagram of its number carried.
pub open spec fn is_carried(es: Seq<Entry>, next_seq: u32, carried: Map<u32, Seq<Reading>>) -> bool {
    forall|i: int|
        0 <= i < es.len() && (#[trigger] es[i]).sent != 0 ==> {
            &&& es[i].sent < next_seq
            &&& carried.dom().contains(es[i].sent)
            &&& carried[es[i].sent].contains(es[i].reading)
        }
}

/// The sender.
pub struct Uplink {
    cipher: Cipher,
    boot: BootId,
    backlog: Backlog,
    next_seq: SeqNo,
    mode: Mode,
    next_send: Uptime,
    waiting: Option<Waiting>,
    last_ack_req: Uptime,
    probing: bool,
    burst: u32,
    more: bool,
    datagram: DatagramBuf,
    carried: Ghost<Map<u32, Seq<Reading>>>,
}

impl Uplink {
    /// The key of its cipher.
    pub closed spec fn key(&self) -> Seq<u8> {
        self.cipher.key@
    }

    /// The boot whose readings it sends.
    pub closed spec fn boot(&self) -> BootId {
        self.boot
    }

    /// Its state.
    pub closed spec fn state(&self) -> Link {
        Link {
            entries: self.backlog@,
            next_seq: self.next_seq.0,
            mode: self.mode,
            next_send: self.next_send,
            waiting: self.waiting,
            last_ack_req: self.last_ack_req,
            probing: self.probing,
            burst: self.burst,
            more: self.more,
        }
    }

    /// The readings that each datagram so far carried, by its number.
    pub closed spec fn carried(&self) -> Map<u32, Seq<Reading>> {
        self.carried@
    }

    /// The backlog is within its capacity, and each reading in flight was in
    /// the datagram of its number.
    pub open spec fn wf(&self) -> bool {
        &&& self.state().entries.len() <= BACKLOG_CAPACITY
        &&& self.state().next_seq >= 1
        &&& self.state().burst <= MAX_BURST
        &&& is_carried(self.state().entries, self.state().next_seq, self.carried())
    }

    /// A sender for `boot`, with the readings of `backlog` queued.
    pub fn new(cipher: Cipher, boot: BootId, now: Uptime, backlog: Backlog) -> (u: Uplink)
        requires
            backlog@.len() <= BACKLOG_CAPACITY,
        ensures
            u.wf(),
            u.key() == cipher.key@,
            u.boot() == boot,
            u.carried() == Map::<u32, Seq<Reading>>::empty(),
            u.state() == (Link {
                entries: all_queued(backlog@),
                next_seq: 1,
                mode: Mode::Batch,
                next_send: later(now, BATCH_INTERVAL),
                waiting: None,
                last_ack_req: now,
                probing: false,
                burst: 0,
                more: false,
            }),
    {
        let mut entries = backlog.entries;
        queue_all(&mut entries);
        Uplink {
            cipher,
            boot,
            backlog: Backlog { entries },
            next_seq: SeqNo::first(),
            mode: Mode::Batch,
            next_send: Uptime(now.0.plus_secs(BATCH_INTERVAL)),
            waiting: None,
            last_ack_req: now,
            probing: false,
            burst: 0,
            more: false,
            datagram: [0u8; MAX_DATAGRAM],
            carried: Ghost(Map::empty()),
        }
    }

    /// How readings leave now.
    pub fn mode(&self) -> (m: Mode)
        ensures
            m == self.state().mode,
    {
        self.mode
    }

    /// How many readings are not known to be stored.
    pub fn backlog_len(&self) -> (n: usize)
        ensures
            n == self.state().entries.len(),
    {
        self.backlog.entries.len()
    }

    /// Is there a number left for another datagram.
    pub fn can_send(&self) -> (can: bool)
        ensures
            can <==> self.state().next_seq < u32::MAX,
    {
        self.next_seq.0 < u32::MAX
    }

    /// When the sender is to be polled at the latest; `None`: not before
    /// something is handed in.
    pub fn deadline(&self) -> (t: Option<Uptime>)
        ensures
            t == self.state().spec_deadline(),
    {
        let ack = match self.waiting {
            Some(w) => Some(w.deadline),
            None => None,
        };
        match self.mode {
            Mode::Batch => if self.waiting.is_none() && self.backlog.entries.len() > 0 {
                sooner(ack, self.next_send)
            } else {
                ack
            },
            Mode::Live { until } => {
                let end = sooner(ack, until);
                if count_queued(&self.backlog.entries) > 0 {
                    sooner(end, self.next_send)
                } else {
                    end
                }
            },
        }
    }

    /// A new reading. A full backlog lets its oldest reading go and returns it:
    /// a loss is counted, never silent.
    pub fn on_reading(&mut self, reading: Reading) -> (evicted: Option<Reading>)
        requires
            old(self).wf(),
        ensures
            final(self).wf(),
            final(self).key() == old(self).key(),
            final(self).boot() == old(self).boot(),
            final(self).carried() == old(self).carried(),
            final(self).state() == old(self).state().after_reading(reading),
            evicted == if old(self).state().entries.len() >= BACKLOG_CAPACITY {
                Some(old(self).state().entries[0].reading)
            } else {
                None
            },
    {
        let ghost es = self.backlog@;
        let evicted = if self.backlog.entries.len() >= BACKLOG_CAPACITY {
            let oldest = self.backlog.entries.remove(0);
            assert(self.backlog@ =~= es.drop_first());
            Some(oldest.reading)
        } else {
            None
        };
        self.backlog.entries.push(Entry { reading, sent: 0 });
        proof {
            let now = self.backlog@;
            assert forall|i: int| 0 <= i < now.len() && (#[trigger] now[i]).sent != 0 implies {
                &&& now[i].sent < self.next_seq.0
                &&& self.carried().dom().contains(now[i].sent)
                &&& self.carried()[now[i].sent].contains(now[i].reading)
            } by {
                if evicted is Some {
                    assert(now[i] == es[i + 1]);
                } else {
                    assert(now[i] == es[i]);
                }
            }
        }
        evicted
    }

    /// A datagram from the server. `Ok(true)`: it acknowledges this boot.
    pub fn on_datagram(&mut self, bytes: &mut [u8], now: Uptime) -> (r: Result<bool, DatagramError>)
        requires
            old(self).wf(),
        ensures
            final(self).wf(),
            final(self).key() == old(self).key(),
            final(self).boot() == old(self).boot(),
            final(self).carried() == old(self).carried(),
            final(bytes)@ == datagram::decrypted(old(self).key(), old(bytes)@),
            match datagram::opened_ack(old(self).key(), old(bytes)@) {
                Err(e) => r == Err::<bool, DatagramError>(e) && final(self).state() == old(self).state(),
                Ok((_, ack)) => {
                    &&& r == Ok::<bool, DatagramError>(ack.boot == old(self).boot())
                    &&& final(self).state() == if ack.boot == old(self).boot() {
                        old(self).state().after_ack(ack, now)
                    } else {
                        old(self).state()
                    }
                },
            },
    {
        let ack = match datagram::open_ack(&self.cipher, bytes) {
            Ok((_, ack)) => ack,
            Err(e) => {
                return Err(e);
            },
        };
        if ack.boot.0 != self.boot.0 {
            return Ok(false);
        }
        let ghost es = self.backlog@;
        let (entries, lost) = settle(&self.backlog.entries, &ack.window);
        self.backlog = Backlog { entries };
        let waiting = match self.waiting {
            Some(w) => if ack.window.status(SeqNo(w.seq)) == SeqStatus::Ahead {
                Some(w)
            } else {
                None
            },
            None => None,
        };
        let again = waiting.is_none() && (self.more || lost);
        let live = ack.live_for.0 > 0;
        if live || again {
            self.next_send = now;
        } else {
            match self.mode {
                Mode::Batch => {},
                Mode::Live { .. } => {
                    self.next_send = Uptime(now.0.plus_secs(BATCH_INTERVAL));
                },
            }
        }
        self.mode = if live {
            Mode::Live { until: Uptime(now.0.plus_secs(ack.live_for.0 as u64)) }
        } else {
            Mode::Batch
        };
        if waiting.is_none() {
            self.more = false;
        }
        self.waiting = waiting;
        self.probing = false;
        proof {
            lemma_settled_carried(es, ack.window, self.next_seq.0, self.carried());
            lemma_settled_len(es, ack.window);
        }
        Ok(true)
    }

    /// The socket refused the datagram that [`Uplink::poll`] gave last: its
    /// readings are queued again.
    pub fn on_send_failed(&mut self, now: Uptime)
        requires
            old(self).wf(),
            old(self).state().next_seq > 1,
        ensures
            final(self).wf(),
            final(self).key() == old(self).key(),
            final(self).boot() == old(self).boot(),
            final(self).carried() == old(self).carried(),
            final(self).state() == old(self).state().after_failure(now),
    {
        let last: u32 = self.next_seq.0 - 1;
        queue_one(&mut self.backlog.entries, last);
        self.waiting = match self.waiting {
            Some(w) => if w.seq == last {
                None
            } else {
                Some(w)
            },
            None => None,
        };
        self.next_send = Uptime(now.0.plus_secs(SEND_RETRY));
    }

    /// All that time alone brings about.
    fn refresh(&mut self, now: Uptime)
        requires
            old(self).wf(),
        ensures
            final(self).wf(),
            final(self).key() == old(self).key(),
            final(self).boot() == old(self).boot(),
            final(self).carried() == old(self).carried(),
            final(self).state() == old(self).state().refreshed(now),
    {
        let ghost start = self.state();
        match self.mode {
            Mode::Live { until } => {
                if now.0.nanos >= until.0.nanos {
                    self.mode = Mode::Batch;
                    self.next_send = Uptime(now.0.plus_secs(BATCH_INTERVAL));
                }
            },
            Mode::Batch => {},
        }
        assert(self.state() =~= start.live_expired(now));
        match self.waiting {
            Some(w) => {
                if now.0.nanos >= w.deadline.0.nanos {
                    queue_all(&mut self.backlog.entries);
                    self.waiting = None;
                    self.probing = true;
                    self.burst = 0;
                    self.next_send = Uptime(now.0.plus_secs(ACK_RETRY));
                }
            },
            None => {},
        }
        assert(self.state() =~= start.live_expired(now).ack_expired(now));
        let batch = match self.mode {
            Mode::Batch => true,
            Mode::Live { .. } => false,
        };
        if batch && self.waiting.is_none() && now.0.nanos >= self.next_send.0.nanos && count_queued(
            &self.backlog.entries,
        ) == 0 {
            queue_all(&mut self.backlog.entries);
        }
        assert(self.state() =~= start.refreshed(now));
    }

    /// The next datagram to send, if one is due. To be asked again until there
    /// is none.
    pub fn poll(&mut self, now: Uptime) -> (r: Option<&[u8]>)
        requires
            old(self).wf(),
            old(self).state().next_seq < u32::MAX,
        ensures
            final(self).wf(),
            final(self).key() == old(self).key(),
            final(self).boot() == old(self).boot(),
            match r {
                None => {
                    &&& !old(self).state().refreshed(now).is_due(now)
                    &&& final(self).state() == old(self).state().refreshed(now)
                    &&& final(self).carried() == old(self).carried()
                },
                Some(dg) => {
                    let s = old(self).state().refreshed(now);
                    let n = datagram_share(queued(s.entries));
                    let rs = queued(s.entries).take(n as int);
                    let header = UpHeader {
                        boot: old(self).boot(),
                        seq: SeqNo(old(self).state().next_seq),
                        ack_req: s.asks(n, now),
                    };
                    &&& s.is_due(now)
                    &&& 1 <= n <= queued(s.entries).len()
                    &&& datagram::carries(
                        old(self).key(),
                        dg@,
                        Header::Up(header),
                        codec::plain_text(rs[0].time.0, rs),
                    )
                    &&& final(self).state() == s.after_send(n, now)
                    &&& final(self).carried() == old(self).carried().insert(old(self).state().next_seq, rs)
                },
            },
    {
        self.refresh(now);
        let ghost s = self.state();
        let total: usize = count_queued(&self.backlog.entries);
        let may_send = match self.mode {
            Mode::Batch => self.waiting.is_none(),
            Mode::Live { .. } => true,
        };
        if total == 0 || now.0.nanos < self.next_send.0.nanos || !may_send {
            return None;
        }
        let seq = self.next_seq;
        let (plain_len, n) = fill(&mut self.backlog.entries, &mut self.datagram, seq.0);
        let ghost rs = queued(s.entries).take(n as int);
        let ask = match self.mode {
            Mode::Batch => n >= total || self.probing || self.burst + 1 >= MAX_BURST,
            Mode::Live { until } => self.waiting.is_none() && (self.probing || now.0.nanos
                >= self.last_ack_req.0.plus_secs(LIVE_ACK_INTERVAL).nanos || until.0.saturating_sub(now.0).nanos
                <= LIVE_RENEW as u128 * time::NANOS_PER_SEC),
        };
        let header = Header::Up(UpHeader { boot: self.boot, seq, ack_req: ask });
        let len: usize = datagram::seal(&self.cipher, header, &mut self.datagram, plain_len);
        self.next_seq = seq.next();
        if ask {
            self.waiting = Some(Waiting { seq: seq.0, deadline: Uptime(now.0.plus_secs(ACK_TIMEOUT)) });
            self.last_ack_req = now;
            self.burst = 0;
            self.more = n < total;
            match self.mode {
                Mode::Batch => {
                    self.next_send = Uptime(now.0.plus_secs(BATCH_INTERVAL));
                },
                Mode::Live { .. } => {},
            }
        } else if self.burst < MAX_BURST {
            self.burst = self.burst + 1;
        }
        self.carried = Ghost(self.carried@.insert(seq.0, rs));
        proof {
            lemma_first_sent(s.entries, n as nat, seq.0);
            let es = s.entries;
            let now_es = self.backlog@;
            assert forall|i: int| 0 <= i < now_es.len() && (#[trigger] now_es[i]).sent != 0 implies {
                &&& now_es[i].sent < self.next_seq.0
                &&& self.carried().dom().contains(now_es[i].sent)
                &&& self.carried()[now_es[i].sent].contains(now_es[i].reading)
            } by {
                if now_es[i] != es[i] {
                } else {
                    assert(es[i].sent != 0);
                }
            }
            assert(self.state() =~= s.after_send(n as nat, now));
        }
        Some(vstd::slice::slice_subrange(self.datagram.as_slice(), 0, len))
    }
}

fn sooner(a: Option<Uptime>, b: Uptime) -> (t: Option<Uptime>)
    ensures
        t == Link::sooner(a, b),
{
    match a {
        Some(t) => if t.0.nanos <= b.0.nanos {
            Some(t)
        } else {
            Some(b)
        },
        None => Some(b),
    }
}

fn queue_all(entries: &mut Vec<Entry>)
    ensures
        final(entries)@ == all_queued(old(entries)@),
{
    let ghost es = entries@;
    let mut i: usize = 0;
    while i < entries.len()
        invariant
            i <= entries@.len(),
            entries@.len() == es.len(),
            forall|k: int| 0 <= k < i ==> #[trigger] entries@[k] == queued_again(es[k]),
            forall|k: int| i <= k < es.len() ==> #[trigger] entries@[k] == es[k],
        decreases entries@.len() - i,
    {
        let e = entries[i];
        entries.set(i, Entry { reading: e.reading, sent: 0 });
        i = i + 1;
    }
    assert(entries@ =~= all_queued(es));
}

fn queue_one(entries: &mut Vec<Entry>, seq: u32)
    ensures
        final(entries)@ == one_queued(old(entries)@, seq),
{
    let ghost es = entries@;
    let mut i: usize = 0;
    while i < entries.len()
        invariant
            i <= entries@.len(),
            entries@.len() == es.len(),
            forall|k: int| 0 <= k < i ==> #[trigger] entries@[k] == one_queued(es, seq)[k],
            forall|k: int| i <= k < es.len() ==> #[trigger] entries@[k] == es[k],
        decreases entries@.len() - i,
    {
        let e = entries[i];
        if e.sent == seq {
            entries.set(i, Entry { reading: e.reading, sent: 0 });
        }
        i = i + 1;
    }
    assert(entries@ =~= one_queued(es, seq));
}

fn count_queued(entries: &Vec<Entry>) -> (n: usize)
    ensures
        n == queued(entries@).len(),
{
    let ghost es = entries@;
    let mut i: usize = 0;
    let mut n: usize = 0;
    assert(es.skip(0) =~= es);
    while i < entries.len()
        invariant
            i <= es.len(),
            es == entries@,
            n <= i,
            queued(es).len() == n + queued(es.skip(i as int)).len(),
        decreases es.len() - i,
    {
        assert(es.skip(i as int).drop_first() =~= es.skip(i + 1));
        if entries[i].sent == 0 {
            n = n + 1;
        }
        i = i + 1;
    }
    assert(es.skip(es.len() as int) =~= Seq::empty());
    n
}

fn settle(entries: &Vec<Entry>, window: &RecvWindow) -> (r: (Vec<Entry>, bool))
    ensures
        r.0@ == settled(entries@, *window),
        r.1 == any_lost(entries@, *window),
{
    let ghost es = entries@;
    let mut out: Vec<Entry> = Vec::new();
    let mut lost = false;
    let mut i: usize = 0;
    assert(es.take(0) =~= Seq::empty());
    while i < entries.len()
        invariant
            i <= es.len(),
            es == entries@,
            out@ == settled(es.take(i as int), *window),
            lost == any_lost(es.take(i as int), *window),
        decreases es.len() - i,
    {
        let e = entries[i];
        let ghost before = es.take(i as int);
        let ghost upto = es.take(i + 1);
        assert(upto.drop_last() =~= before);
        assert(upto.last() == e);
        assert(upto[i as int] == e);
        let ghost was_lost = lost;
        if e.sent == 0 {
            out.push(e);
        } else {
            match window.status(SeqNo(e.sent)) {
                SeqStatus::Seen => {},
                SeqStatus::Ahead => {
                    out.push(e);
                },
                SeqStatus::NotSeen => {
                    out.push(Entry { reading: e.reading, sent: 0 });
                    lost = true;
                },
                SeqStatus::OutOfWindow => {
                    out.push(Entry { reading: e.reading, sent: 0 });
                    lost = true;
                },
            }
        }
        proof {
            if was_lost {
                let k = choose|k: int| 0 <= k < before.len() && fate(#[trigger] before[k], *window) is Lost;
                assert(upto[k] == before[k]);
            }
            if any_lost(upto, *window) && !(fate(e, *window) is Lost) {
                let k = choose|k: int| 0 <= k < upto.len() && fate(#[trigger] upto[k], *window) is Lost;
                assert(before[k] == upto[k]);
            }
        }
        i = i + 1;
    }
    assert(es.take(es.len() as int) =~= es);
    (out, lost)
}

/// Writes the first queued readings into the plaintext of `buf`, as many as
/// fit, and puts them into datagram `seq`. Gives the plaintext's length and
/// their number.
fn fill(entries: &mut Vec<Entry>, buf: &mut DatagramBuf, seq: u32) -> (r: (usize, usize))
    requires
        queued(old(entries)@).len() > 0,
    ensures
        ({
            let rs = queued(old(entries)@);
            let n = datagram_share(rs);
            let text = codec::plain_text(rs[0].time.0, rs.take(n as int));
            &&& r.1 == n
            &&& 1 <= n <= rs.len()
            &&& r.0 == text.len()
            &&& text.len() <= PLAIN_CAPACITY
            &&& final(entries)@ == first_sent(old(entries)@, n, seq)
            &&& final(buf)@.subrange(HEADER_LEN as int, HEADER_LEN + text.len()) == text
            &&& rs.take(n as int)[0] == rs[0]
        }),
{
    let ghost es = entries@;
    let ghost rs = queued(es);
    let base = oldest_queued(entries);
    let ghost used0 = varint::varint(base.0 as nat).len();
    let ghost d0 = Deltas::start(base.0);
    let ghost was = buf@;
    let area = datagram::plain_area(buf);
    let ghost head = was.take(HEADER_LEN as int);
    let ghost tail = was.skip(HEADER_LEN + PLAIN_CAPACITY);
    let mut enc = Encoder::new(area, base);
    let mut i: usize = 0;
    let mut k: usize = 0;
    let mut full = false;
    let ghost mut done: Seq<Entry> = Seq::empty();
    proof {
        assert(es.skip(0) =~= es);
        assert(rs.take(0) =~= Seq::empty());
        assert(rs.skip(0) =~= rs);
        assert(done + es.skip(0) =~= es);
        assert(rs.take(0) + rs =~= rs);
        assert forall|m: nat| #[trigger] first_sent(es.skip(0), m, seq) == done + first_sent(es.skip(0), m, seq) by {
            assert(done + first_sent(es.skip(0), m, seq) =~= first_sent(es.skip(0), m, seq));
        }
        assert(codec::plain_text(base.0, Seq::empty()) =~= varint::varint(base.0 as nat));
    }
    while i < entries.len() && !full
        invariant
            i <= es.len(),
            k <= i,
            k <= rs.len(),
            k > 0 || !full,
            rs == queued(es),
            rs.len() > 0,
            base == rs[0].time,
            used0 == varint::varint(base.0 as nat).len(),
            used0 <= varint::VARINT_U64_MAX,
            d0 == Deltas::start(base.0),
            enc.wf(),
            enc.buf@.len() == PLAIN_CAPACITY,
            enc.holds(base.0, rs.take(k as int)),
            k == 0 ==> enc.text().len() == used0,
            after_borrow(buf)@ == head + final(enc.buf)@ + tail,
            head.len() == HEADER_LEN,
            done.len() == i,
            entries@ == done + es.skip(i as int),
            rs.skip(k as int) == queued(es.skip(i as int)),
            taken(used0, d0, rs) == k + taken(enc.text().len(), enc.deltas(), rs.skip(k as int)),
            full ==> taken(enc.text().len(), enc.deltas(), rs.skip(k as int)) == 0,
            forall|m: nat| #[trigger]
                first_sent(es.skip(i as int), m, seq).len() >= 0 ==> first_sent(es, k as nat + m, seq) == done
                    + first_sent(es.skip(i as int), m, seq),
        decreases es.len() - i, (if full {
            0int
        } else {
            1int
        }),
    {
        let ghost here = es.skip(i as int);
        let ghost next = es.skip(i + 1);
        assert(here.drop_first() =~= next);
        let e = entries[i];
        assert(e == here[0]);
        let ghost before = done;
        let ghost left = rs.skip(k as int);
        if e.sent == 0 {
            let ghost d = enc.deltas();
            let ghost used = enc.text().len();
            assert(left[0] == e.reading);
            assert(left.drop_first() =~= rs.skip(k + 1));
            assert(left.drop_first() =~= queued(next));
            proof {
                codec::readings_text_push(d0, rs.take(k as int), e.reading);
                assert(rs.take(k + 1) =~= rs.take(k as int).push(e.reading));
            }
            if enc.push(&e.reading) {
                let sent = Entry { reading: e.reading, sent: seq };
                entries.set(i, sent);
                proof {
                    done = before.push(sent);
                    assert(entries@ =~= done + next);
                    assert(enc.text() =~= codec::plain_text(base.0, rs.take(k + 1)));
                    assert forall|m: nat| #[trigger] first_sent(next, m, seq).len() >= 0 implies first_sent(
                        es,
                        (k + 1) as nat + m,
                        seq,
                    ) == done + first_sent(next, m, seq) by {
                        let m1 = m + 1;
                        assert(first_sent(here, m1, seq).len() >= 0);
                        assert(first_sent(here, m1, seq) == seq![sent] + first_sent(next, m, seq));
                        assert(before + (seq![sent] + first_sent(next, m, seq)) =~= done + first_sent(next, m, seq));
                    }
                }
                i = i + 1;
                k = k + 1;
            } else {
                full = true;
            }
        } else {
            proof {
                done = before.push(e);
                assert(entries@ =~= done + next);
                assert forall|m: nat| #[trigger] first_sent(next, m, seq).len() >= 0 implies first_sent(
                    es,
                    k as nat + m,
                    seq,
                ) == done + first_sent(next, m, seq) by {
                    assert(first_sent(here, m, seq).len() >= 0);
                    if m == 0 {
                        assert(here =~= seq![e] + next);
                    }
                    assert(first_sent(here, m, seq) == seq![e] + first_sent(next, m, seq));
                    assert(before + (seq![e] + first_sent(next, m, seq)) =~= done + first_sent(next, m, seq));
                }
            }
            i = i + 1;
        }
    }
    proof {
        assert(first_sent(es.skip(i as int), 0, seq).len() >= 0);
        assert(first_sent(es.skip(i as int), 0, seq) == es.skip(i as int));
        if !full {
            assert(es.skip(i as int) =~= Seq::empty());
            assert(rs.skip(k as int).len() == 0);
        }
        assert(taken(enc.text().len(), enc.deltas(), rs.skip(k as int)) == 0);
        assert(k == datagram_share(rs));
    }
    let plain_len: usize = enc.plain_len();
    let ghost text = enc.text();
    let ghost written = enc.buf@;
    assert(has_resolved(enc.buf));
    assert(after_borrow(buf)@ == head + written + tail);
    assert((head + written + tail).subrange(HEADER_LEN as int, HEADER_LEN + text.len()) =~= text);
    (plain_len, k)
}

/// Time of the oldest queued reading.
fn oldest_queued(entries: &Vec<Entry>) -> (t: crate::wire::EpochMillis)
    requires
        queued(entries@).len() > 0,
    ensures
        t == queued(entries@)[0].time,
{
    let ghost es = entries@;
    let count: usize = entries.len();
    let mut i: usize = 0;
    assert(es.skip(0) =~= es);
    while i < count && entries[i].sent != 0
        invariant
            i <= count,
            count == es.len(),
            es == entries@,
            queued(es.skip(i as int)) == queued(es),
        decreases count - i,
    {
        assert(es.skip(i as int).drop_first() =~= es.skip(i + 1));
        i = i + 1;
    }
    assert(i < count) by {
        if i == count {
            assert(es.skip(i as int).len() == 0);
        }
    }
    entries[i].reading.time
}

proof fn lemma_first_sent(es: Seq<Entry>, n: nat, seq: u32)
    ensures
        first_sent(es, n, seq).len() == es.len(),
        forall|i: int|
            0 <= i < es.len() ==> (#[trigger] first_sent(es, n, seq)[i] == es[i] || (es[i].sent == 0 && first_sent(
                es,
                n,
                seq,
            )[i] == (Entry { reading: es[i].reading, sent: seq }) && n <= queued(es).len() && queued(es).take(
                n as int,
            ).contains(es[i].reading)) || n > queued(es).len()),
    decreases es.len(),
{
    if es.len() > 0 && n > 0 {
        let rest = es.drop_first();
        let out = first_sent(es, n, seq);
        let q = queued(es);
        if es[0].sent == 0 {
            let m = (n - 1) as nat;
            lemma_first_sent(rest, m, seq);
            if n <= q.len() {
                assert(q.take(n as int) =~= seq![es[0].reading] + queued(rest).take(m as int));
                assert(q.take(n as int)[0] == es[0].reading);
                assert forall|i: int| 0 <= i < es.len() implies #[trigger] out[i] == es[i] || (es[i].sent == 0 && out[i]
                    == (Entry { reading: es[i].reading, sent: seq }) && q.take(n as int).contains(es[i].reading)) by {
                    if i > 0 {
                        assert(out[i] == first_sent(rest, m, seq)[i - 1]);
                        assert(rest[i - 1] == es[i]);
                        if out[i] != es[i] {
                            let part = queued(rest).take(m as int);
                            let k = choose|k: int| 0 <= k < part.len() && part[k] == es[i].reading;
                            assert(q.take(n as int)[k + 1] == es[i].reading);
                        }
                    }
                }
            }
        } else {
            lemma_first_sent(rest, n, seq);
            assert forall|i: int| 0 <= i < es.len() && n <= q.len() implies #[trigger] out[i] == es[i] || (es[i].sent
                == 0 && out[i] == (Entry { reading: es[i].reading, sent: seq }) && q.take(n as int).contains(
                es[i].reading,
            )) by {
                if i > 0 {
                    assert(out[i] == first_sent(rest, n, seq)[i - 1]);
                    assert(rest[i - 1] == es[i]);
                }
            }
        }
    }
}

proof fn lemma_settled_len(es: Seq<Entry>, w: RecvWindow)
    ensures
        settled(es, w).len() <= es.len(),
    decreases es.len(),
{
    if es.len() > 0 {
        lemma_settled_len(es.drop_last(), w);
    }
}

proof fn lemma_settled_carried(es: Seq<Entry>, w: RecvWindow, next_seq: u32, carried: Map<u32, Seq<Reading>>)
    requires
        is_carried(es, next_seq, carried),
    ensures
        is_carried(settled(es, w), next_seq, carried),
    decreases es.len(),
{
    if es.len() > 0 {
        let before = es.drop_last();
        assert(is_carried(before, next_seq, carried)) by {
            assert forall|i: int| 0 <= i < before.len() && (#[trigger] before[i]).sent != 0 implies {
                &&& before[i].sent < next_seq
                &&& carried.dom().contains(before[i].sent)
                &&& carried[before[i].sent].contains(before[i].reading)
            } by {
                assert(es[i] == before[i]);
            }
        }
        lemma_settled_carried(before, w, next_seq, carried);
        let out = settled(es, w);
        let had = settled(before, w);
        assert(es[es.len() - 1] == es.last());
        assert forall|i: int| 0 <= i < out.len() && (#[trigger] out[i]).sent != 0 implies {
            &&& out[i].sent < next_seq
            &&& carried.dom().contains(out[i].sent)
            &&& carried[out[i].sent].contains(out[i].reading)
        } by {
            if i < had.len() {
                assert(out[i] == had[i]);
            }
        }
    }
}

/// The readings of a backlog, oldest first.
pub open spec fn readings(es: Seq<Entry>) -> Seq<Reading> {
    Seq::new(es.len(), |i: int| es[i].reading)
}

/// Time, sending and a refusal by the socket change no reading of the backlog,
/// nor their order: only an acknowledgement takes one out, and only a new
/// reading evicts one.
pub proof fn sending_keeps_readings(s: Link, n: nat, now: Uptime)
    ensures
        readings(s.refreshed(now).entries) == readings(s.entries),
        n <= queued(s.entries).len() ==> readings(s.after_send(n, now).entries) == readings(s.entries),
        readings(s.after_failure(now).entries) == readings(s.entries),
{
    assert(readings(s.refreshed(now).entries) =~= readings(s.entries));
    lemma_first_sent(s.entries, n, s.next_seq);
    if n <= queued(s.entries).len() {
        let out = first_sent(s.entries, n, s.next_seq);
        assert forall|i: int| 0 <= i < s.entries.len() implies out[i].reading == s.entries[i].reading by {
            assert(out[i] == s.entries[i] || out[i].reading == s.entries[i].reading);
        }
        assert(readings(s.after_send(n, now).entries) =~= readings(s.entries));
    }
    assert(readings(s.after_failure(now).entries) =~= readings(s.entries));
}

/// A new reading is in the backlog afterwards, and so is every other but the
/// one that is evicted and returned.
pub proof fn reading_is_kept_or_evicted(s: Link, r: Reading)
    ensures
        readings(s.after_reading(r).entries) == if s.entries.len() >= BACKLOG_CAPACITY {
            readings(s.entries).drop_first().push(r)
        } else {
            readings(s.entries).push(r)
        },
{
    let after = readings(s.after_reading(r).entries);
    if s.entries.len() >= BACKLOG_CAPACITY {
        assert(after =~= readings(s.entries).drop_first().push(r));
    } else {
        assert(after =~= readings(s.entries).push(r));
    }
}

/// An acknowledgement keeps every reading that it does not report as stored.
pub proof fn undelivered_is_kept(es: Seq<Entry>, w: RecvWindow, i: int)
    requires
        0 <= i < es.len(),
        !(fate(es[i], w) is Delivered),
    ensures
        readings(settled(es, w)).contains(es[i].reading),
    decreases es.len(),
{
    let out = settled(es, w);
    let before = es.drop_last();
    let had = settled(before, w);
    if i < es.len() - 1 {
        assert(before[i] == es[i]);
        undelivered_is_kept(before, w, i);
        let k = choose|k: int| 0 <= k < had.len() && readings(had)[k] == es[i].reading;
        assert(out[k] == had[k]);
        assert(readings(out)[k] == es[i].reading);
    } else {
        assert(readings(out)[out.len() - 1] == es[i].reading);
    }
}

/// No reading is lost. Suppose that the window of an acknowledgement holds only
/// numbers of datagrams that are stored, and that the database has every
/// reading of each stored datagram. Then every reading of the backlog is, after
/// the acknowledgement, in the database or still in the backlog.
pub proof fn no_reading_is_lost(
    es: Seq<Entry>,
    next_seq: u32,
    carried: Map<u32, Seq<Reading>>,
    w: RecvWindow,
    stored: Set<int>,
    database: Set<Reading>,
    i: int,
)
    requires
        is_carried(es, next_seq, carried),
        forall|t: int| #[trigger] w.holds(t) ==> stored.contains(t),
        forall|s: u32, r: Reading|
            stored.contains(s as int) && carried.dom().contains(s) && #[trigger] carried[s].contains(r)
                ==> database.contains(r),
        0 <= i < es.len(),
    ensures
        database.contains(es[i].reading) || readings(settled(es, w)).contains(es[i].reading),
{
    if fate(es[i], w) is Delivered {
        let s = es[i].sent;
        assert(w.holds(s as int));
        assert(carried[s].contains(es[i].reading));
    } else {
        undelivered_is_kept(es, w, i);
    }
}

/// A datagram that is due takes at least one reading, so the backlog drains.
pub proof fn datagrams_make_progress(rs: Seq<Reading>)
    requires
        rs.len() > 0,
    ensures
        1 <= datagram_share(rs) <= rs.len(),
{
    varint::lemma_varint_len_u64(rs[0].time.0 as nat);
    let used = varint::varint(rs[0].time.0 as nat).len();
    lemma_taken_bound(used, Deltas::start(rs[0].time.0), rs);
}

proof fn lemma_taken_bound(used: nat, d: Deltas, rs: Seq<Reading>)
    ensures
        taken(used, d, rs) <= rs.len(),
    decreases rs.len(),
{
    if rs.len() > 0 && PLAIN_CAPACITY - used >= READING_MAX {
        lemma_taken_bound(used + codec::reading_text(d, rs[0]).len(), d.after(rs[0]), rs.drop_first());
    }
}

proof fn lemma_still_queued(es: Seq<Entry>, n: nat, seq: u32)
    ensures
        queued(first_sent(es, n, seq)).len() + n >= queued(es).len(),
    decreases es.len(),
{
    if es.len() > 0 && n > 0 {
        let rest = es.drop_first();
        let m = if es[0].sent == 0 {
            (n - 1) as nat
        } else {
            n
        };
        lemma_still_queued(rest, m, seq);
        assert(first_sent(es, n, seq).drop_first() =~= first_sent(rest, m, seq));
    }
}

/// In batch mode a datagram that is due asks for an acknowledgement, or the next
/// is due at once and is one closer to the longest burst.
pub proof fn batch_goes_on_until_it_asks(s: Link, n: nat, now: Uptime)
    requires
        s.mode is Batch,
        s.is_due(now),
        n == datagram_share(queued(s.entries)),
    ensures
        s.asks(n, now) || s.after_send(n, now).is_due(now),
        s.asks(n, now) ==> s.after_send(n, now).waiting == Some(
            Waiting { seq: s.next_seq, deadline: later(now, ACK_TIMEOUT) },
        ),
        !s.asks(n, now) ==> {
            &&& s.after_send(n, now).mode is Batch
            &&& s.after_send(n, now).burst == s.burst + 1 < MAX_BURST
            &&& s.after_send(n, now).refreshed(now) == s.after_send(n, now)
        },
{
    lemma_still_queued(s.entries, n, s.next_seq);
}

/// The state behind all the datagrams of a batch that is due.
pub open spec fn batch_sent(s: Link, now: Uptime) -> Link
    decreases MAX_BURST - s.burst,
{
    let n = datagram_share(queued(s.entries));
    if !(s.mode is Batch) || !s.is_due(now) {
        s
    } else if s.asks(n, now) {
        s.after_send(n, now)
    } else {
        batch_sent(s.after_send(n, now), now)
    }
}

/// Every batch ends with a datagram that asks for an acknowledgement, and an
/// answer that grants live mode turns it on.
pub proof fn batches_end_with_a_request(s: Link, now: Uptime, ack: Ack, arrived: Uptime)
    requires
        s.mode is Batch,
        s.is_due(now),
    ensures
        batch_sent(s, now).waiting matches Some(w) && w.deadline == later(now, ACK_TIMEOUT),
        batch_sent(s, now).last_ack_req == now,
        !batch_sent(s, now).is_due(now),
        ack.live_for.0 > 0 ==> batch_sent(s, now).after_ack(ack, arrived).mode == (Mode::Live {
            until: later(arrived, ack.live_for.0 as u64),
        }),
    decreases MAX_BURST - s.burst,
{
    let n = datagram_share(queued(s.entries));
    batch_goes_on_until_it_asks(s, n, now);
    if !s.asks(n, now) {
        batches_end_with_a_request(s.after_send(n, now), now, ack, arrived);
    }
}

/// Polling at the deadline does something: the state moves on or a datagram is
/// due. A driver that sleeps until the deadline never spins.
pub proof fn deadline_acts(s: Link, now: Uptime)
    requires
        s.spec_deadline() matches Some(t) && reached(now, t),
        now.0.nanos < u128::MAX,
    ensures
        s.refreshed(now) != s || s.refreshed(now).is_due(now),
{
    let a = s.live_expired(now);
    let b = a.ack_expired(now);
    let c = b.strays_queued(now);
    if c == s {
        assert(s.mode is Live ==> a.mode == s.mode) by {
            if a.mode != s.mode {
                assert(c.mode == a.mode);
            }
        }
        assert(a == s);
        assert(b.waiting == s.waiting) by {
            assert(c.waiting == b.waiting);
        }
        assert(b == s);
        if s.mode is Batch {
            if queued(s.entries).len() == 0 && s.entries.len() > 0 {
                assert(c.entries[0].sent == 0);
                assert(queued(c.entries).len() > 0);
            }
        }
    }
}

/// Without a deadline there is nothing to do: the backlog is empty and live
/// mode is off.
pub proof fn no_deadline_means_idle(s: Link)
    requires
        s.spec_deadline() is None,
    ensures
        s.entries.len() == 0,
        s.mode is Batch,
        s.waiting is None,
{
}

/// Live mode ends with its time.
pub proof fn live_mode_ends(s: Link, until: Uptime, now: Uptime)
    requires
        s.mode == (Mode::Live { until }),
        reached(now, until),
    ensures
        s.refreshed(now).mode is Batch,
{
}

/// Live mode does not outlive the term that the server keeps by more than the
/// acknowledgement took on its way: `given` is the time at which the server
/// counted what was left, `now` that at which the acknowledgement arrived.
pub proof fn live_mode_keeps_to_lease(
    s: Link,
    ack: Ack,
    lease: crate::server::LiveLease,
    given: Duration,
    now: Uptime,
    until: Uptime,
)
    requires
        ack.live_for.0 <= lease.left(given),
        given.nanos <= now.0.nanos,
        s.after_ack(ack, now).mode == (Mode::Live { until }),
    ensures
        lease.until matches Some(end) && until.0.nanos <= end.nanos + (now.0.nanos - given.nanos),
{
}

/// What a datagram carries is read back from it exactly.
pub proof fn carried_readings_are_read_back(rs: Seq<Reading>)
    requires
        rs.len() > 0,
    ensures
        codec::parse_plain(codec::plain_text(rs[0].time.0, rs)) == Ok::<Seq<Reading>, codec::CodecError>(rs),
{
    codec::plain_roundtrip(rs[0].time.0, rs);
}

/// A datagram takes the sender's next number, which then moves on; nothing else
/// changes that number. So no two datagrams of a boot have the same.
pub proof fn numbers_only_grow(s: Link, n: nat, now: Uptime, ack: Ack, r: Reading)
    requires
        s.next_seq < u32::MAX,
    ensures
        s.after_send(n, now).next_seq == s.next_seq + 1,
        s.refreshed(now).next_seq == s.next_seq,
        s.after_ack(ack, now).next_seq == s.next_seq,
        s.after_failure(now).next_seq == s.next_seq,
        s.after_reading(r).next_seq == s.next_seq,
{
}

/// Two datagrams of a boot with different numbers do not share a nonce.
pub proof fn datagrams_have_fresh_nonces(earlier: UpHeader, later: UpHeader)
    requires
        earlier.boot == later.boot,
        earlier.seq != later.seq,
    ensures
        Header::Up(earlier).nonce_bytes() != Header::Up(later).nonce_bytes(),
{
    if Header::Up(earlier).nonce_bytes() == Header::Up(later).nonce_bytes() {
        datagram::nonces_are_distinct(Header::Up(earlier), Header::Up(later));
    }
}

/// Whatever happens at `now`, sending is put off by at most a batch interval.
pub proof fn sending_is_not_put_off(s: Link, ack: Ack, n: nat, now: Uptime)
    requires
        s.next_send.0.nanos <= later(now, BATCH_INTERVAL).0.nanos,
    ensures
        s.refreshed(now).next_send.0.nanos <= later(now, BATCH_INTERVAL).0.nanos,
        s.after_send(n, now).next_send.0.nanos <= later(now, BATCH_INTERVAL).0.nanos,
        s.after_ack(ack, now).next_send.0.nanos <= later(now, BATCH_INTERVAL).0.nanos,
        s.after_failure(now).next_send.0.nanos <= later(now, BATCH_INTERVAL).0.nanos,
{
}

/// An acknowledgement is applied entry by entry and keeps their order. A reading
/// that is queued stays so. One in flight leaves exactly if its datagram is in the
/// window; it stays in flight if its datagram is above the highest number there;
/// and else it is queued again.
pub proof fn settling_goes_by_the_window(a: Seq<Entry>, b: Seq<Entry>, e: Entry, w: RecvWindow)
    ensures
        settled(a + b, w) == settled(a, w) + settled(b, w),
        settled(Seq::empty(), w) == Seq::<Entry>::empty(),
        e.sent == 0 ==> settled(seq![e], w) == seq![e],
        e.sent != 0 && w.holds(e.sent as int) ==> settled(seq![e], w) == Seq::<Entry>::empty(),
        e.sent != 0 && e.sent > w.highest.0 ==> settled(seq![e], w) == seq![e],
        e.sent != 0 && e.sent <= w.highest.0 && !w.holds(e.sent as int) ==> settled(seq![e], w) == seq![
            Entry { reading: e.reading, sent: 0 },
        ],
    decreases b.len(),
{
    let one = seq![e];
    assert(one.drop_last() =~= Seq::empty());
    assert(settled(Seq::empty(), w) =~= Seq::<Entry>::empty());
    assert(settled(one.drop_last(), w) =~= Seq::<Entry>::empty());
    if b.len() == 0 {
        assert(a + b =~= a);
        assert(settled(a, w) + settled(b, w) =~= settled(a, w));
    } else {
        let c = b.drop_last();
        settling_goes_by_the_window(a, c, e, w);
        assert((a + b).drop_last() =~= a + c);
        assert((a + b).last() == b.last());
        match fate(b.last(), w) {
            Fate::Delivered => {},
            Fate::Lost => {
                assert(settled(a, w) + settled(c, w).push(queued_again(b.last())) =~= (settled(a, w) + settled(c, w)).push(
                    queued_again(b.last()),
                ));
            },
            Fate::Kept => {
                assert(settled(a, w) + settled(c, w).push(b.last()) =~= (settled(a, w) + settled(c, w)).push(b.last()));
            },
        }
    }
}

/// The queued readings are those of the entries that no datagram carries, in
/// their order.
pub proof fn queued_readings_are_not_in_flight(a: Seq<Entry>, b: Seq<Entry>, e: Entry)
    ensures
        queued(a + b) == queued(a) + queued(b),
        queued(Seq::empty()) == Seq::<Reading>::empty(),
        queued(seq![e]) == (if e.sent == 0 {
            seq![e.reading]
        } else {
            Seq::empty()
        }),
    decreases a.len(),
{
    let one = seq![e];
    assert(one.drop_first() =~= Seq::empty());
    assert(queued(one.drop_first()) =~= Seq::empty());
    if e.sent == 0 {
        assert(one[0] == e);
        assert(queued(one) =~= seq![e.reading]);
    } else {
        assert(one[0] == e);
        assert(queued(one) =~= Seq::empty());
    }
    if a.len() == 0 {
        assert(a + b =~= b);
        assert(queued(a) + queued(b) =~= queued(b));
    } else {
        let c = a.drop_first();
        queued_readings_are_not_in_flight(c, b, e);
        assert((a + b).drop_first() =~= c + b);
        if a[0].sent == 0 {
            assert(seq![a[0].reading] + (queued(c) + queued(b)) =~= seq![a[0].reading] + queued(c) + queued(b));
        }
    }
}

/// A datagram takes the first of the queued readings and leaves the others
/// queued, in their order; what was in flight before keeps its datagram, and what
/// it takes is in flight under its number.
pub proof fn a_datagram_takes_the_first(es: Seq<Entry>, n: nat, seq: u32, i: int)
    requires
        seq != 0,
        n <= queued(es).len(),
        0 <= i < es.len(),
    ensures
        queued(first_sent(es, n, seq)) == queued(es).skip(n as int),
        first_sent(es, n, seq).len() == es.len(),
        first_sent(es, n, seq)[i].reading == es[i].reading,
        es[i].sent != 0 ==> first_sent(es, n, seq)[i] == es[i],
        es[i].sent == 0 ==> first_sent(es, n, seq)[i].sent == (if queued(es.take(i)).len() < n {
            seq
        } else {
            0
        }),
    decreases es.len(),
{
    lemma_first_sent(es, n, seq);
    if n == 0 {
        assert(queued(es).skip(0) =~= queued(es));
    } else {
        let rest = es.drop_first();
        let m = if es[0].sent == 0 {
            (n - 1) as nat
        } else {
            n
        };
        let out = first_sent(es, n, seq);
        assert(out.drop_first() =~= first_sent(rest, m, seq));
        if i > 0 {
            a_datagram_takes_the_first(rest, m, seq, i - 1);
            assert(es.take(i).drop_first() =~= rest.take(i - 1));
            assert(rest[i - 1] == es[i]);
            assert(out[i] == first_sent(rest, m, seq)[i - 1]);
        } else if rest.len() > 0 {
            a_datagram_takes_the_first(rest, m, seq, 0);
            assert(es.take(0).len() == 0);
        } else {
            assert(queued(rest) =~= Seq::empty());
            assert(es.take(0).len() == 0);
            assert(queued(first_sent(rest, m, seq)) =~= Seq::empty());
        }
        if es[0].sent == 0 {
            assert(queued(es).skip(n as int) =~= queued(rest).skip(m as int));
        }
    }
}

proof fn lemma_filled(used: nat, d: Deltas, rs: Seq<Reading>)
    requires
        d.wf(),
        used <= PLAIN_CAPACITY,
    ensures
        ({
            let n = taken(used, d, rs);
            let len = codec::readings_text(d, rs.take(n as int)).len();
            &&& n <= rs.len()
            &&& used + len <= PLAIN_CAPACITY
            &&& n == rs.len() || PLAIN_CAPACITY - (used + len) < READING_MAX
        }),
    decreases rs.len(),
{
    let n = taken(used, d, rs);
    if rs.len() == 0 || PLAIN_CAPACITY - used < READING_MAX {
        assert(rs.take(0) =~= Seq::empty());
    } else {
        let more = rs.drop_first();
        codec::reading_len(d, rs[0]);
        codec::reading_roundtrip(d, rs[0], Seq::empty());
        let next = used + codec::reading_text(d, rs[0]).len();
        lemma_filled(next, d.after(rs[0]), more);
        let m = taken(next, d.after(rs[0]), more);
        assert(n == m + 1);
        assert(rs.take(n as int).drop_first() =~= more.take(m as int));
        assert(rs.take(n as int)[0] == rs[0]);
    }
}

/// A datagram is filled: it takes all the queued readings, or as many as leave no
/// room for the longest one; and it never takes more than fit.
pub proof fn datagrams_are_filled(rs: Seq<Reading>)
    requires
        rs.len() > 0,
    ensures
        ({
            let n = datagram_share(rs);
            let text = codec::plain_text(rs[0].time.0, rs.take(n as int));
            &&& 1 <= n <= rs.len()
            &&& text.len() <= 1147
            &&& n == rs.len() || 1147 - text.len() < 34
        }),
{
    datagrams_make_progress(rs);
    varint::lemma_varint_len_u64(rs[0].time.0 as nat);
    lemma_filled(varint::varint(rs[0].time.0 as nat).len(), Deltas::start(rs[0].time.0), rs);
}

/// Nothing happens before the deadline: until then no time runs out and no
/// datagram is due.
pub proof fn nothing_happens_before_the_deadline(s: Link, now: Uptime)
    requires
        s.spec_deadline() matches Some(t) ==> now.0.nanos < t.0.nanos,
    ensures
        s.refreshed(now) == s,
        !s.is_due(now),
{
    if s.entries.len() == 0 {
        assert(queued(s.entries) =~= Seq::empty());
    }
    let a = s.live_expired(now);
    let b = a.ack_expired(now);
    assert(a == s);
    assert(b == s);
    if s.mode is Batch && s.waiting is None && s.entries.len() == 0 {
        assert(all_queued(s.entries) =~= s.entries);
    }
}

/// A datagram is due exactly if something is queued, its time has come, and, in
/// batch mode, no answer is awaited.
pub proof fn what_is_due(s: Link, now: Uptime)
    ensures
        s.is_due(now) <==> queued(s.entries).len() > 0 && now.0.nanos >= s.next_send.0.nanos && (s.mode is Live
            || s.waiting is None),
{
}

/// In batch mode a datagram asks for an answer exactly if it empties the queue,
/// if the last answer did not come, or if it is the sixteenth since the last that
/// asked.
pub proof fn when_a_batch_asks(s: Link, n: nat, now: Uptime)
    requires
        s.mode is Batch,
    ensures
        s.asks(n, now) <==> n >= queued(s.entries).len() || s.probing || s.burst >= 15,
{
}

/// In live mode a datagram asks for an answer exactly if none is awaited and the
/// last did not come, or none was asked for in three minutes, or no more than a
/// minute of live mode is left.
pub proof fn when_live_mode_asks(s: Link, until: Uptime, n: nat, now: Uptime)
    requires
        s.mode == (Mode::Live { until }),
        s.last_ack_req.0.nanos + 180_000_000_000int <= u128::MAX,
    ensures
        s.asks(n, now) <==> s.waiting is None && (s.probing || now.0.nanos >= s.last_ack_req.0.nanos + 180_000_000_000int
            || until.0.nanos <= now.0.nanos + 60_000_000_000int),
{
}

/// After a datagram that asks, its answer is awaited for ten seconds and, in
/// batch mode, the next batch is due two minutes later; one that does not ask
/// changes neither, and counts toward the longest burst.
pub proof fn sending_sets_the_clocks(s: Link, n: nat, now: Uptime)
    requires
        now.0.nanos + 120_000_000_000int <= u128::MAX,
        s.next_seq < u32::MAX,
    ensures
        ({
            let t = s.after_send(n, now);
            &&& t.mode == s.mode
            &&& t.probing == s.probing
            &&& s.asks(n, now) ==> {
                &&& t.waiting matches Some(w) && w.seq == s.next_seq && w.deadline.0.nanos == now.0.nanos
                    + 10_000_000_000int
                &&& t.last_ack_req == now
                &&& t.burst == 0
                &&& t.more == (n < queued(s.entries).len())
                &&& s.mode is Batch ==> t.next_send.0.nanos == now.0.nanos + 120_000_000_000int
                &&& s.mode is Live ==> t.next_send == s.next_send
            }
            &&& !s.asks(n, now) ==> {
                &&& t.waiting == s.waiting
                &&& t.next_send == s.next_send
                &&& t.last_ack_req == s.last_ack_req
                &&& t.more == s.more
                &&& s.burst < 16 ==> t.burst == s.burst + 1
            }
        }),
{
}

/// When an answer does not come within its time, all that was in flight is
/// queued again, half a minute later it is sent anew, and every datagram asks
/// until an answer comes.
pub proof fn unanswered_readings_go_again(s: Link, w: Waiting, now: Uptime, n: nat, then: Uptime)
    requires
        s.waiting == Some(w),
        s.mode is Batch,
        s.entries.len() > 0,
        now.0.nanos >= w.deadline.0.nanos,
        now.0.nanos + 30_000_000_000int <= u128::MAX,
    ensures
        ({
            let t = s.refreshed(now);
            &&& readings(t.entries) == readings(s.entries)
            &&& queued(t.entries) == readings(s.entries)
            &&& t.waiting is None
            &&& t.is_due(then) <==> then.0.nanos >= now.0.nanos + 30_000_000_000int
            &&& t.asks(n, then)
        }),
{
    let t = s.refreshed(now);
    lemma_all_queued(s.entries);
    assert(t.entries == all_queued(s.entries));
    assert(readings(t.entries) =~= readings(s.entries));
}

proof fn lemma_all_queued(es: Seq<Entry>)
    ensures
        queued(all_queued(es)) == readings(es),
    decreases es.len(),
{
    let q = all_queued(es);
    if es.len() == 0 {
        assert(queued(q) =~= readings(es));
    } else {
        lemma_all_queued(es.drop_first());
        assert(q.drop_first() =~= all_queued(es.drop_first()));
        assert(readings(es) =~= seq![es[0].reading] + readings(es.drop_first()));
    }
}

/// In live mode each new reading is due at once, as long as live mode lasts and
/// no answer is overdue.
pub proof fn live_readings_leave_at_once(s: Link, ack: Ack, now: Uptime, r: Reading, then: Uptime)
    requires
        ack.live_for.0 > 0,
        now.0.nanos <= then.0.nanos < now.0.nanos + ack.live_for.0 * 1_000_000_000,
        now.0.nanos + ack.live_for.0 * 1_000_000_000 <= u128::MAX,
        s.after_ack(ack, now).waiting matches Some(w) ==> then.0.nanos < w.deadline.0.nanos,
    ensures
        ({
            let t = s.after_ack(ack, now).after_reading(r);
            &&& t.refreshed(then) == t
            &&& t.is_due(then)
            &&& queued(t.entries).last() == r
        }),
{
    let t = s.after_ack(ack, now).after_reading(r);
    let kept = t.entries.drop_last();
    let e = Entry { reading: r, sent: 0 };
    assert(t.entries =~= kept + seq![e]);
    queued_readings_are_not_in_flight(kept, seq![e], e);
}

/// An answer is the awaited one exactly if its window reaches up to the number
/// that asked. Then nothing is awaited any more, and where readings are lost, or
/// were left behind by the longest burst, sending goes on at once.
pub proof fn the_awaited_answer_lets_sending_go_on(s: Link, ack: Ack, now: Uptime)
    ensures
        ({
            let t = s.after_ack(ack, now);
            &&& s.waiting matches Some(w) ==> (t.waiting is None <==> ack.window.highest.0 >= w.seq)
            &&& s.waiting is None ==> t.waiting is None
            &&& t.waiting is Some ==> t.waiting == s.waiting && t.more == s.more
            &&& t.waiting is None ==> !t.more
            &&& !t.probing
            &&& t.next_seq == s.next_seq && t.burst == s.burst && t.last_ack_req == s.last_ack_req
            &&& t.waiting is None && s.more ==> t.next_send == now
            &&& t.waiting is None && (exists|i: int|
                0 <= i < s.entries.len() && (#[trigger] s.entries[i]).sent != 0 && s.entries[i].sent
                    <= ack.window.highest.0 && !ack.window.holds(s.entries[i].sent as int)) ==> t.next_send == now
        }),
{
    if exists|i: int|
        0 <= i < s.entries.len() && (#[trigger] s.entries[i]).sent != 0 && s.entries[i].sent <= ack.window.highest.0
            && !ack.window.holds(s.entries[i].sent as int) {
        let i = choose|i: int|
            0 <= i < s.entries.len() && (#[trigger] s.entries[i]).sent != 0 && s.entries[i].sent <= ack.window.highest.0
                && !ack.window.holds(s.entries[i].sent as int);
        assert(fate(s.entries[i], ack.window) is Lost);
    }
}

/// An answer without live mode puts the sender into batch mode: from live mode
/// the next batch is due in two minutes, and within batch mode its time stays, if
/// nothing has to go at once.
pub proof fn batches_keep_their_time(s: Link, ack: Ack, now: Uptime)
    requires
        ack.live_for.0 == 0,
        now.0.nanos + 120_000_000_000int <= u128::MAX,
        !s.more,
        forall|i: int|
            0 <= i < s.entries.len() && (#[trigger] s.entries[i]).sent != 0 ==> ack.window.holds(
                s.entries[i].sent as int,
            ) || s.entries[i].sent > ack.window.highest.0,
    ensures
        s.after_ack(ack, now).mode is Batch,
        s.mode is Batch ==> s.after_ack(ack, now).next_send == s.next_send,
        s.mode is Live ==> s.after_ack(ack, now).next_send.0.nanos == now.0.nanos + 120_000_000_000int,
{
    if any_lost(s.entries, ack.window) {
        let i = choose|i: int| 0 <= i < s.entries.len() && fate(#[trigger] s.entries[i], ack.window) is Lost;
        assert(false);
    }
}

/// A datagram that the socket refused gives its own readings back to the queue
/// and no others; nobody waits for its answer, and sending is tried again five
/// seconds later.
pub proof fn refused_datagrams_go_again(s: Link, now: Uptime, i: int)
    requires
        s.next_seq > 1,
        0 <= i < s.entries.len(),
        now.0.nanos + 5_000_000_000int <= u128::MAX,
    ensures
        ({
            let t = s.after_failure(now);
            let last = s.next_seq - 1;
            &&& t.entries.len() == s.entries.len()
            &&& t.entries[i].reading == s.entries[i].reading
            &&& t.entries[i].sent == (if s.entries[i].sent == last {
                0
            } else {
                s.entries[i].sent
            })
            &&& t.next_send.0.nanos == now.0.nanos + 5_000_000_000int
            &&& t.waiting is Some <==> (s.waiting matches Some(w) && w.seq != last)
            &&& t.waiting is Some ==> t.waiting == s.waiting
            &&& t.mode == s.mode && t.next_seq == s.next_seq && t.probing == s.probing && t.more == s.more
        }),
{
}

/// A new reading is queued behind all others and changes nothing else.
pub proof fn new_readings_wait_their_turn(s: Link, r: Reading)
    ensures
        ({
            let t = s.after_reading(r);
            &&& t.entries.last() == (Entry { reading: r, sent: 0 })
            &&& s.entries.len() < 1440 ==> t.entries.drop_last() == s.entries
            &&& s.entries.len() >= 1440 ==> t.entries.drop_last() == s.entries.drop_first()
            &&& t.next_send == s.next_send && t.waiting == s.waiting && t.mode == s.mode && t.next_seq == s.next_seq
            &&& t.burst == s.burst && t.more == s.more && t.probing == s.probing && t.last_ack_req == s.last_ack_req
        }),
{
    let t = s.after_reading(r);
    assert(t.entries.drop_last() =~= if s.entries.len() >= 1440 {
        s.entries.drop_first()
    } else {
        s.entries
    });
}

/// Live mode that has run out becomes batch mode with the next batch in two
/// minutes; live mode that has not, and batch mode, stay.
pub proof fn modes_change_with_time(s: Link, now: Uptime)
    requires
        now.0.nanos + 120_000_000_000int <= u128::MAX,
        s.waiting is None,
    ensures
        (s.mode matches Mode::Live { until } && now.0.nanos >= until.0.nanos) ==> s.refreshed(now).mode is Batch
            && s.refreshed(now).next_send.0.nanos == now.0.nanos + 120_000_000_000int,
        (s.mode matches Mode::Live { until } && now.0.nanos < until.0.nanos) ==> s.refreshed(now) == s,
        s.mode is Batch ==> s.refreshed(now).mode is Batch && s.refreshed(now).next_send == s.next_send,
        readings(s.refreshed(now).entries) == readings(s.entries),
{
    assert(readings(s.refreshed(now).entries) =~= readings(s.entries));
}

/// In batch mode, readings that are in flight when the next batch is due and
/// that no answer is awaited for are sent again with it.
pub proof fn strays_go_with_the_next_batch(s: Link, now: Uptime)
    requires
        s.mode is Batch,
        s.waiting is None,
        s.entries.len() > 0,
        queued(s.entries).len() == 0,
    ensures
        now.0.nanos >= s.next_send.0.nanos ==> queued(s.refreshed(now).entries) == readings(s.entries) && s.refreshed(
            now,
        ).is_due(now),
        now.0.nanos < s.next_send.0.nanos ==> s.refreshed(now) == s,
{
    lemma_all_queued(s.entries);
}

} // verus!
