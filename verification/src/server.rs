//! Receiver of datagrams as an automaton without input and output. Socket,
//! database and clock belong to the caller; here is the order of actions on
//! which delivery depends:
//!
//! 1. [`Server::receive`] checks a datagram and says whether it is a duplicate;
//! 2. if it is not, the caller stores the readings and only then calls
//!    [`Server::ingested`]: a mark before storing would lose the readings when
//!    storing fails, since the station drops what is acknowledged;
//! 3. where [`ack_due`] says so, [`Server::ack`] makes the answer. When storing
//!    fails there is neither mark nor answer, and the station sends again.

use std::collections::HashMap;

use vstd::prelude::*;

use crate::codec;
use crate::codec::{CodecError, Reading, Readings};
use crate::crypto::Cipher;
use crate::datagram;
use crate::datagram::{
    Ack, AckSeq, BootId, DatagramError, DownHeader, Header, LiveSecs, SeqNo, ServerSalt, UpHeader, ACK_DATAGRAM_LEN,
};
use crate::recv_window::{RecvWindow, SeqStatus};
use crate::time;
use crate::time::Duration;
use crate::varint;

verus! {

broadcast use vstd::std_specs::hash::group_hash_axioms;

/// Seconds of silence after which a boot's window is forgotten.
pub const BOOT_IDLE_FORGET: u64 = 86400;

/// Why a datagram is not taken.
#[derive(Clone, Copy, PartialEq, Eq, Structural, Debug)]
pub enum ServerError {
    Datagram(DatagramError),
    /// The tag matches, but the readings do not parse.
    Codec(CodecError),
}

/// A checked datagram of the station.
pub struct Incoming<'a> {
    pub boot: BootId,
    pub seq: SeqNo,
    pub ack_req: bool,
    /// Stored already: not to be stored again, but to be acknowledged.
    pub duplicate: bool,
    /// The readings; an error among them refuses the whole datagram.
    pub readings: Readings<'a>,
}

impl<'a> Incoming<'a> {
    /// All the readings, or the first error: half a datagram stored would be
    /// worse than one refused.
    pub fn collect_readings(self) -> (r: Result<Vec<Reading>, ServerError>)
        requires
            self.readings.wf(),
        ensures
            match (r, self.readings.remaining()) {
                (Ok(v), Ok(rs)) => v@ == rs,
                (Err(e), Err(f)) => e == ServerError::Codec(f),
                _ => false,
            },
    {
        match self.readings.collect() {
            Ok(v) => Ok(v),
            Err(e) => Err(ServerError::Codec(e)),
        }
    }
}

/// What becomes of a datagram before storing.
pub enum Admission {
    /// Not a genuine datagram of the station.
    Refused(ServerError),
    /// Stored already: only an answer may be due.
    Duplicate { boot: BootId, seq: SeqNo, ack_req: bool },
    /// Genuine, but its readings do not parse: nothing is stored or answered.
    Undecodable { boot: BootId, seq: SeqNo, error: CodecError },
    /// Its readings are to be stored.
    Fresh { boot: BootId, seq: SeqNo, ack_req: bool, readings: Vec<Reading> },
}

/// How storing an admitted datagram went.
#[derive(Clone, Copy, PartialEq, Eq, Structural, Debug)]
pub enum Outcome {
    /// It was stored before.
    Duplicate,
    /// Stored just now.
    Stored,
    /// Storing failed.
    Failed,
}

/// What the receiver knows of one boot.
#[derive(Clone, Copy, PartialEq, Eq, Structural, Debug)]
pub struct BootState {
    /// `None`: nothing of this boot is stored yet.
    pub window: Option<RecvWindow>,
    pub last_heard: Duration,
}

/// The receiver.
pub struct Server {
    cipher: Cipher,
    salt: ServerSalt,
    next_ack: AckSeq,
    boots: HashMap<u32, BootState>,
}

/// Was the boot heard of recently enough to be remembered.
pub open spec fn is_fresh(b: BootState, now: Duration) -> bool {
    now.spec_saturating_sub(b.last_heard) < BOOT_IDLE_FORGET * time::NANOS_PER_SEC
}

/// The boots that are still remembered.
pub open spec fn remembered(boots: Map<u32, BootState>, now: Duration) -> Map<u32, BootState> {
    Map::new(|b: u32| boots.dom().contains(b) && is_fresh(boots[b], now), |b: u32| boots[b])
}

/// The window of a boot, if anything of it is stored.
pub open spec fn window_of(boots: Map<u32, BootState>, boot: BootId) -> Option<RecvWindow> {
    if boots.dom().contains(boot.0) {
        boots[boot.0].window
    } else {
        None
    }
}

/// The boots after a datagram of `boot` was heard.
pub open spec fn heard(boots: Map<u32, BootState>, boot: BootId, now: Duration) -> Map<u32, BootState> {
    boots.insert(boot.0, BootState { window: window_of(boots, boot), last_heard: now })
}

/// Is `next` the window after number `seq` was stored.
pub open spec fn stored_in(was: Option<RecvWindow>, seq: SeqNo, next: RecvWindow) -> bool {
    match was {
        Some(w) => {
            &&& w.marked_to(seq.0 as int, next)
            &&& w.spec_status(seq.0 as int) == SeqStatus::OutOfWindow ==> next == w
        },
        None => next == (RecvWindow { highest: seq, seen: 0 }),
    }
}

/// Is number `seq` known to be stored.
pub open spec fn is_stored(window: Option<RecvWindow>, seq: SeqNo) -> bool {
    match window {
        Some(w) => w.spec_status(seq.0 as int) == SeqStatus::Seen,
        None => false,
    }
}

/// What a datagram is taken for: its header and plaintext.
pub open spec fn received(key: Seq<u8>, dg: Seq<u8>) -> Result<(UpHeader, Seq<u8>), ServerError> {
    match datagram::opened_up(key, dg) {
        Err(e) => Err(ServerError::Datagram(e)),
        Ok((h, plain)) => match varint::parse_varint(plain) {
            Err(e) => Err(ServerError::Codec(codec::codec_error(e))),
            Ok(_) => Ok((h, plain)),
        },
    }
}

impl Server {
    /// The key of its cipher.
    pub closed spec fn key(&self) -> Seq<u8> {
        self.cipher.key@
    }

    /// The salt of its acknowledgements.
    pub closed spec fn salt(&self) -> ServerSalt {
        self.salt
    }

    /// The number of its next acknowledgement.
    pub closed spec fn next_ack(&self) -> AckSeq {
        self.next_ack
    }

    /// What it knows of each boot.
    pub closed spec fn boots(&self) -> Map<u32, BootState> {
        self.boots@
    }

    /// Is it the same receiver, but for its boots and its next number.
    pub open spec fn same_identity(&self, other: Server) -> bool {
        self.key() == other.key() && self.salt() == other.salt()
    }

    /// A receiver that knows no boot. `salt` is to be random on each start of
    /// the process: the same salt would repeat nonces.
    pub fn new(cipher: Cipher, salt: ServerSalt) -> (s: Server)
        ensures
            s.key() == cipher.key@,
            s.salt() == salt,
            s.next_ack().0 == 1,
            s.boots() == Map::<u32, BootState>::empty(),
    {
        Server { cipher, salt, next_ack: AckSeq::first(), boots: HashMap::new() }
    }

    /// Checks a datagram, decrypting it in place, and hands out its readings.
    /// Only genuine datagrams keep windows alive.
    pub fn receive<'a>(&mut self, datagram: &'a mut [u8], now: Duration) -> (r: Result<Incoming<'a>, ServerError>)
        ensures
            final(self).same_identity(*old(self)),
            final(self).next_ack() == old(self).next_ack(),
            final(datagram)@ == datagram::decrypted(old(self).key(), old(datagram)@),
            match (r, received(old(self).key(), old(datagram)@)) {
                (Ok(inc), Ok((h, plain))) => {
                    &&& inc.boot == h.boot
                    &&& inc.seq == h.seq
                    &&& inc.ack_req == h.ack_req
                    &&& inc.duplicate == is_stored(
                        window_of(remembered(old(self).boots(), now), h.boot),
                        h.seq,
                    )
                    &&& inc.readings.wf()
                    &&& inc.readings.remaining() == codec::parse_plain(plain)
                    &&& datagram::carries(old(self).key(), old(datagram)@, Header::Up(h), plain)
                    &&& final(self).boots() == heard(remembered(old(self).boots(), now), h.boot, now)
                },
                (Err(e), Err(f)) => e == f && final(self).boots() == old(self).boots(),
                _ => false,
            },
    {
        let (header, plain) = match datagram::open_up(&self.cipher, datagram) {
            Ok(opened) => opened,
            Err(e) => {
                return Err(ServerError::Datagram(e));
            },
        };
        let readings = match codec::decode(plain) {
            Ok(readings) => readings,
            Err(e) => {
                return Err(ServerError::Codec(e));
            },
        };
        self.forget_idle(now);
        let window = self.window(header.boot);
        self.boots.insert(header.boot.0, BootState { window, last_heard: now });
        let duplicate = match window {
            Some(w) => w.status(header.seq) == SeqStatus::Seen,
            None => false,
        };
        Ok(Incoming { boot: header.boot, seq: header.seq, ack_req: header.ack_req, duplicate, readings })
    }

    /// The readings of a datagram are stored. To be called only once they are.
    pub fn ingested(&mut self, boot: BootId, seq: SeqNo, now: Duration)
        ensures
            final(self).same_identity(*old(self)),
            final(self).next_ack() == old(self).next_ack(),
            final(self).boots().dom() == old(self).boots().dom().insert(boot.0),
            forall|b: u32| b != boot.0 && old(self).boots().dom().contains(b) ==> #[trigger] final(self).boots()[b]
                == old(self).boots()[b],
            final(self).boots()[boot.0].last_heard == now,
            final(self).boots()[boot.0].window matches Some(w) && stored_in(
                window_of(old(self).boots(), boot),
                seq,
                w,
            ),
    {
        let was = self.window(boot);
        let next = match was {
            Some(w) => {
                let mut next = w;
                let _marked = next.mark(seq);
                next
            },
            None => RecvWindow::new(seq),
        };
        self.boots.insert(boot.0, BootState { window: Some(next), last_heard: now });
    }

    /// The acknowledgement for a boot. `None`: nothing of it is stored yet.
    pub fn ack(&mut self, boot: BootId, live_for: LiveSecs) -> (r: Option<[u8; ACK_DATAGRAM_LEN]>)
        requires
            window_of(old(self).boots(), boot) is Some ==> old(self).next_ack().0 < u32::MAX,
        ensures
            final(self).same_identity(*old(self)),
            final(self).boots() == old(self).boots(),
            match (r, window_of(old(self).boots(), boot)) {
                (Some(dg), Some(window)) => {
                    let header = DownHeader { salt: old(self).salt(), ack_seq: old(self).next_ack() };
                    let ack = Ack { boot, window, live_for };
                    &&& datagram::carries(old(self).key(), dg@, Header::Down(header), ack.bytes())
                    &&& datagram::opened_ack(old(self).key(), dg@) == Ok::<(DownHeader, Ack), DatagramError>(
                        (header, ack),
                    )
                    &&& final(self).next_ack().0 == old(self).next_ack().0 + 1
                },
                (None, None) => final(self).next_ack() == old(self).next_ack(),
                _ => false,
            },
    {
        let window = match self.window(boot) {
            Some(w) => w,
            None => {
                return None;
            },
        };
        let header = DownHeader { salt: self.salt, ack_seq: self.next_ack };
        self.next_ack = self.next_ack.next();
        let ack = Ack { boot, window, live_for };
        Some(ack.seal(&self.cipher, header))
    }

    /// Is there a number left for another acknowledgement.
    pub fn can_ack(&self) -> (can: bool)
        ensures
            can <==> self.next_ack().0 < u32::MAX,
    {
        self.next_ack.0 < u32::MAX
    }

    /// Takes a datagram in as far as it goes without storing: refused, already
    /// stored, undecodable, or with readings that are to be stored.
    pub fn take_in(&mut self, datagram: &mut [u8], now: Duration) -> (r: Admission)
        ensures
            final(self).same_identity(*old(self)),
            final(self).next_ack() == old(self).next_ack(),
            final(datagram)@ == datagram::decrypted(old(self).key(), old(datagram)@),
            match received(old(self).key(), old(datagram)@) {
                Err(e) => r == Admission::Refused(e) && final(self).boots() == old(self).boots(),
                Ok((h, plain)) => {
                    let known = window_of(remembered(old(self).boots(), now), h.boot);
                    &&& final(self).boots() == heard(remembered(old(self).boots(), now), h.boot, now)
                    &&& if is_stored(known, h.seq) {
                        r == (Admission::Duplicate { boot: h.boot, seq: h.seq, ack_req: h.ack_req })
                    } else {
                        match codec::parse_plain(plain) {
                            Err(e) => r == (Admission::Undecodable { boot: h.boot, seq: h.seq, error: e }),
                            Ok(rs) => {
                                &&& r matches Admission::Fresh { boot, seq, ack_req, readings }
                                &&& boot == h.boot && seq == h.seq && ack_req == h.ack_req && readings@ == rs
                            },
                        }
                    }
                },
            },
    {
        let incoming = match self.receive(datagram, now) {
            Ok(incoming) => incoming,
            Err(e) => {
                return Admission::Refused(e);
            },
        };
        let boot = incoming.boot;
        let seq = incoming.seq;
        let ack_req = incoming.ack_req;
        if incoming.duplicate {
            return Admission::Duplicate { boot, seq, ack_req };
        }
        match incoming.readings.collect() {
            Ok(readings) => Admission::Fresh { boot, seq, ack_req, readings },
            Err(error) => Admission::Undecodable { boot, seq, error },
        }
    }

    /// Concludes a datagram that was admitted: marks it if it was stored just
    /// now, and gives the answer if one is due. When storing failed there is
    /// neither mark nor answer.
    pub fn conclude(
        &mut self,
        boot: BootId,
        seq: SeqNo,
        ack_req: bool,
        outcome: Outcome,
        now: Duration,
        live_for: LiveSecs,
    ) -> (r: Option<[u8; ACK_DATAGRAM_LEN]>)
        requires
            ack_req && (outcome is Stored || (outcome is Duplicate && window_of(old(self).boots(), boot) is Some))
                ==> old(self).next_ack().0 < u32::MAX,
        ensures
            final(self).same_identity(*old(self)),
            outcome is Stored ==> {
                &&& final(self).boots().dom() == old(self).boots().dom().insert(boot.0)
                &&& forall|b: u32| b != boot.0 && old(self).boots().dom().contains(b) ==> #[trigger] final(self).boots()[b]
                    == old(self).boots()[b]
                &&& final(self).boots()[boot.0].last_heard == now
                &&& final(self).boots()[boot.0].window matches Some(w) && stored_in(
                    window_of(old(self).boots(), boot),
                    seq,
                    w,
                )
            },
            !(outcome is Stored) ==> final(self).boots() == old(self).boots(),
            r is Some <==> ack_req && !(outcome is Failed) && window_of(final(self).boots(), boot) is Some,
            final(self).next_ack().0 == if r is Some {
                old(self).next_ack().0 + 1
            } else {
                old(self).next_ack().0 as int
            },
            r matches Some(dg) ==> {
                let header = DownHeader { salt: old(self).salt(), ack_seq: old(self).next_ack() };
                let ack = Ack { boot, window: window_of(final(self).boots(), boot)->0, live_for };
                &&& datagram::carries(old(self).key(), dg@, Header::Down(header), ack.bytes())
                &&& datagram::opened_ack(old(self).key(), dg@) == Ok::<(DownHeader, Ack), DatagramError>((header, ack))
            },
    {
        let (duplicate, stored) = match outcome {
            Outcome::Duplicate => (true, false),
            Outcome::Stored => (false, true),
            Outcome::Failed => (false, false),
        };
        if stored {
            self.ingested(boot, seq, now);
        }
        if ack_due(ack_req, duplicate, stored) {
            self.ack(boot, live_for)
        } else {
            None
        }
    }

    fn window(&self, boot: BootId) -> (w: Option<RecvWindow>)
        ensures
            w == window_of(self.boots(), boot),
    {
        match self.boots.get(&boot.0) {
            Some(state) => state.window,
            None => None,
        }
    }

    fn forget_idle(&mut self, now: Duration)
        ensures
            final(self).cipher == old(self).cipher,
            final(self).salt == old(self).salt,
            final(self).next_ack == old(self).next_ack,
            final(self).boots() == remembered(old(self).boots(), now),
    {
        let ghost all = self.boots@;
        let keys = self.known_boots();
        let mut i: usize = 0;
        assert(keys@.skip(0) =~= keys@);
        assert forall|b: u32| all.dom().contains(b) <==> keys@.contains(b) by {
            assert(keys@.to_set().contains(b) <==> keys@.contains(b));
        }
        while i < keys.len()
            invariant
                i <= keys@.len(),
                self.cipher == old(self).cipher,
                self.salt == old(self).salt,
                self.next_ack == old(self).next_ack,
                all == old(self).boots@,
                keys@.to_set() == all.dom(),
                keys@.no_duplicates(),
                forall|b: u32|
                    self.boots@.dom().contains(b) <==> all.dom().contains(b) && (is_fresh(all[b], now)
                        || keys@.skip(i as int).contains(b)),
                forall|b: u32| self.boots@.dom().contains(b) ==> #[trigger] self.boots@[b] == all[b],
            decreases keys@.len() - i,
        {
            let b: u32 = keys[i];
            let ghost left = keys@.skip(i as int);
            let ghost was = self.boots@;
            assert(left[0] == b);
            assert(left.contains(b));
            assert(keys@.to_set().contains(b)) by {
                assert(keys@.contains(b));
            }
            let idle = match self.boots.get(&b) {
                Some(state) => now.saturating_sub(state.last_heard).nanos >= BOOT_IDLE_FORGET as u128
                    * time::NANOS_PER_SEC,
                None => false,
            };
            assert(was.dom().contains(b));
            assert(was[b] == all[b]);
            assert(idle == !is_fresh(all[b], now));
            if idle {
                self.boots.remove(&b);
            }
            assert(self.boots@ == if idle {
                was.remove(b)
            } else {
                was
            });
            proof {
                let next = keys@.skip(i + 1);
                assert(left =~= seq![b] + next);
                assert(!next.contains(b)) by {
                    if next.contains(b) {
                        let k = choose|k: int| 0 <= k < next.len() && next[k] == b;
                        assert(keys@[i + 1 + k] == b);
                    }
                }
                assert forall|c: u32| c != b implies (left.contains(c) <==> next.contains(c)) by {
                    if left.contains(c) {
                        let k = choose|k: int| 0 <= k < left.len() && left[k] == c;
                        assert(next[k - 1] == c);
                    }
                    if next.contains(c) {
                        let k = choose|k: int| 0 <= k < next.len() && next[k] == c;
                        assert(left[k + 1] == c);
                    }
                }
                assert forall|c: u32|
                    self.boots@.dom().contains(c) <==> all.dom().contains(c) && (is_fresh(all[c], now)
                        || next.contains(c)) by {
                    assert(was.dom().contains(c) <==> all.dom().contains(c) && (is_fresh(all[c], now)
                        || left.contains(c)));
                }
            }
            i = i + 1;
        }
        assert(keys@.skip(keys@.len() as int) =~= Seq::empty());
        assert forall|b: u32| self.boots@.dom().contains(b) <==> remembered(all, now).dom().contains(b) by {
            assert(i == keys@.len());
            assert(!keys@.skip(i as int).contains(b));
            assert(self.boots@.dom().contains(b) <==> all.dom().contains(b) && (is_fresh(all[b], now)
                || keys@.skip(i as int).contains(b)));
        }
        assert(self.boots@ =~= remembered(all, now));
    }

    fn known_boots(&self) -> (keys: Vec<u32>)
        ensures
            keys@.to_set() == self.boots@.dom(),
            keys@.no_duplicates(),
    {
        let mut keys: Vec<u32> = Vec::new();
        let ghost all = vstd::std_specs::iter::IteratorSpec::remaining(
            &vstd::std_specs::hash::spec_keys_iter(&self.boots),
        ).unref();
        for k in iter: self.boots.keys()
            invariant
                all == iter.seq().unref(),
                keys@ == all.take(iter.index()),
        {
            keys.push(*k);
            assert(keys@ =~= all.take(iter.index() + 1));
        }
        assert(all.take(all.len() as int) =~= all);
        keys
    }
}

/// Is an answer owed: the station asked for one, and the datagram's readings
/// are stored, just now or before.
pub fn ack_due(ack_req: bool, duplicate: bool, stored: bool) -> (due: bool)
    ensures
        due <==> ack_req && (duplicate || stored),
{
    ack_req && (duplicate || stored)
}

/// Do the windows hold only numbers of datagrams in `stored` (pairs of boot id
/// and number).
pub open spec fn windows_honest(boots: Map<u32, BootState>, stored: Set<(u32, int)>) -> bool {
    forall|b: u32, t: int|
        #![trigger stored.contains((b, t))]
        boots.dom().contains(b) && (boots[b].window matches Some(w) && w.holds(t)) ==> stored.contains((b, t))
}

/// Hearing a datagram marks nothing: if the windows held only what is stored,
/// they still do.
pub proof fn hearing_keeps_windows_honest(
    boots: Map<u32, BootState>,
    stored: Set<(u32, int)>,
    boot: BootId,
    now: Duration,
)
    requires
        windows_honest(boots, stored),
    ensures
        windows_honest(heard(remembered(boots, now), boot, now), stored),
{
    let next = heard(remembered(boots, now), boot, now);
    assert forall|b: u32, t: int|
        #![trigger stored.contains((b, t))]
        next.dom().contains(b) && (next[b].window matches Some(w) && w.holds(t)) implies stored.contains((b, t)) by {
        assert(boots.dom().contains(b) && boots[b].window == next[b].window);
    }
}

/// Storing a datagram's readings and then marking it keeps the windows honest.
pub proof fn storing_keeps_windows_honest(
    boots: Map<u32, BootState>,
    stored: Set<(u32, int)>,
    boot: BootId,
    seq: SeqNo,
    next: Map<u32, BootState>,
)
    requires
        windows_honest(boots, stored),
        next.dom() == boots.dom().insert(boot.0),
        forall|b: u32| b != boot.0 && boots.dom().contains(b) ==> #[trigger] next[b] == boots[b],
        next[boot.0].window matches Some(w) && stored_in(window_of(boots, boot), seq, w),
    ensures
        windows_honest(next, stored.insert((boot.0, seq.0 as int))),
{
    let more = stored.insert((boot.0, seq.0 as int));
    assert forall|b: u32, t: int|
        #![trigger more.contains((b, t))]
        next.dom().contains(b) && (next[b].window matches Some(w) && w.holds(t)) implies more.contains((b, t)) by {
        if b == boot.0 {
            let w = next[b].window->0;
            match window_of(boots, boot) {
                Some(v) => {
                    assert(w.holds(t) ==> v.holds(t) || t == seq.0);
                    assert(v.holds(t) ==> stored.contains((b, t)));
                },
                None => {
                    assert(!crate::recv_window::bit(0, (seq.0 - t - 1) as u32)) by {
                        let i = (seq.0 - t - 1) as u32;
                        assert((0u32 >> i) & 1 == 0) by (bit_vector);
                    }
                },
            }
        } else {
            assert(stored.contains((b, t)));
        }
    }
}

/// What an acknowledgement reports as stored is stored.
pub proof fn acks_are_honest(boots: Map<u32, BootState>, stored: Set<(u32, int)>, boot: BootId, ack: Ack, t: SeqNo)
    requires
        windows_honest(boots, stored),
        window_of(boots, boot) == Some(ack.window),
        ack.window.spec_status(t.0 as int) == SeqStatus::Seen,
    ensures
        stored.contains((boot.0, t.0 as int)),
{
    assert(ack.window.holds(t.0 as int));
}

/// A stored datagram that comes again within the idle time is told apart as a
/// duplicate, as long as its number is inside the window.
pub proof fn stored_is_duplicate(boots: Map<u32, BootState>, boot: BootId, seq: SeqNo, now: Duration)
    requires
        window_of(boots, boot) matches Some(w) && w.spec_status(seq.0 as int) == SeqStatus::Seen,
        is_fresh(boots[boot.0], now),
    ensures
        is_stored(window_of(remembered(boots, now), boot), seq),
{
}

/// The term of live mode that the receiver keeps: each request for live data
/// extends it. What is left of it goes to the station in acknowledgements.
#[derive(Clone, Copy, PartialEq, Eq, Structural, Debug)]
pub struct LiveLease {
    /// `None`: nobody has asked for live data.
    pub until: Option<Duration>,
}

impl LiveLease {
    /// No request yet.
    pub fn new() -> (l: LiveLease)
        ensures
            l.until is None,
    {
        LiveLease { until: None }
    }

    /// Live data are asked for at `now`: the term never gets shorter.
    pub fn request(&mut self, now: Duration, lease: Duration)
        requires
            now.nanos + lease.nanos <= time::MAX_NANOS,
        ensures
            final(self).until matches Some(u) && u.nanos == match old(self).until {
                Some(was) => if was.nanos > now.nanos + lease.nanos {
                    was.nanos as int
                } else {
                    now.nanos + lease.nanos
                },
                None => now.nanos + lease.nanos,
            },
    {
        let until = now.plus(lease);
        match self.until {
            Some(was) => {
                if was.nanos < until.nanos {
                    self.until = Some(until);
                }
            },
            None => {
                self.until = Some(until);
            },
        }
    }

    /// Whole seconds that are left, rounded down.
    pub open spec fn left(self, now: Duration) -> int {
        match self.until {
            Some(u) => u.spec_saturating_sub(now) / time::NANOS_PER_SEC as int,
            None => 0,
        }
    }

    /// Whole seconds that are left, rounded down so that the station does not
    /// outlive the term.
    pub fn remaining(&self, now: Duration) -> (s: LiveSecs)
        ensures
            s.0 == if self.left(now) > u16::MAX {
                u16::MAX as int
            } else {
                self.left(now)
            },
    {
        let left: u128 = match self.until {
            Some(u) => u.saturating_sub(now).as_secs(),
            None => 0,
        };
        if left > u16::MAX as u128 {
            LiveSecs(u16::MAX)
        } else {
            LiveSecs(left as u16)
        }
    }
}

impl Default for LiveLease {
    fn default() -> (l: LiveLease)
        ensures
            l.until is None,
    {
        LiveLease::new()
    }
}

/// A station that keeps live mode for the seconds it was given, counted from
/// when they were given, does not outlive the term.
pub proof fn lease_is_not_outlived(l: LiveLease, now: Duration, s: LiveSecs)
    requires
        s.0 == if l.left(now) > u16::MAX {
            u16::MAX as int
        } else {
            l.left(now)
        },
        s.0 > 0,
    ensures
        l.until matches Some(u) && now.nanos + s.0 * time::NANOS_PER_SEC <= u.nanos,
{
}

/// A datagram is taken for a duplicate exactly if its number is marked in the
/// window of its boot: a number below the highest that was never marked is new,
/// in whatever order the datagrams arrive.
pub proof fn duplicates_are_marked(window: Option<RecvWindow>, seq: SeqNo)
    ensures
        is_stored(window, seq) <==> (window matches Some(w) && (seq.0 == w.highest.0 || (seq.0 < w.highest.0
            && w.highest.0 - seq.0 <= 32 && (w.seen >> (w.highest.0 - seq.0 - 1) as u32) & 1 == 1))),
{
}

/// What the receiver was told, one call after another.
pub enum Told {
    /// A genuine datagram of a boot came.
    Heard { boot: BootId, now: Duration },
    /// A datagram was stored.
    Stored { boot: BootId, seq: SeqNo, now: Duration },
}

/// Is `next` what is known of the boots after the call.
pub open spec fn follows(boots: Map<u32, BootState>, told: Told, next: Map<u32, BootState>) -> bool {
    match told {
        Told::Heard { boot, now } => next == heard(remembered(boots, now), boot, now),
        Told::Stored { boot, seq, now } => {
            &&& next.dom() == boots.dom().insert(boot.0)
            &&& forall|b: u32| b != boot.0 && boots.dom().contains(b) ==> #[trigger] next[b] == boots[b]
            &&& next[boot.0].last_heard == now
            &&& next[boot.0].window matches Some(w) && stored_in(window_of(boots, boot), seq, w)
        },
    }
}

/// Are `bs` the states of a receiver that starts without boots and is told
/// `calls`.
pub open spec fn is_server_run(calls: Seq<Told>, bs: Seq<Map<u32, BootState>>) -> bool {
    &&& bs.len() == calls.len() + 1
    &&& bs[0] == Map::<u32, BootState>::empty()
    &&& forall|k: int| #![trigger calls[k]] 0 <= k < calls.len() ==> follows(bs[k], calls[k], bs[k + 1])
}

/// Was a datagram stored in the course of the calls.
pub open spec fn was_stored(calls: Seq<Told>, boot: BootId, seq: int) -> bool {
    exists|k: int|
        0 <= k < calls.len() && (#[trigger] calls[k] matches Told::Stored { boot: b, seq: s, .. } && b == boot && s.0
            == seq)
}

proof fn lemma_run_is_honest(calls: Seq<Told>, bs: Seq<Map<u32, BootState>>, boot: BootId, t: int)
    requires
        is_server_run(calls, bs),
        window_of(bs.last(), boot) matches Some(w) && w.holds(t),
    ensures
        was_stored(calls, boot, t),
    decreases calls.len(),
{
    if calls.len() > 0 {
        let n = calls.len() - 1;
        let before = calls.drop_last();
        let had = bs.drop_last();
        let was = had.last();
        let now = bs.last();
        assert(follows(was, calls[n], now));
        assert(is_server_run(before, had)) by {
            assert forall|k: int| #![trigger before[k]] 0 <= k < before.len() implies follows(
                had[k],
                before[k],
                had[k + 1],
            ) by {
                assert(calls[k] == before[k]);
            }
        }
        let w = window_of(now, boot)->0;
        if window_of(was, boot) matches Some(v) && v.holds(t) {
            lemma_run_is_honest(before, had, boot, t);
            let k = choose|k: int|
                0 <= k < before.len() && (#[trigger] before[k] matches Told::Stored { boot: b, seq: s, .. } && b == boot
                    && s.0 == t);
            assert(calls[k] == before[k]);
        } else {
            match calls[n] {
                Told::Heard { boot: b, now: at } => {
                    assert(window_of(was, boot) == Some(w));
                },
                Told::Stored { boot: b, seq: s, now: at } => {
                    if b != boot {
                        assert(now.dom().contains(boot.0));
                        assert(was.dom().contains(boot.0));
                        assert(now[boot.0] == was[boot.0]);
                    } else {
                        match window_of(was, boot) {
                            Some(v) => {
                                assert(w.holds(t) ==> v.holds(t) || t == s.0);
                            },
                            None => {
                                if t != s.0 {
                                    let i = (s.0 - t - 1) as u32;
                                    assert((0u32 >> i) & 1 == 0) by (bit_vector);
                                }
                            },
                        }
                    }
                },
            }
        }
    } else {
        assert(bs.last() == bs[0]);
    }
}

/// Over any run of calls, a datagram is taken for a duplicate only if it was
/// stored in that run: one that was never stored is new, also when later numbers
/// of its boot are stored already.
pub proof fn duplicates_were_stored(
    calls: Seq<Told>,
    bs: Seq<Map<u32, BootState>>,
    boot: BootId,
    seq: SeqNo,
    now: Duration,
)
    requires
        is_server_run(calls, bs),
        is_stored(window_of(remembered(bs.last(), now), boot), seq),
    ensures
        was_stored(calls, boot, seq.0 as int),
{
    let w = window_of(remembered(bs.last(), now), boot)->0;
    assert(w.holds(seq.0 as int));
    assert(window_of(bs.last(), boot) == Some(w));
    lemma_run_is_honest(calls, bs, boot, seq.0 as int);
}

/// A datagram that was just stored is a duplicate from then on: until its boot
/// is silent for a day, or its number lies more than 32 below the highest.
pub proof fn stored_comes_back_as_duplicate(
    boots: Map<u32, BootState>,
    boot: BootId,
    seq: SeqNo,
    at: Duration,
    next: Map<u32, BootState>,
    now: Duration,
)
    requires
        follows(boots, Told::Stored { boot, seq, now: at }, next),
        now.nanos < at.nanos + 86_400_000_000_000int,
        window_of(boots, boot) matches Some(w) ==> w.highest.0 - seq.0 <= 32,
    ensures
        is_stored(window_of(remembered(next, now), boot), seq),
        forall|t: SeqNo|
            is_stored(window_of(boots, boot), t) && t.0 + 32 >= seq.0 ==> #[trigger] is_stored(
                window_of(remembered(next, now), boot),
                t,
            ),
{
    let w = next[boot.0].window->0;
    assert(w.holds(seq.0 as int)) by {
        if let Some(v) = window_of(boots, boot) {
            assert(w.holds(seq.0 as int) <==> w.highest.0 - seq.0 <= crate::recv_window::WINDOW_BITS && (v.holds(
                seq.0 as int,
            ) || v.highest.0 - seq.0 <= crate::recv_window::WINDOW_BITS));
        }
    }
    assert(window_of(remembered(next, now), boot) == Some(w));
    assert forall|t: SeqNo| is_stored(window_of(boots, boot), t) && t.0 + 32 >= seq.0 implies #[trigger] is_stored(
        window_of(remembered(next, now), boot),
        t,
    ) by {
        let v = window_of(boots, boot)->0;
        assert(v.holds(t.0 as int));
        assert(w.holds(t.0 as int));
    }
}

/// A boot is remembered exactly while less than a day has passed since it was
/// last heard of, with its window as it was; boots do not touch each other.
pub proof fn boots_are_remembered_for_a_day(boots: Map<u32, BootState>, boot: BootId, other: BootId, now: Duration)
    ensures
        remembered(boots, now).dom().contains(boot.0) <==> boots.dom().contains(boot.0) && now.nanos
            < boots[boot.0].last_heard.nanos + 86_400_000_000_000int,
        remembered(boots, now).dom().contains(boot.0) ==> remembered(boots, now)[boot.0] == boots[boot.0],
        heard(boots, boot, now).dom().contains(boot.0),
        heard(boots, boot, now)[boot.0].last_heard == now,
        heard(boots, boot, now)[boot.0].window == (if boots.dom().contains(boot.0) {
            boots[boot.0].window
        } else {
            None
        }),
        other != boot ==> {
            &&& heard(boots, boot, now).dom().contains(other.0) <==> boots.dom().contains(other.0)
            &&& heard(boots, boot, now)[other.0] == boots[other.0]
        },
{
}

/// Exactly the genuine datagrams of the station whose base time can be read are
/// received, with their own header and plaintext.
pub proof fn genuine_datagrams_are_received(key: Seq<u8>, dg: Seq<u8>, h: UpHeader, plain: Seq<u8>)
    ensures
        received(key, dg) == Ok::<(UpHeader, Seq<u8>), ServerError>((h, plain)) <==> datagram::opened(key, dg) == Ok::<
            (Header, Seq<u8>),
            DatagramError,
        >((Header::Up(h), plain)) && varint::parse_varint(plain) is Ok,
        (datagram::opened(key, dg) matches Err(e) && received(key, dg) matches Err(f)) ==> received(key, dg) == Err::<
            (UpHeader, Seq<u8>),
            ServerError,
        >(ServerError::Datagram(datagram::opened(key, dg)->Err_0)),
        (datagram::opened(key, dg) matches Ok((Header::Down(_), _))) ==> received(key, dg) == Err::<
            (UpHeader, Seq<u8>),
            ServerError,
        >(ServerError::Datagram(DatagramError::WrongDirection)),
{
}

/// What is left of the term is told in whole seconds and rounded down: not a
/// second more, and less than a second less.
pub proof fn lease_is_told_in_whole_seconds(l: LiveLease, now: Duration)
    ensures
        l.until matches Some(u) && u.nanos > now.nanos ==> {
            &&& now.nanos + l.left(now) * 1_000_000_000 <= l.until->0.nanos
            &&& l.until->0.nanos < now.nanos + (l.left(now) + 1) * 1_000_000_000
        },
        !(l.until matches Some(u) && u.nanos > now.nanos) ==> l.left(now) == 0,
{
}

/// A datagram that carries readings of the station is received with its header,
/// and its readings come out as they went in.
pub proof fn station_datagrams_are_received(key: Seq<u8>, dg: Seq<u8>, h: UpHeader, base: u64, rs: Seq<Reading>)
    requires
        datagram::carries(key, dg, Header::Up(h), codec::plain_text(base, rs)),
    ensures
        received(key, dg) == Ok::<(UpHeader, Seq<u8>), ServerError>((h, codec::plain_text(base, rs))),
        codec::parse_plain(codec::plain_text(base, rs)) == Ok::<Seq<Reading>, CodecError>(rs),
{
    codec::plain_roundtrip(base, rs);
    varint::varint_roundtrip(base as nat, codec::readings_text(codec::Deltas::start(base), rs));
}

} // verus!
