//! Receive window: which datagrams of one boot of the station are stored.
//!
//! The receiver keeps a window per boot and sends a snapshot of it in each
//! acknowledgement; the station decides the fate of its datagrams in flight by
//! that same snapshot. The window is the highest stored number and 32 bits on
//! the numbers before it: bit `i` is set when number `highest - 1 - i` is
//! stored. It remembers nothing older.

use vstd::prelude::*;

use crate::datagram::SeqNo;

verus! {

/// How many numbers below the highest the window remembers.
pub const WINDOW_BITS: u32 = 32;

/// The highest stored number and the bits on those before it.
#[derive(Clone, Copy, PartialEq, Eq, Structural, Debug)]
pub struct RecvWindow {
    pub highest: SeqNo,
    pub seen: u32,
}

/// What a window knows of a datagram's number.
#[derive(Clone, Copy, PartialEq, Eq, Structural, Debug)]
pub enum SeqStatus {
    /// Stored.
    Seen,
    /// Below the highest, inside the window, not stored: lost, refused or still
    /// on its way.
    NotSeen,
    /// Below the window: its fate is unknown.
    OutOfWindow,
    /// Above the highest: the receiver does not know of it yet.
    Ahead,
}

/// Bit `i` of `bits`.
pub open spec fn bit(bits: u32, i: u32) -> bool {
    (bits >> i) & 1 == 1
}

impl RecvWindow {
    /// Does the window hold number `s`.
    pub open spec fn holds(self, s: int) -> bool {
        ||| s == self.highest.0
        ||| 1 <= self.highest.0 - s <= WINDOW_BITS && bit(self.seen, (self.highest.0 - s - 1) as u32)
    }

    /// What the window knows of number `s`.
    pub open spec fn spec_status(self, s: int) -> SeqStatus {
        if s > self.highest.0 {
            SeqStatus::Ahead
        } else if self.highest.0 - s > WINDOW_BITS {
            SeqStatus::OutOfWindow
        } else if self.holds(s) {
            SeqStatus::Seen
        } else {
            SeqStatus::NotSeen
        }
    }

    /// Is `next` this window with number `s` marked.
    pub open spec fn marked_to(self, s: int, next: RecvWindow) -> bool {
        &&& next.highest.0 == if s > self.highest.0 {
            s
        } else {
            self.highest.0 as int
        }
        &&& forall|t: int| #[trigger]
            next.holds(t) <==> next.highest.0 - t <= WINDOW_BITS && (self.holds(t) || (t == s
                && self.highest.0 - s <= WINDOW_BITS))
    }

    /// The window after a boot's first datagram is stored.
    pub fn new(first: SeqNo) -> (w: RecvWindow)
        ensures
            w.highest == first,
            w.seen == 0,
            forall|t: int| #[trigger] w.holds(t) <==> t == first.0,
    {
        let w = RecvWindow { highest: first, seen: 0 };
        assert forall|t: int| #[trigger] w.holds(t) <==> t == first.0 by {
            lemma_no_bits((first.0 - t - 1) as u32);
        }
        w
    }

    /// A window as an acknowledgement carries it.
    pub fn from_parts(highest: SeqNo, seen: u32) -> (w: RecvWindow)
        ensures
            w == (RecvWindow { highest, seen }),
    {
        RecvWindow { highest, seen }
    }

    /// The highest stored number.
    pub fn highest(&self) -> (s: SeqNo)
        ensures
            s == self.highest,
    {
        self.highest
    }

    /// The bits on the numbers before it.
    pub fn seen_bits(&self) -> (b: u32)
        ensures
            b == self.seen,
    {
        self.seen
    }

    /// What the window knows of a number.
    pub fn status(&self, seq: SeqNo) -> (s: SeqStatus)
        ensures
            s == self.spec_status(seq.0 as int),
    {
        if seq.0 == self.highest.0 {
            return SeqStatus::Seen;
        }
        if seq.0 > self.highest.0 {
            return SeqStatus::Ahead;
        }
        let back: u32 = self.highest.0 - seq.0 - 1;
        if back >= WINDOW_BITS {
            SeqStatus::OutOfWindow
        } else if (self.seen >> back) & 1 == 1 {
            SeqStatus::Seen
        } else {
            SeqStatus::NotSeen
        }
    }

    /// Marks a datagram as stored, only after it really is. `false`: the number
    /// is below the window and nothing changed.
    pub fn mark(&mut self, seq: SeqNo) -> (marked: bool)
        ensures
            marked <==> old(self).highest.0 - seq.0 <= WINDOW_BITS,
            !marked ==> *final(self) == *old(self),
            old(self).marked_to(seq.0 as int, *final(self)),
    {
        let ghost was = *self;
        if seq.0 > self.highest.0 {
            let shift: u32 = seq.0 - self.highest.0;
            if shift > WINDOW_BITS {
                self.seen = 0;
            } else {
                let wide: u64 = ((self.seen as u64) << shift) | (1u64 << (shift - 1));
                self.seen = #[verifier::truncate] (wide as u32);
            }
            self.highest = seq;
            proof {
                assert forall|t: int| #[trigger] self.holds(t) <==> self.highest.0 - t <= WINDOW_BITS && (
                was.holds(t) || t == seq.0) by {
                    if 1 <= seq.0 - t <= WINDOW_BITS {
                        let i = (seq.0 - t - 1) as u32;
                        if shift > WINDOW_BITS {
                            lemma_no_bits(i);
                        } else {
                            let last = (shift - 1) as u32;
                            if i >= shift {
                                lemma_shift_kept(was.seen, shift, last, i, (i - shift) as u32);
                            } else {
                                lemma_shift(was.seen, shift, last, i);
                            }
                        }
                    }
                }
            }
            return true;
        }
        if seq.0 == self.highest.0 {
            return true;
        }
        let back: u32 = self.highest.0 - seq.0 - 1;
        if back >= WINDOW_BITS {
            return false;
        }
        self.seen = self.seen | (1u32 << back);
        proof {
            assert forall|t: int| #[trigger] self.holds(t) <==> self.highest.0 - t <= WINDOW_BITS && (was.holds(
                t,
            ) || t == seq.0) by {
                if 1 <= self.highest.0 - t <= WINDOW_BITS {
                    lemma_set_bit(was.seen, back, (self.highest.0 - t - 1) as u32);
                }
            }
        }
        true
    }
}

proof fn lemma_no_bits(i: u32)
    ensures
        !bit(0, i),
{
    assert((0u32 >> i) & 1 == 0) by (bit_vector);
}

proof fn lemma_set_bit(bits: u32, k: u32, i: u32)
    requires
        k < 32,
        i < 32,
    ensures
        bit(bits | (1u32 << k), i) <==> bit(bits, i) || i == k,
{
    assert(((bits | (1u32 << k)) >> i) & 1 == 1 <==> (bits >> i) & 1 == 1 || i == k) by (bit_vector)
        requires
            k < 32,
            i < 32,
    ;
}

proof fn lemma_shift(bits: u32, shift: u32, last: u32, i: u32)
    requires
        shift == last + 1,
        shift <= 32,
        i < 32,
        i < shift,
    ensures
        bit((((bits as u64) << shift) | (1u64 << last)) as u32, i) <==> i == last,
{
    assert((((((bits as u64) << shift) | (1u64 << last)) as u32) >> i) & 1 == 1 <==> i == last) by (bit_vector)
        requires
            shift == last + 1,
            shift <= 32,
            i < 32,
            i < shift,
    ;
}

proof fn lemma_shift_kept(bits: u32, shift: u32, last: u32, i: u32, j: u32)
    requires
        shift == last + 1,
        shift <= 32,
        i < 32,
        i == j + shift,
    ensures
        bit((((bits as u64) << shift) | (1u64 << last)) as u32, i) <==> bit(bits, j),
{
    assert((((((bits as u64) << shift) | (1u64 << last)) as u32) >> i) & 1 == 1 <==> (bits >> j) & 1 == 1)
        by (bit_vector)
        requires
            shift == last + 1,
            shift <= 32,
            i < 32,
            i == j + shift,
    ;
}

/// Is `ws` a run of windows in which step `k` marks number `seqs[k]`.
pub open spec fn is_marking_run(first: SeqNo, seqs: Seq<u32>, ws: Seq<RecvWindow>) -> bool {
    &&& ws.len() == seqs.len() + 1
    &&& ws[0].highest == first
    &&& forall|t: int| #[trigger] ws[0].holds(t) <==> t == first.0
    &&& forall|k: int| #![trigger seqs[k]] 0 <= k < seqs.len() ==> ws[k].marked_to(seqs[k] as int, ws[k + 1])
}

/// Of the numbers that a window still reaches, it holds exactly those that
/// were ever marked, in whatever order they came.
pub proof fn window_matches_marks(first: SeqNo, seqs: Seq<u32>, ws: Seq<RecvWindow>, t: int)
    requires
        is_marking_run(first, seqs, ws),
        ws.last().highest.0 - t <= WINDOW_BITS,
    ensures
        ws.last().holds(t) <==> t == first.0 || exists|k: int| 0 <= k < seqs.len() && #[trigger] seqs[k] == t,
        forall|k: int| 0 <= k < seqs.len() ==> #[trigger] seqs[k] <= ws.last().highest.0,
        first.0 <= ws.last().highest.0,
    decreases seqs.len(),
{
    if seqs.len() > 0 {
        let n = seqs.len() - 1;
        let before = seqs.drop_last();
        let had = ws.drop_last();
        let w = had.last();
        assert(seqs[n] == seqs.last());
        assert(w.marked_to(seqs[n] as int, ws.last()));
        assert(is_marking_run(first, before, had)) by {
            assert forall|k: int| #![trigger before[k]] 0 <= k < before.len() implies had[k].marked_to(
                before[k] as int,
                had[k + 1],
            ) by {
                assert(seqs[k] == before[k]);
            }
        }
        assert(w.highest.0 <= ws.last().highest.0);
        window_matches_marks(first, before, had, t);
        assert(ws.last().holds(t) <==> w.holds(t) || (t == seqs[n] && w.highest.0 - seqs[n] <= WINDOW_BITS));
        assert forall|k: int| 0 <= k < seqs.len() implies #[trigger] seqs[k] <= ws.last().highest.0 by {
            if k < n {
                assert(before[k] == seqs[k]);
            }
        }
        if exists|k: int| 0 <= k < seqs.len() && #[trigger] seqs[k] == t {
            let k = choose|k: int| 0 <= k < seqs.len() && #[trigger] seqs[k] == t;
            if k < n {
                assert(before[k] == t);
            }
        }
        if exists|k: int| 0 <= k < before.len() && #[trigger] before[k] == t {
            let k = choose|k: int| 0 <= k < before.len() && #[trigger] before[k] == t;
            assert(seqs[k] == t);
        }
    }
}

/// A number that is marked and still inside the window reads as stored, and
/// stays so as long as the window reaches it.
pub proof fn marked_is_seen(w: RecvWindow, s: int, next: RecvWindow)
    requires
        w.marked_to(s, next),
        w.highest.0 - s <= WINDOW_BITS,
    ensures
        next.spec_status(s) == SeqStatus::Seen,
        forall|t: int|
            w.spec_status(t) == SeqStatus::Seen && next.highest.0 - t <= WINDOW_BITS ==> #[trigger] next.spec_status(
                t,
            ) == SeqStatus::Seen,
{
    assert(next.holds(s));
    assert forall|t: int|
        w.spec_status(t) == SeqStatus::Seen && next.highest.0 - t <= WINDOW_BITS implies #[trigger] next.spec_status(
        t,
    ) == SeqStatus::Seen by {
        assert(next.holds(t));
    }
}

/// Bit `i` of a window stands for the number that lies `i` and one more below the
/// highest; the highest needs no bit, and no other number has one.
pub proof fn bits_are_numbers(w: RecvWindow, i: u32)
    requires
        i < 32,
    ensures
        w.holds(w.highest.0 - 1 - i) <==> (w.seen >> i) & 1 == 1,
        w.holds(w.highest.0 as int),
        forall|s: int| s > w.highest.0 || s < w.highest.0 - 32 ==> !#[trigger] w.holds(s),
{
}

/// Whatever order the marks came in: a number reads as stored exactly if it was
/// marked and is no more than 32 below the highest mark; one that was not marked
/// reads as missing there, further down as unknown, above the highest mark as
/// not heard of. The highest mark is the highest number of the window.
pub proof fn status_follows_marks(first: SeqNo, seqs: Seq<u32>, ws: Seq<RecvWindow>, t: u32)
    requires
        is_marking_run(first, seqs, ws),
    ensures
        ({
            let marked = t == first.0 || seqs.contains(t);
            let top = ws.last().highest.0;
            let status = ws.last().spec_status(t as int);
            &&& status == SeqStatus::Seen <==> marked && t + 32 >= top
            &&& status == SeqStatus::NotSeen <==> !marked && t < top && t + 32 >= top
            &&& status == SeqStatus::OutOfWindow <==> t + 32 < top
            &&& status == SeqStatus::Ahead <==> t > top
            &&& top == first.0 || seqs.contains(top)
            &&& top >= first.0
            &&& forall|k: int| 0 <= k < seqs.len() ==> #[trigger] seqs[k] <= top
        }),
    decreases seqs.len(),
{
    let top = ws.last().highest.0;
    if t + 32 >= top {
        window_matches_marks(first, seqs, ws, t as int);
    }
    window_matches_marks(first, seqs, ws, top as int);
    assert(ws.last().holds(top as int));
    if seqs.contains(t) {
        let k = choose|k: int| 0 <= k < seqs.len() && #[trigger] seqs[k] == t;
        assert(seqs[k] <= top);
    }
    if exists|k: int| 0 <= k < seqs.len() && #[trigger] seqs[k] == top {
        let k = choose|k: int| 0 <= k < seqs.len() && #[trigger] seqs[k] == top;
        assert(seqs.contains(top));
    }
    if t + 32 >= top && exists|k: int| 0 <= k < seqs.len() && #[trigger] seqs[k] == t as int {
        let k = choose|k: int| 0 <= k < seqs.len() && #[trigger] seqs[k] == t as int;
        assert(seqs[k] == t);
        assert(seqs.contains(t));
    }
}

/// A number that is not marked anew keeps its standing, as long as the window
/// still reaches it: marking one number says nothing of another.
pub proof fn marking_leaves_others(w: RecvWindow, s: int, next: RecvWindow, t: int)
    requires
        w.marked_to(s, next),
        t != s,
        t <= w.highest.0,
        next.highest.0 - t <= 32,
    ensures
        next.spec_status(t) == w.spec_status(t),
        next.highest.0 >= w.highest.0,
        next.highest.0 >= s,
{
    assert(next.holds(t) <==> w.holds(t));
}

} // verus!
