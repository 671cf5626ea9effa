//! Wall-clock time of the station: time since boot and an offset from NTP.

use vstd::prelude::*;

use crate::wire::EpochMillis;

verus! {

/// Seconds that one NTP request may take.
pub const NTP_REQUEST_TIMEOUT: u64 = 7;

/// Seconds before an NTP request is tried again, until the first succeeds.
pub const NTP_RETRY_DELAY: u64 = 5;

/// Seconds between NTP requests after that.
pub const NTP_RESYNC_INTERVAL: u64 = 1000;

/// Offset before the first NTP request succeeds, in microseconds: some time in
/// September 2025.
pub const DEFAULT_OFFSET_US: i64 = 1_757_986_271_840_363;

/// Whole milliseconds of an offset in microseconds, rounded toward zero.
pub open spec fn offset_millis(offset_us: i64) -> int {
    if offset_us >= 0 {
        offset_us as int / 1000
    } else {
        -((-offset_us) as int / 1000)
    }
}

/// Wall-clock time at `since_boot_ms` milliseconds after boot. It wraps around
/// rather than fail: a broken time stamp costs less than a panic.
pub fn now_epoch(since_boot_ms: u64, offset_us: i64) -> (t: EpochMillis)
    ensures
        t.0 == (since_boot_ms + offset_millis(offset_us)) % 0x1_0000_0000_0000_0000,
{
    if offset_us >= 0 {
        EpochMillis(since_boot_ms.wrapping_add(offset_us as u64 / 1000))
    } else {
        let magnitude: u64 = (-(offset_us + 1)) as u64 + 1;
        EpochMillis(since_boot_ms.wrapping_sub(magnitude / 1000))
    }
}

/// With a sane offset, time runs as fast as time since boot.
pub proof fn clock_runs(a: u64, b: u64, offset_us: i64)
    requires
        a <= b,
        0 <= a + offset_millis(offset_us),
        b + offset_millis(offset_us) <= u64::MAX,
    ensures
        (b + offset_millis(offset_us)) % 0x1_0000_0000_0000_0000 - (a + offset_millis(offset_us))
            % 0x1_0000_0000_0000_0000 == b - a,
{
}

/// What the clock task is to do next.
#[derive(Clone, Copy, PartialEq, Eq, Structural, Debug)]
pub struct ClockAction {
    /// Tell the others that the clock is set.
    pub announce: bool,
    /// Seconds to wait before the next request.
    pub sleep: u64,
}

/// The clock and its requests.
#[derive(Clone, Copy, PartialEq, Eq, Structural, Debug)]
pub struct NtpClock {
    pub offset_us: i64,
    /// Has a request ever succeeded.
    pub synced: bool,
}

impl NtpClock {
    /// Not set yet.
    pub fn new() -> (c: NtpClock)
        ensures
            c == (NtpClock { offset_us: DEFAULT_OFFSET_US, synced: false }),
    {
        NtpClock { offset_us: DEFAULT_OFFSET_US, synced: false }
    }

    /// A request came back with an offset, or failed or timed out. The first
    /// success is announced; until then requests follow closely, afterwards a
    /// failure waits for the next round like a success.
    pub fn on_reply(&mut self, offset_us: Option<i64>) -> (a: ClockAction)
        ensures
            final(self).offset_us == match offset_us {
                Some(o) => o,
                None => old(self).offset_us,
            },
            final(self).synced == (old(self).synced || offset_us is Some),
            a.announce == (!old(self).synced && offset_us is Some),
            a.sleep == if final(self).synced {
                NTP_RESYNC_INTERVAL
            } else {
                NTP_RETRY_DELAY
            },
            old(self).synced || offset_us is Some ==> a.sleep == 1000,
            !old(self).synced && offset_us is None ==> a.sleep == 5,
    {
        let first = !self.synced && offset_us.is_some();
        if let Some(o) = offset_us {
            self.offset_us = o;
            self.synced = true;
        }
        ClockAction {
            announce: first,
            sleep: if self.synced {
                NTP_RESYNC_INTERVAL
            } else {
                NTP_RETRY_DELAY
            },
        }
    }
}

/// Microseconds become milliseconds by cutting off what is left of a
/// millisecond, toward zero on either side.
pub proof fn offsets_are_cut_toward_zero(offset_us: i64)
    ensures
        offset_us >= 0 ==> 0 <= offset_us - 1000 * offset_millis(offset_us) < 1000,
        offset_us <= 0 ==> -1000 < offset_us - 1000 * offset_millis(offset_us) <= 0,
        offset_us >= 0 ==> offset_millis(offset_us) >= 0,
        offset_us <= 0 ==> offset_millis(offset_us) <= 0,
{
}

} // verus!
