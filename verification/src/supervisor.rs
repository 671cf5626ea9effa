//! Decision of the watchdog, and the cause of a reset, without hardware.
//!
//! A reset is due when the code of a task stops running, not when the network
//! outside is down: the retry loops go on beating through an outage. A
//! heartbeat is a sign of life of a task, not of a successful transfer.

use vstd::prelude::*;

use crate::time;
use crate::time::Duration;

verus! {

/// Time since boot. Monotonic; not to be mixed up with wall-clock time.
#[derive(Clone, Copy, PartialEq, Eq, Structural, PartialOrd, Ord, Debug)]
pub struct Uptime(pub Duration);

/// Count of a task's iterations. Only that it changes matters.
#[derive(Clone, Copy, PartialEq, Eq, Structural, Debug)]
pub struct Heartbeat(pub u32);

/// Seconds without a beat that the sensor task may normally take, three times
/// over.
pub const SENSOR_STALL_LIMIT: u64 = 90;

/// Seconds without a beat that the network task may take.
pub const NET_STALL_LIMIT: u64 = 180;

/// Watch over one task.
#[derive(Clone, Copy, PartialEq, Eq, Structural, Debug)]
pub struct Liveness {
    /// Seconds without a beat that are too many.
    pub limit: u64,
    pub seen: Heartbeat,
    pub last_change: Uptime,
    /// Until the first beat the limit does not hold: booting and calibration
    /// may take a minute.
    pub armed: bool,
}

impl Liveness {
    /// After a beat was read at `now`.
    pub open spec fn after(self, now: Uptime, hb: Heartbeat) -> Liveness {
        if hb != self.seen {
            Liveness { limit: self.limit, seen: hb, last_change: now, armed: true }
        } else {
            self
        }
    }

    /// Is the task taken to be alive at `now`.
    pub open spec fn is_alive(self, now: Uptime) -> bool {
        !self.armed || now.0.spec_saturating_sub(self.last_change.0) < self.limit * time::NANOS_PER_SEC
    }

    fn new(limit: u64, now: Uptime, hb: Heartbeat) -> (l: Liveness)
        ensures
            l == (Liveness { limit, seen: hb, last_change: now, armed: false }),
    {
        Liveness { limit, seen: hb, last_change: now, armed: false }
    }

    /// Takes a fresh beat into account; `true`: the task is alive.
    fn observe(&mut self, now: Uptime, hb: Heartbeat) -> (alive: bool)
        ensures
            *final(self) == old(self).after(now, hb),
            alive == final(self).is_alive(now),
    {
        if hb.0 != self.seen.0 {
            self.seen = hb;
            self.last_change = now;
            self.armed = true;
        }
        !self.armed || now.0.saturating_sub(self.last_change.0).nanos < self.limit as u128 * time::NANOS_PER_SEC
    }
}

/// Decision of one tick.
#[derive(Clone, Copy, PartialEq, Eq, Structural, Debug)]
pub enum Verdict {
    /// Both tasks are alive: feed the hardware watchdog.
    Feed,
    /// A task is stuck: do not feed it, and the hardware resets. If the task
    /// comes back before that, the next tick feeds again.
    Withhold { sensor_ok: bool, net_ok: bool },
}

/// Supervisor of the sensor task and the network task.
#[derive(Clone, Copy, PartialEq, Eq, Structural, Debug)]
pub struct Supervisor {
    pub sensor: Liveness,
    pub net: Liveness,
}

impl Supervisor {
    /// Starts to watch at `now`, with the beats as they stand.
    pub fn new(now: Uptime, sensor: Heartbeat, net: Heartbeat) -> (s: Supervisor)
        ensures
            s.sensor == (Liveness { limit: SENSOR_STALL_LIMIT, seen: sensor, last_change: now, armed: false }),
            s.net == (Liveness { limit: NET_STALL_LIMIT, seen: net, last_change: now, armed: false }),
            s.sensor.limit == 90,
            s.net.limit == 180,
    {
        Supervisor {
            sensor: Liveness::new(SENSOR_STALL_LIMIT, now, sensor),
            net: Liveness::new(NET_STALL_LIMIT, now, net),
        }
    }

    /// One tick: reads both beats and decides.
    pub fn tick(&mut self, now: Uptime, sensor: Heartbeat, net: Heartbeat) -> (v: Verdict)
        ensures
            final(self).sensor == old(self).sensor.after(now, sensor),
            final(self).net == old(self).net.after(now, net),
            v == verdict(final(self).sensor.is_alive(now), final(self).net.is_alive(now)),
    {
        let sensor_ok = self.sensor.observe(now, sensor);
        let net_ok = self.net.observe(now, net);
        if sensor_ok && net_ok {
            Verdict::Feed
        } else {
            Verdict::Withhold { sensor_ok, net_ok }
        }
    }
}

/// The decision on two tasks.
pub open spec fn verdict(sensor_ok: bool, net_ok: bool) -> Verdict {
    if sensor_ok && net_ok {
        Verdict::Feed
    } else {
        Verdict::Withhold { sensor_ok, net_ok }
    }
}

/// A task that has not beaten yet is never taken for stuck.
pub proof fn unarmed_task_is_alive(l: Liveness, now: Uptime)
    requires
        !l.armed,
    ensures
        l.is_alive(now),
        l.after(now, l.seen).is_alive(now),
{
}

/// A beat at `now` makes a task alive, whatever came before: a task that was
/// stuck and comes back is fed again.
pub proof fn beat_revives(l: Liveness, now: Uptime, hb: Heartbeat)
    requires
        hb != l.seen,
        l.limit > 0,
    ensures
        l.after(now, hb).is_alive(now),
        l.after(now, hb).armed,
{
    assert(now.0.spec_saturating_sub(now.0) == 0);
}

/// A task that has beaten is taken for stuck exactly when its limit has passed
/// without another beat.
pub proof fn silence_is_stall(l: Liveness, now: Uptime)
    requires
        l.armed,
        l.limit > 0,
    ensures
        l.after(now, l.seen).is_alive(now) <==> now.0.nanos < l.last_change.0.nanos + l.limit * time::NANOS_PER_SEC,
{
}

/// Why the chip rebooted.
#[derive(Clone, Copy, PartialEq, Eq, Structural, Debug)]
pub enum BootFault {
    /// Ordinary start: power, reset button, new firmware, clean reboot.
    Clean,
    /// The reset came from a panic.
    Panic,
    /// The reset came from the RTC watchdog: a task, or all of them, stood still.
    WdtStall,
}

/// Class of the hardware's reset reason.
#[derive(Clone, Copy, PartialEq, Eq, Structural, Debug)]
pub enum ResetKind {
    /// Power: RTC memory is garbage.
    PowerOn,
    /// RTC watchdog, at any level.
    RtcWatchdog,
    /// Software reset, ordinary or after a panic.
    Software,
    /// Anything else.
    Other,
}

/// Cause of a boot.
pub open spec fn boot_fault(kind: ResetKind, panic_marked: bool) -> BootFault {
    match kind {
        ResetKind::RtcWatchdog => BootFault::WdtStall,
        ResetKind::Software => if panic_marked {
            BootFault::Panic
        } else {
            BootFault::Clean
        },
        ResetKind::PowerOn => BootFault::Clean,
        ResetKind::Other => BootFault::Clean,
    }
}

/// Cause of a boot by the class of the reset and the mark of a panic in RTC
/// memory. The mark serves for a panic only, which the hardware does not tell
/// from an ordinary software reset; a stall leaves no mark.
pub fn classify(kind: ResetKind, panic_marked: bool) -> (f: BootFault)
    ensures
        f == boot_fault(kind, panic_marked),
{
    match kind {
        ResetKind::RtcWatchdog => BootFault::WdtStall,
        ResetKind::Software => if panic_marked {
            BootFault::Panic
        } else {
            BootFault::Clean
        },
        ResetKind::PowerOn => BootFault::Clean,
        ResetKind::Other => BootFault::Clean,
    }
}

/// Seconds between ticks.
pub const FEED_INTERVAL: u64 = 10;

/// Seconds after which the hardware watchdog resets when it is not fed.
pub const RWDT_TIMEOUT_SECS: u64 = 120;

/// Word that tells a valid area from the garbage of a cold start.
pub const FAULT_MAGIC: u32 = 0x6D74_0002;

/// Mark that a panic leaves behind.
pub const PANIC_MARK: u32 = 1;

/// Words in RTC memory that survive a reset.
#[derive(Clone, Copy, PartialEq, Eq, Structural, Debug)]
pub struct RtcArea {
    pub magic: u32,
    pub panic_mark: u32,
    /// Resets by the safeguards since power came on.
    pub fault_count: u32,
}

/// What is known of a boot.
#[derive(Clone, Copy, PartialEq, Eq, Structural, Debug)]
pub struct BootReport {
    pub fault: BootFault,
    /// Resets by the safeguards since power came on, this one among them.
    pub faults_since_power_on: u32,
}

/// Does the area hold what an earlier boot left.
pub open spec fn area_valid(area: RtcArea, kind: ResetKind) -> bool {
    area.magic == FAULT_MAGIC && kind != ResetKind::PowerOn
}

/// Cause of this boot by the class of the reset and the area.
pub open spec fn fault_of(area: RtcArea, kind: ResetKind) -> BootFault {
    boot_fault(kind, area_valid(area, kind) && area.panic_mark == PANIC_MARK)
}

/// Finds the cause of this boot and gives the area for the next. To be called
/// once at the start.
///
/// After power-on, or without the magic word, the area starts anew. The mark of
/// a panic is always taken away, so that an ordinary reset later does not show
/// an old cause. The count grows when the cause is a fault.
pub fn take_boot_fault(area: RtcArea, kind: ResetKind) -> (r: (BootReport, RtcArea))
    ensures
        r.0.fault == fault_of(area, kind),
        r.1.magic == FAULT_MAGIC,
        r.1.panic_mark == 0,
        r.1.fault_count == ({
            let before = if area_valid(area, kind) {
                area.fault_count as int
            } else {
                0
            };
            if fault_of(area, kind) == BootFault::Clean {
                before
            } else {
                (before + 1) % 0x1_0000_0000
            }
        }),
        r.0.faults_since_power_on == r.1.fault_count,
{
    let valid = area.magic == FAULT_MAGIC && kind != ResetKind::PowerOn;
    let panic_marked = valid && area.panic_mark == PANIC_MARK;
    let before: u32 = if valid {
        area.fault_count
    } else {
        0
    };
    let fault = classify(kind, panic_marked);
    let fault_count: u32 = if fault == BootFault::Clean {
        before
    } else {
        before.wrapping_add(1)
    };
    (
        BootReport { fault, faults_since_power_on: fault_count },
        RtcArea { magic: FAULT_MAGIC, panic_mark: 0, fault_count },
    )
}

/// A panic is reported by the boot that follows it, and by no later one.
pub proof fn panic_is_reported_once(area: RtcArea, next: RtcArea, kind: ResetKind)
    requires
        area.magic == FAULT_MAGIC,
        area.panic_mark == PANIC_MARK,
        next.panic_mark == 0,
    ensures
        fault_of(area, ResetKind::Software) == BootFault::Panic,
        fault_of(next, kind) != BootFault::Panic,
{
}

/// After power-on nothing that the area holds counts.
pub proof fn power_on_is_clean(area: RtcArea)
    ensures
        fault_of(area, ResetKind::PowerOn) == BootFault::Clean,
{
}

/// A beat gives a task its whole limit from that beat on, whatever came before:
/// without another beat it is alive exactly until then.
pub proof fn beat_gives_the_whole_limit(l: Liveness, now: Uptime, hb: Heartbeat, t: Uptime)
    requires
        hb != l.seen,
        l.limit > 0,
    ensures
        l.after(now, hb).after(t, hb).is_alive(t) <==> t.0.nanos < now.0.nanos + l.limit * 1_000_000_000,
        l.after(now, hb).limit == l.limit,
        l.after(now, hb).seen == hb,
{
}

/// The last beat that was seen counts, and none before it: a task that beats at
/// each of two ticks has its whole limit from the later one on.
pub proof fn later_beat_counts(l: Liveness, first: Uptime, a: Heartbeat, second: Uptime, b: Heartbeat, t: Uptime)
    requires
        a != b,
        l.limit > 0,
        first.0.nanos <= second.0.nanos,
    ensures
        l.after(first, a).after(second, b).after(t, b).is_alive(t) <==> t.0.nanos < second.0.nanos + l.limit
            * 1_000_000_000,
{
}

/// A tick without a beat changes nothing: neither the time of the last beat nor
/// whether the task is watched.
pub proof fn silence_changes_nothing(l: Liveness, now: Uptime)
    ensures
        l.after(now, l.seen) == l,
{
}

/// The hardware watchdog is fed exactly if both tasks are alive, and a refusal
/// says which is not.
pub proof fn verdict_names_the_stuck(sensor_ok: bool, net_ok: bool)
    ensures
        verdict(sensor_ok, net_ok) == Verdict::Feed <==> sensor_ok && net_ok,
        verdict(sensor_ok, net_ok) matches Verdict::Withhold { sensor_ok: s, net_ok: n } ==> s == sensor_ok && n
            == net_ok,
{
}

/// Only the RTC watchdog makes a stall, at any time and whatever memory holds;
/// only a software reset with a valid mark makes a panic; all else is clean.
pub proof fn faults_have_one_cause(area: RtcArea, kind: ResetKind)
    ensures
        fault_of(area, kind) == BootFault::WdtStall <==> kind == ResetKind::RtcWatchdog,
        fault_of(area, kind) == BootFault::Panic <==> kind == ResetKind::Software && area.magic == 0x6D74_0002
            && area.panic_mark == 1,
        area_valid(area, kind) <==> area.magic == 0x6D74_0002 && kind != ResetKind::PowerOn,
{
}

} // verus!
