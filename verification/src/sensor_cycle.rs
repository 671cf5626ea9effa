//! The measuring loop of the station, and the loop of a station that has the
//! CO2 sensor alone, as automata without input and output.
//!
//! A driver performs each action on the buses and hands its outcome back. One
//! cycle of the loop takes about half a minute: barometer, pressure
//! compensation, a single shot of the CO2 sensor, report, store, rest.

use vstd::prelude::*;

use crate::wire::{BaroReading, EpochMillis, ScdReading, SensorData};

verus! {

/// Milliseconds for the CO2 sensor to settle after it was stopped.
pub const SETTLE_MS: u32 = 500;

/// Milliseconds between looks whether a measurement is ready.
pub const READY_POLL_MS: u32 = 1000;

/// How often the barometer is asked during calibration.
pub const CALIBRATION_TRIES: u32 = 10;

/// Milliseconds between those tries.
pub const CALIBRATION_PAUSE_MS: u32 = 2000;

/// Milliseconds of rest at the end of a cycle.
pub const REST_MS: u32 = 25_000;

/// Milliseconds between measurements of the sensor on its own.
pub const LOW_POWER_PERIOD_MS: u32 = 30_000;

/// Answer of the barometer.
#[derive(Clone, Copy, PartialEq, Eq, Structural, Debug)]
pub enum BaroPoll {
    /// A reading, and its pressure in whole hectopascals.
    Ready { reading: BaroReading, hpa: u16 },
    /// Nothing new yet, which is in order.
    NotReady,
    /// An error on the bus.
    Failed,
}

/// The barometer's answer by what the bus gave: whether there is something new
/// (`None`: an error), and if so the reading (`None`: an error).
pub fn baro_poll(fresh: Option<bool>, data: Option<(BaroReading, u16)>) -> (p: BaroPoll)
    ensures
        p == match fresh {
            None => BaroPoll::Failed,
            Some(false) => BaroPoll::NotReady,
            Some(true) => match data {
                Some((reading, hpa)) => BaroPoll::Ready { reading, hpa },
                None => BaroPoll::Failed,
            },
        },
{
    match (fresh, data) {
        (Some(false), _) => BaroPoll::NotReady,
        (Some(true), Some((reading, hpa))) => BaroPoll::Ready { reading, hpa },
        _ => BaroPoll::Failed,
    }
}

/// Answer to the question whether a measurement is ready.
#[derive(Clone, Copy, PartialEq, Eq, Structural, Debug)]
pub enum ReadyPoll {
    Ready,
    NotReady,
    Failed,
}

/// Outcome of an action.
#[derive(Clone, Copy, PartialEq, Eq, Structural, Debug)]
pub enum SensorEvent {
    /// An action without a result is done.
    Done,
    /// A pause is over.
    Woke,
    /// Is there a barometer.
    Barometer(bool),
    /// Did the CO2 sensor give its serial number.
    Serial(bool),
    /// Did it take the order to measure.
    Started(bool),
    /// Is a measurement ready.
    Polled(ReadyPoll),
    /// The measurement, if it could be read.
    Measured(Option<ScdReading>),
    /// Answer of the barometer.
    Baro(BaroPoll),
    /// The clock: whether it was ever set, and the time.
    Clock { synced: bool, now: EpochMillis },
}

/// What the driver is to do next.
#[derive(Clone, Copy, PartialEq, Eq, Structural, Debug)]
pub enum SensorAction {
    /// Look for the barometer.
    FindBarometer,
    /// Stop the CO2 sensor, which may have been measuring; where `no_periph`,
    /// report a missing sensor.
    StopPeriodic { no_periph: bool },
    /// Read the serial number of the CO2 sensor.
    ReadSerial,
    /// Order one measurement.
    SingleShot,
    /// Order measurements every half minute.
    StartLowPower,
    /// Ask whether a measurement is ready.
    PollReady,
    /// Read it.
    ReadScd,
    /// Ask the barometer.
    PollBarometer,
    /// Correct the temperature offset by the difference of the two readings.
    AdjustOffset { scd: ScdReading, baro: BaroReading },
    /// Read whether self-calibration is on.
    ReadSelfCalibration,
    /// Give a sign of life to the watchdog.
    Beat,
    /// Tell the CO2 sensor the pressure.
    SetPressure(u16),
    /// Show this CO2 value, or none, and report or take back a missing sensor.
    Report { co2: Option<u16>, no_periph: bool },
    /// Put a row into the queue.
    Store(SensorData),
    /// Wait until the clock is set.
    AwaitClock,
    /// Read the clock.
    ReadClock,
    /// Wait so many milliseconds.
    Sleep(u32),
    /// The CO2 sensor is not there: report a missing sensor and stop.
    Halt,
}

/// What the loop waits for.
#[derive(Clone, Copy, PartialEq, Eq, Structural, Debug)]
pub enum SensorPhase {
    Finding,
    Stopping,
    Settling,
    Identifying,
    /// Calibration: the order, the wait, the question, the reading.
    CalShot,
    CalWait,
    CalReady,
    CalRead,
    /// Calibration: the barometer is asked, `tries` times before this.
    CalBaro { scd: ScdReading, tries: u32 },
    CalPause { scd: ScdReading, tries: u32 },
    CalAdjust,
    SelfCalibration,
    Beating,
    Polling,
    Pressing,
    Shooting,
    Waiting,
    Readying,
    Reading,
    Reporting,
    Storing,
    Resting,
    Halted,
}

/// The measuring loop.
#[derive(Clone, Copy, PartialEq, Eq, Structural, Debug)]
pub struct SensorLoop {
    pub phase: SensorPhase,
    pub has_baro: bool,
    /// Last pressure in hectopascals.
    pub hpa: Option<u16>,
    /// Of this cycle.
    pub baro: Option<BaroReading>,
    pub baro_failed: bool,
    pub scd: Option<ScdReading>,
}

impl SensorLoop {
    /// On to `phase`.
    pub open spec fn to(self, phase: SensorPhase) -> SensorLoop {
        SensorLoop { phase, ..self }
    }

    /// Behind calibration, whether it worked or not.
    pub open spec fn calibrated(self) -> (SensorLoop, SensorAction) {
        (self.to(SensorPhase::SelfCalibration), SensorAction::ReadSelfCalibration)
    }

    /// A new cycle, which starts with a sign of life.
    pub open spec fn new_cycle(self) -> (SensorLoop, SensorAction) {
        (
            SensorLoop { phase: SensorPhase::Beating, baro: None, baro_failed: false, scd: None, ..self },
            SensorAction::Beat,
        )
    }

    /// Behind the barometer: the pressure goes to the CO2 sensor, if it was ever
    /// measured.
    pub open spec fn polled(self) -> (SensorLoop, SensorAction) {
        match self.hpa {
            Some(p) => (self.to(SensorPhase::Pressing), SensorAction::SetPressure(p)),
            None => (self.to(SensorPhase::Shooting), SensorAction::SingleShot),
        }
    }

    /// Is any sensor missing in this cycle.
    pub open spec fn no_periph(self) -> bool {
        !self.has_baro || self.baro_failed || self.scd is None
    }

    /// Behind the CO2 sensor, with what it measured.
    pub open spec fn measured(self, scd: Option<ScdReading>) -> (SensorLoop, SensorAction) {
        let s = SensorLoop { phase: SensorPhase::Reporting, scd, ..self };
        (
            s,
            SensorAction::Report {
                co2: match scd {
                    Some(m) => Some(m.co2),
                    None => None,
                },
                no_periph: s.no_periph(),
            },
        )
    }

    /// The state and the action after an outcome; `None`: it is not an outcome
    /// of the action before.
    pub open spec fn next(self, event: SensorEvent) -> Option<(SensorLoop, SensorAction)> {
        match (self.phase, event) {
            (SensorPhase::Finding, SensorEvent::Barometer(found)) => Some(
                (
                    SensorLoop { phase: SensorPhase::Stopping, has_baro: found, ..self },
                    SensorAction::StopPeriodic { no_periph: !found },
                ),
            ),
            (SensorPhase::Stopping, SensorEvent::Done) => Some(
                (self.to(SensorPhase::Settling), SensorAction::Sleep(SETTLE_MS)),
            ),
            (SensorPhase::Settling, SensorEvent::Woke) => Some(
                (self.to(SensorPhase::Identifying), SensorAction::ReadSerial),
            ),
            (SensorPhase::Identifying, SensorEvent::Serial(ok)) => Some(
                if ok {
                    (self.to(SensorPhase::CalShot), SensorAction::SingleShot)
                } else {
                    (self.to(SensorPhase::Halted), SensorAction::Halt)
                },
            ),
            (SensorPhase::CalShot, SensorEvent::Started(ok)) => Some(
                if ok {
                    (self.to(SensorPhase::CalWait), SensorAction::Sleep(READY_POLL_MS))
                } else {
                    self.calibrated()
                },
            ),
            (SensorPhase::CalWait, SensorEvent::Woke) => Some((self.to(SensorPhase::CalReady), SensorAction::PollReady)),
            (SensorPhase::CalReady, SensorEvent::Polled(p)) => Some(
                match p {
                    ReadyPoll::Ready => (self.to(SensorPhase::CalRead), SensorAction::ReadScd),
                    ReadyPoll::NotReady => (self.to(SensorPhase::CalWait), SensorAction::Sleep(READY_POLL_MS)),
                    ReadyPoll::Failed => self.calibrated(),
                },
            ),
            (SensorPhase::CalRead, SensorEvent::Measured(m)) => Some(
                match m {
                    Some(scd) => if self.has_baro {
                        (self.to(SensorPhase::CalBaro { scd, tries: 0 }), SensorAction::PollBarometer)
                    } else {
                        self.calibrated()
                    },
                    None => self.calibrated(),
                },
            ),
            (SensorPhase::CalBaro { scd, tries }, SensorEvent::Baro(p)) => Some(
                match p {
                    BaroPoll::Ready { reading, .. } => (
                        self.to(SensorPhase::CalAdjust),
                        SensorAction::AdjustOffset { scd, baro: reading },
                    ),
                    _ => (
                        self.to(SensorPhase::CalPause { scd, tries: (tries + 1) as u32 }),
                        SensorAction::Sleep(CALIBRATION_PAUSE_MS),
                    ),
                },
            ),
            (SensorPhase::CalPause { scd, tries }, SensorEvent::Woke) => Some(
                if tries < CALIBRATION_TRIES {
                    (self.to(SensorPhase::CalBaro { scd, tries }), SensorAction::PollBarometer)
                } else {
                    self.calibrated()
                },
            ),
            (SensorPhase::CalAdjust, SensorEvent::Done) => Some(self.calibrated()),
            (SensorPhase::SelfCalibration, SensorEvent::Done) => Some(self.new_cycle()),
            (SensorPhase::Beating, SensorEvent::Done) => Some(
                if self.has_baro {
                    (self.to(SensorPhase::Polling), SensorAction::PollBarometer)
                } else {
                    self.polled()
                },
            ),
            (SensorPhase::Polling, SensorEvent::Baro(p)) => Some(
                match p {
                    BaroPoll::Ready { reading, hpa } => (SensorLoop {
                        hpa: Some(hpa),
                        baro: Some(reading),
                        ..self
                    }).polled(),
                    BaroPoll::NotReady => self.polled(),
                    BaroPoll::Failed => (SensorLoop { baro_failed: true, ..self }).polled(),
                },
            ),
            (SensorPhase::Pressing, SensorEvent::Done) => Some(
                (self.to(SensorPhase::Shooting), SensorAction::SingleShot),
            ),
            (SensorPhase::Shooting, SensorEvent::Started(ok)) => Some(
                if ok {
                    (self.to(SensorPhase::Waiting), SensorAction::Sleep(READY_POLL_MS))
                } else {
                    self.measured(None)
                },
            ),
            (SensorPhase::Waiting, SensorEvent::Woke) => Some((self.to(SensorPhase::Readying), SensorAction::PollReady)),
            (SensorPhase::Readying, SensorEvent::Polled(p)) => Some(
                match p {
                    ReadyPoll::NotReady => (self.to(SensorPhase::Waiting), SensorAction::Sleep(READY_POLL_MS)),
                    _ => (self.to(SensorPhase::Reading), SensorAction::ReadScd),
                },
            ),
            (SensorPhase::Reading, SensorEvent::Measured(m)) => Some(self.measured(m)),
            (SensorPhase::Reporting, SensorEvent::Clock { synced, now }) => Some(
                if synced {
                    (
                        self.to(SensorPhase::Storing),
                        SensorAction::Store(SensorData { baro: self.baro, scd: self.scd, time: now }),
                    )
                } else {
                    (self.to(SensorPhase::Resting), SensorAction::Sleep(REST_MS))
                },
            ),
            (SensorPhase::Storing, SensorEvent::Done) => Some(
                (self.to(SensorPhase::Resting), SensorAction::Sleep(REST_MS)),
            ),
            (SensorPhase::Resting, SensorEvent::Woke) => Some(self.new_cycle()),
            _ => None,
        }
    }

    /// Calibration asks the barometer a limited number of times.
    pub open spec fn wf(self) -> bool {
        match self.phase {
            SensorPhase::CalBaro { tries, .. } => tries < CALIBRATION_TRIES,
            SensorPhase::CalPause { tries, .. } => tries <= CALIBRATION_TRIES,
            _ => true,
        }
    }

    /// At the very start. The first action is to look for the barometer.
    pub fn new() -> (s: SensorLoop)
        ensures
            s == (SensorLoop {
                phase: SensorPhase::Finding,
                has_baro: false,
                hpa: None,
                baro: None,
                baro_failed: false,
                scd: None,
            }),
            s.wf(),
    {
        SensorLoop {
            phase: SensorPhase::Finding,
            has_baro: false,
            hpa: None,
            baro: None,
            baro_failed: false,
            scd: None,
        }
    }

    fn go(&mut self, phase: SensorPhase, action: SensorAction) -> (a: SensorAction)
        ensures
            *final(self) == old(self).to(phase),
            a == action,
    {
        self.phase = phase;
        action
    }

    fn finish_calibration(&mut self) -> (a: SensorAction)
        ensures
            (*final(self), a) == old(self).calibrated(),
    {
        self.go(SensorPhase::SelfCalibration, SensorAction::ReadSelfCalibration)
    }

    fn start_cycle(&mut self) -> (a: SensorAction)
        ensures
            (*final(self), a) == old(self).new_cycle(),
    {
        self.baro = None;
        self.baro_failed = false;
        self.scd = None;
        self.go(SensorPhase::Beating, SensorAction::Beat)
    }

    fn compensate(&mut self) -> (a: SensorAction)
        ensures
            (*final(self), a) == old(self).polled(),
    {
        match self.hpa {
            Some(p) => self.go(SensorPhase::Pressing, SensorAction::SetPressure(p)),
            None => self.go(SensorPhase::Shooting, SensorAction::SingleShot),
        }
    }

    fn report(&mut self, scd: Option<ScdReading>) -> (a: SensorAction)
        ensures
            (*final(self), a) == old(self).measured(scd),
    {
        self.scd = scd;
        let co2 = match scd {
            Some(m) => Some(m.co2),
            None => None,
        };
        let no_periph = !self.has_baro || self.baro_failed || scd.is_none();
        self.go(SensorPhase::Reporting, SensorAction::Report { co2, no_periph })
    }

    /// Takes the outcome of the action before and gives the next.
    pub fn step(&mut self, event: SensorEvent) -> (a: SensorAction)
        requires
            old(self).wf(),
            old(self).next(event) is Some,
        ensures
            final(self).wf(),
            old(self).next(event) == Some((*final(self), a)),
    {
        match (self.phase, event) {
            (SensorPhase::Finding, SensorEvent::Barometer(found)) => {
                self.has_baro = found;
                self.go(SensorPhase::Stopping, SensorAction::StopPeriodic { no_periph: !found })
            },
            (SensorPhase::Stopping, SensorEvent::Done) => self.go(
                SensorPhase::Settling,
                SensorAction::Sleep(SETTLE_MS),
            ),
            (SensorPhase::Settling, SensorEvent::Woke) => self.go(SensorPhase::Identifying, SensorAction::ReadSerial),
            (SensorPhase::Identifying, SensorEvent::Serial(ok)) => if ok {
                self.go(SensorPhase::CalShot, SensorAction::SingleShot)
            } else {
                self.go(SensorPhase::Halted, SensorAction::Halt)
            },
            (SensorPhase::CalShot, SensorEvent::Started(ok)) => if ok {
                self.go(SensorPhase::CalWait, SensorAction::Sleep(READY_POLL_MS))
            } else {
                self.finish_calibration()
            },
            (SensorPhase::CalWait, SensorEvent::Woke) => self.go(SensorPhase::CalReady, SensorAction::PollReady),
            (SensorPhase::CalReady, SensorEvent::Polled(p)) => match p {
                ReadyPoll::Ready => self.go(SensorPhase::CalRead, SensorAction::ReadScd),
                ReadyPoll::NotReady => self.go(SensorPhase::CalWait, SensorAction::Sleep(READY_POLL_MS)),
                ReadyPoll::Failed => self.finish_calibration(),
            },
            (SensorPhase::CalRead, SensorEvent::Measured(m)) => match m {
                Some(scd) => if self.has_baro {
                    self.go(SensorPhase::CalBaro { scd, tries: 0 }, SensorAction::PollBarometer)
                } else {
                    self.finish_calibration()
                },
                None => self.finish_calibration(),
            },
            (SensorPhase::CalBaro { scd, tries }, SensorEvent::Baro(p)) => match p {
                BaroPoll::Ready { reading, .. } => self.go(
                    SensorPhase::CalAdjust,
                    SensorAction::AdjustOffset { scd, baro: reading },
                ),
                _ => self.go(
                    SensorPhase::CalPause { scd, tries: tries + 1 },
                    SensorAction::Sleep(CALIBRATION_PAUSE_MS),
                ),
            },
            (SensorPhase::CalPause { scd, tries }, SensorEvent::Woke) => if tries < CALIBRATION_TRIES {
                self.go(SensorPhase::CalBaro { scd, tries }, SensorAction::PollBarometer)
            } else {
                self.finish_calibration()
            },
            (SensorPhase::CalAdjust, SensorEvent::Done) => self.finish_calibration(),
            (SensorPhase::Beating, SensorEvent::Done) => if self.has_baro {
                self.go(SensorPhase::Polling, SensorAction::PollBarometer)
            } else {
                self.compensate()
            },
            (SensorPhase::Polling, SensorEvent::Baro(p)) => {
                match p {
                    BaroPoll::Ready { reading, hpa } => {
                        self.hpa = Some(hpa);
                        self.baro = Some(reading);
                    },
                    BaroPoll::NotReady => {},
                    BaroPoll::Failed => {
                        self.baro_failed = true;
                    },
                }
                self.compensate()
            },
            (SensorPhase::Pressing, SensorEvent::Done) => self.go(SensorPhase::Shooting, SensorAction::SingleShot),
            (SensorPhase::Shooting, SensorEvent::Started(ok)) => if ok {
                self.go(SensorPhase::Waiting, SensorAction::Sleep(READY_POLL_MS))
            } else {
                self.report(None)
            },
            (SensorPhase::Waiting, SensorEvent::Woke) => self.go(SensorPhase::Readying, SensorAction::PollReady),
            (SensorPhase::Readying, SensorEvent::Polled(p)) => match p {
                ReadyPoll::NotReady => self.go(SensorPhase::Waiting, SensorAction::Sleep(READY_POLL_MS)),
                _ => self.go(SensorPhase::Reading, SensorAction::ReadScd),
            },
            (SensorPhase::Reading, SensorEvent::Measured(m)) => self.report(m),
            (SensorPhase::Reporting, SensorEvent::Clock { synced, now }) => if synced {
                let row = SensorData { baro: self.baro, scd: self.scd, time: now };
                self.go(SensorPhase::Storing, SensorAction::Store(row))
            } else {
                self.go(SensorPhase::Resting, SensorAction::Sleep(REST_MS))
            },
            (SensorPhase::Storing, SensorEvent::Done) => self.go(SensorPhase::Resting, SensorAction::Sleep(REST_MS)),
            _ => self.start_cycle(),
        }
    }
}

/// Rows are stored only once the clock was set, and with the time it gives.
pub proof fn rows_have_trusted_time(s: SensorLoop, event: SensorEvent, t: SensorLoop, row: SensorData)
    requires
        s.next(event) == Some((t, SensorAction::Store(row))),
    ensures
        event == (SensorEvent::Clock { synced: true, now: row.time }),
        row.baro == s.baro,
        row.scd == s.scd,
{
}

/// The CO2 display and the report of a missing sensor do not depend on the
/// clock: they come in every cycle, before it is read.
pub proof fn report_precedes_clock(s: SensorLoop, event: SensorEvent, t: SensorLoop, a: SensorAction)
    requires
        s.next(event) == Some((t, a)),
        t.phase is Reporting,
    ensures
        a matches SensorAction::Report { co2, no_periph } && (co2 is Some <==> t.scd is Some) && no_periph == (
        !t.has_baro || t.baro_failed || t.scd is None),
{
}

/// A failure of the barometer in a cycle is reported in that cycle, also when
/// the CO2 sensor works: nothing in between takes it back.
pub proof fn barometer_failure_is_kept(s: SensorLoop, event: SensorEvent, t: SensorLoop, a: SensorAction)
    requires
        s.next(event) == Some((t, a)),
        s.baro_failed,
        !(t.phase is Beating),
    ensures
        t.baro_failed,
        a matches SensorAction::Report { no_periph, .. } ==> no_periph,
{
}

/// No error of a sensor ends the loop once it runs: only a CO2 sensor that does
/// not identify itself at the start does.
pub proof fn only_missing_sensor_halts(s: SensorLoop, event: SensorEvent, t: SensorLoop, a: SensorAction)
    requires
        s.next(event) == Some((t, a)),
        a is Halt || t.phase is Halted,
    ensures
        s.phase is Identifying,
        event == SensorEvent::Serial(false),
{
}

/// What the loop of the CO2 sensor alone waits for.
#[derive(Clone, Copy, PartialEq, Eq, Structural, Debug)]
pub enum ScdPhase {
    Stopping,
    Settling,
    Identifying,
    Starting,
    ClockWait,
    Resting,
    Readying,
    Reading,
    Timing { scd: ScdReading },
    Storing,
    Halted,
}

/// The loop of a station that has the CO2 sensor alone.
#[derive(Clone, Copy, PartialEq, Eq, Structural, Debug)]
pub struct ScdLoop {
    pub phase: ScdPhase,
}

impl ScdLoop {
    /// The wait for the next measurement.
    pub open spec fn rest() -> (ScdPhase, SensorAction) {
        (ScdPhase::Resting, SensorAction::Sleep(LOW_POWER_PERIOD_MS))
    }

    /// The phase and the action after an outcome; `None`: it is not an outcome
    /// of the action before.
    pub open spec fn next(self, event: SensorEvent) -> Option<(ScdPhase, SensorAction)> {
        match (self.phase, event) {
            (ScdPhase::Stopping, SensorEvent::Done) => Some((ScdPhase::Settling, SensorAction::Sleep(SETTLE_MS))),
            (ScdPhase::Settling, SensorEvent::Woke) => Some((ScdPhase::Identifying, SensorAction::ReadSerial)),
            (ScdPhase::Identifying, SensorEvent::Serial(ok)) => Some(
                if ok {
                    (ScdPhase::Starting, SensorAction::StartLowPower)
                } else {
                    (ScdPhase::Halted, SensorAction::Halt)
                },
            ),
            (ScdPhase::Starting, SensorEvent::Started(ok)) => Some(
                if ok {
                    (ScdPhase::ClockWait, SensorAction::AwaitClock)
                } else {
                    (ScdPhase::Halted, SensorAction::Halt)
                },
            ),
            (ScdPhase::ClockWait, SensorEvent::Done) => Some(Self::rest()),
            (ScdPhase::Resting, SensorEvent::Woke) => Some((ScdPhase::Readying, SensorAction::PollReady)),
            (ScdPhase::Readying, SensorEvent::Polled(p)) => Some(
                if p is Ready {
                    (ScdPhase::Reading, SensorAction::ReadScd)
                } else {
                    Self::rest()
                },
            ),
            (ScdPhase::Reading, SensorEvent::Measured(m)) => Some(
                match m {
                    Some(scd) => (ScdPhase::Timing { scd }, SensorAction::ReadClock),
                    None => Self::rest(),
                },
            ),
            (ScdPhase::Timing { scd }, SensorEvent::Clock { now, .. }) => Some(
                (
                    ScdPhase::Storing,
                    SensorAction::Store(SensorData { baro: None, scd: Some(scd), time: now }),
                ),
            ),
            (ScdPhase::Storing, SensorEvent::Done) => Some(Self::rest()),
            _ => None,
        }
    }

    /// At the very start. The first action is to stop the sensor, which may have
    /// been measuring.
    pub fn new() -> (s: ScdLoop)
        ensures
            s.phase == ScdPhase::Stopping,
    {
        ScdLoop { phase: ScdPhase::Stopping }
    }

    /// Takes the outcome of the action before and gives the next.
    pub fn step(&mut self, event: SensorEvent) -> (a: SensorAction)
        requires
            old(self).next(event) is Some,
        ensures
            old(self).next(event) == Some((final(self).phase, a)),
    {
        let (phase, action) = match (self.phase, event) {
            (ScdPhase::Stopping, SensorEvent::Done) => (ScdPhase::Settling, SensorAction::Sleep(SETTLE_MS)),
            (ScdPhase::Settling, SensorEvent::Woke) => (ScdPhase::Identifying, SensorAction::ReadSerial),
            (ScdPhase::Identifying, SensorEvent::Serial(true)) => (ScdPhase::Starting, SensorAction::StartLowPower),
            (ScdPhase::Identifying, SensorEvent::Serial(false)) => (ScdPhase::Halted, SensorAction::Halt),
            (ScdPhase::Starting, SensorEvent::Started(true)) => (ScdPhase::ClockWait, SensorAction::AwaitClock),
            (ScdPhase::Starting, SensorEvent::Started(false)) => (ScdPhase::Halted, SensorAction::Halt),
            (ScdPhase::Resting, SensorEvent::Woke) => (ScdPhase::Readying, SensorAction::PollReady),
            (ScdPhase::Readying, SensorEvent::Polled(ReadyPoll::Ready)) => (ScdPhase::Reading, SensorAction::ReadScd),
            (ScdPhase::Reading, SensorEvent::Measured(Some(scd))) => (
                ScdPhase::Timing { scd },
                SensorAction::ReadClock,
            ),
            (ScdPhase::Timing { scd }, SensorEvent::Clock { now, .. }) => (
                ScdPhase::Storing,
                SensorAction::Store(SensorData { baro: None, scd: Some(scd), time: now }),
            ),
            _ => (ScdPhase::Resting, SensorAction::Sleep(LOW_POWER_PERIOD_MS)),
        };
        self.phase = phase;
        action
    }
}

/// A row of the CO2 sensor alone is the measurement just read, at the time just
/// read.
pub proof fn scd_rows_are_fresh(s: ScdLoop, event: SensorEvent, phase: ScdPhase, row: SensorData)
    requires
        s.next(event) == Some((phase, SensorAction::Store(row))),
    ensures
        s.phase matches ScdPhase::Timing { scd } && row.scd == Some(scd),
        row.baro is None,
        event matches SensorEvent::Clock { now, .. } && row.time == now,
{
}

/// The state and the actions after outcomes `es`; `None`: one of them is not an
/// outcome of the action before.
pub open spec fn play(s: SensorLoop, es: Seq<SensorEvent>) -> Option<(SensorLoop, Seq<SensorAction>)>
    decreases es.len(),
{
    if es.len() == 0 {
        Some((s, Seq::empty()))
    } else {
        match play(s, es.drop_last()) {
            None => None,
            Some((t, acts)) => match t.next(es.last()) {
                None => None,
                Some((u, a)) => Some((u, acts.push(a))),
            },
        }
    }
}

proof fn lemma_play_push(s: SensorLoop, es: Seq<SensorEvent>, e: SensorEvent)
    ensures
        play(s, es.push(e)) == match play(s, es) {
            None => None,
            Some((t, acts)) => match t.next(e) {
                None => None::<(SensorLoop, Seq<SensorAction>)>,
                Some((u, a)) => Some((u, acts.push(a))),
            },
        },
{
    assert(es.push(e).drop_last() =~= es);
}

/// What the barometer gave among outcomes `es`, if it gave anything.
pub open spec fn baro_given(es: Seq<SensorEvent>) -> Option<BaroReading>
    decreases es.len(),
{
    if es.len() == 0 {
        None
    } else {
        match es.last() {
            SensorEvent::Baro(BaroPoll::Ready { reading, .. }) => Some(reading),
            _ => baro_given(es.drop_last()),
        }
    }
}

/// What the CO2 sensor gave among outcomes `es`, if it gave anything.
pub open spec fn scd_given(es: Seq<SensorEvent>) -> Option<ScdReading>
    decreases es.len(),
{
    if es.len() == 0 {
        None
    } else {
        match es.last() {
            SensorEvent::Measured(Some(m)) => Some(m),
            _ => scd_given(es.drop_last()),
        }
    }
}

/// Is there an error of the barometer among outcomes `es`.
pub open spec fn baro_error(es: Seq<SensorEvent>) -> bool
    decreases es.len(),
{
    es.len() > 0 && (es.last() == SensorEvent::Baro(BaroPoll::Failed) || baro_error(es.drop_last()))
}

spec fn cycle_so_far(s: SensorLoop, es: Seq<SensorEvent>) -> bool {
    match s.phase {
        SensorPhase::Beating | SensorPhase::Polling => {
            &&& s.baro is None && s.scd is None && !s.baro_failed
            &&& baro_given(es) is None && scd_given(es) is None && !baro_error(es)
        },
        SensorPhase::Pressing | SensorPhase::Shooting | SensorPhase::Waiting | SensorPhase::Readying
        | SensorPhase::Reading => {
            &&& s.baro == baro_given(es) && s.baro_failed == baro_error(es)
            &&& s.scd is None && scd_given(es) is None
        },
        SensorPhase::Reporting | SensorPhase::Storing | SensorPhase::Resting => {
            &&& s.baro == baro_given(es) && s.baro_failed == baro_error(es)
            &&& s.scd == scd_given(es)
        },
        _ => false,
    }
}

/// Does no sign of life stand among the actions: are they all of one cycle.
pub open spec fn one_cycle(acts: Seq<SensorAction>) -> bool {
    forall|k: int| 0 <= k < acts.len() ==> !(#[trigger] acts[k] is Beat)
}

proof fn lemma_cycle(before: SensorLoop, woke: SensorEvent, s: SensorLoop, es: Seq<SensorEvent>)
    requires
        before.next(woke) == Some((s, SensorAction::Beat)),
        play(s, es) matches Some((t, acts)) && one_cycle(acts),
    ensures
        cycle_so_far((play(s, es)->0).0, es),
        (play(s, es)->0).0.has_baro == before.has_baro,
    decreases es.len(),
{
    if es.len() > 0 {
        let e = es.last();
        let part = es.drop_last();
        let (t, acts) = play(s, part)->0;
        let (u, a) = t.next(e)->0;
        let all = (play(s, es)->0).1;
        assert(all == acts.push(a));
        assert(one_cycle(acts)) by {
            assert forall|k: int| 0 <= k < acts.len() implies !(#[trigger] acts[k] is Beat) by {
                assert(all[k] == acts[k]);
            }
        }
        assert(!(a is Beat)) by {
            assert(all[all.len() - 1] == a);
        }
        lemma_cycle(before, woke, s, part);
    }
}

/// A stored row holds what was measured in its own cycle and nothing else: from
/// the sign of life that starts a cycle to the row, it has the barometer's
/// reading exactly if the barometer gave one in between, the CO2 sensor's exactly
/// if that gave one, and the time at which it was stored.
pub proof fn rows_hold_their_own_cycle(
    before: SensorLoop,
    woke: SensorEvent,
    s: SensorLoop,
    es: Seq<SensorEvent>,
    row: SensorData,
)
    requires
        before.next(woke) == Some((s, SensorAction::Beat)),
        es.len() > 0,
        play(s, es) matches Some((t, acts)) && one_cycle(acts) && acts.last() == SensorAction::Store(row),
    ensures
        row.baro == baro_given(es),
        row.scd == scd_given(es),
        es.last() == (SensorEvent::Clock { synced: true, now: row.time }),
{
    lemma_cycle(before, woke, s, es);
}

/// The report of a cycle tells the CO2 value that was measured in it, and a
/// missing sensor exactly if there is no barometer, or it failed in this cycle,
/// or the CO2 sensor gave nothing in it.
pub proof fn reports_tell_their_own_cycle(
    before: SensorLoop,
    woke: SensorEvent,
    s: SensorLoop,
    es: Seq<SensorEvent>,
    co2: Option<u16>,
    no_periph: bool,
)
    requires
        before.next(woke) == Some((s, SensorAction::Beat)),
        es.len() > 0,
        play(s, es) matches Some((t, acts)) && one_cycle(acts) && acts.last() == (SensorAction::Report {
            co2,
            no_periph,
        }),
    ensures
        co2 == match scd_given(es) {
            Some(m) => Some(m.co2),
            None => None,
        },
        no_periph <==> !before.has_baro || baro_error(es) || scd_given(es) is None,
{
    lemma_cycle(before, woke, s, es);
}

/// A cycle starts with nothing measured and nothing failed; what is known of the
/// barometer and of the last pressure stays.
pub proof fn cycles_start_anew(s: SensorLoop, event: SensorEvent, t: SensorLoop)
    requires
        s.next(event) == Some((t, SensorAction::Beat)),
    ensures
        t.baro is None,
        t.scd is None,
        !t.baro_failed,
        t.hpa == s.hpa,
        t.has_baro == s.has_baro,
{
}

/// The CO2 sensor is told the last pressure that the barometer gave while
/// measuring: a new one at once, and an old one as long as there is no newer.
/// Nothing else changes it, and without any none is told.
pub proof fn last_pressure_is_told(s: SensorLoop, event: SensorEvent, t: SensorLoop, a: SensorAction)
    requires
        s.next(event) == Some((t, a)),
    ensures
        t.hpa == (if s.phase is Polling {
            match event {
                SensorEvent::Baro(BaroPoll::Ready { hpa, .. }) => Some(hpa),
                _ => s.hpa,
            }
        } else {
            s.hpa
        }),
        a matches SensorAction::SetPressure(p) ==> t.hpa == Some(p),
        s.phase is Polling || (s.phase is Beating && !s.has_baro) ==> (a is SetPressure <==> t.hpa is Some),
        t.has_baro == (match event {
            SensorEvent::Barometer(found) => found,
            _ => s.has_baro,
        }),
{
}

/// The course of a whole cycle with a barometer: sign of life, barometer,
/// pressure, one shot, a second's wait, question, reading, report, row, rest of
/// 25 seconds; and the next cycle follows. Without pressure, or without a clock,
/// the step in question is left out.
pub proof fn a_cycle_takes_its_course(
    s: SensorLoop,
    p: BaroPoll,
    m: Option<ScdReading>,
    synced: bool,
    now: EpochMillis,
)
    requires
        s.phase is Resting,
        s.has_baro,
    ensures
        ({
            let hpa = match p {
                BaroPoll::Ready { hpa, .. } => Some(hpa),
                _ => s.hpa,
            };
            let baro = match p {
                BaroPoll::Ready { reading, .. } => Some(reading),
                _ => None,
            };
            let co2 = match m {
                Some(x) => Some(x.co2),
                None => None,
            };
            let head = seq![SensorEvent::Woke, SensorEvent::Done, SensorEvent::Baro(p)];
            let rest = seq![
                SensorEvent::Started(true),
                SensorEvent::Woke,
                SensorEvent::Polled(ReadyPoll::Ready),
                SensorEvent::Measured(m),
                SensorEvent::Clock { synced, now },
            ];
            let es = if hpa is Some {
                head.push(SensorEvent::Done) + rest
            } else {
                head + rest
            };
            let begin = seq![SensorAction::Beat, SensorAction::PollBarometer];
            let measure = seq![
                SensorAction::SingleShot,
                SensorAction::Sleep(1000),
                SensorAction::PollReady,
                SensorAction::ReadScd,
                SensorAction::Report { co2, no_periph: p is Failed || m is None },
                if synced {
                    SensorAction::Store(SensorData { baro, scd: m, time: now })
                } else {
                    SensorAction::Sleep(25_000)
                },
            ];
            &&& play(s, es) matches Some((t, acts))
            &&& acts == (if hpa is Some {
                begin.push(SensorAction::SetPressure(hpa->0)) + measure
            } else {
                begin + measure
            })
            &&& synced ==> (t.next(SensorEvent::Done) matches Some((u, b)) && b == SensorAction::Sleep(25_000)
                && u.phase is Resting)
            &&& !synced ==> t.phase is Resting
        }),
{
    let hpa = match p {
        BaroPoll::Ready { hpa, .. } => Some(hpa),
        _ => s.hpa,
    };
    let e0 = Seq::<SensorEvent>::empty();
    lemma_play_push(s, e0, SensorEvent::Woke);
    let e1 = e0.push(SensorEvent::Woke);
    lemma_play_push(s, e1, SensorEvent::Done);
    let e2 = e1.push(SensorEvent::Done);
    lemma_play_push(s, e2, SensorEvent::Baro(p));
    let e3 = e2.push(SensorEvent::Baro(p));
    lemma_play_push(s, e3, SensorEvent::Done);
    let e4 = if hpa is Some {
        e3.push(SensorEvent::Done)
    } else {
        e3
    };
    let v5 = SensorEvent::Started(true);
    let v7 = SensorEvent::Polled(ReadyPoll::Ready);
    let v8 = SensorEvent::Measured(m);
    let v9 = SensorEvent::Clock { synced, now };
    lemma_play_push(s, e4, v5);
    lemma_play_push(s, e4.push(v5), SensorEvent::Woke);
    lemma_play_push(s, e4.push(v5).push(SensorEvent::Woke), v7);
    lemma_play_push(s, e4.push(v5).push(SensorEvent::Woke).push(v7), v8);
    lemma_play_push(s, e4.push(v5).push(SensorEvent::Woke).push(v7).push(v8), v9);
    let head = seq![SensorEvent::Woke, SensorEvent::Done, SensorEvent::Baro(p)];
    let rest = seq![v5, SensorEvent::Woke, v7, v8, v9];
    let all = e4.push(v5).push(SensorEvent::Woke).push(v7).push(v8).push(v9);
    if hpa is Some {
        assert(head.push(SensorEvent::Done) + rest =~= all);
    } else {
        assert(head + rest =~= all);
    }
}

/// A measurement that is not ready is asked for again after a second, as often
/// as it takes; an order that is refused, or a question that fails, ends the wait:
/// while measuring the value is then missing or read all the same, during
/// calibration the calibration is given up.
pub proof fn waits_are_repeated(s: SensorLoop)
    ensures
        s.phase is Readying ==> s.next(SensorEvent::Polled(ReadyPoll::NotReady)) == Some(
            (SensorLoop { phase: SensorPhase::Waiting, ..s }, SensorAction::Sleep(1000)),
        ),
        s.phase is Readying ==> s.next(SensorEvent::Polled(ReadyPoll::Failed)) == Some(
            (SensorLoop { phase: SensorPhase::Reading, ..s }, SensorAction::ReadScd),
        ),
        s.phase is Waiting ==> s.next(SensorEvent::Woke) == Some(
            (SensorLoop { phase: SensorPhase::Readying, ..s }, SensorAction::PollReady),
        ),
        s.phase is Shooting ==> (s.next(SensorEvent::Started(false)) matches Some((t, a)) && a == (
        SensorAction::Report { co2: None, no_periph: true }) && t.scd is None),
        s.phase is CalReady ==> s.next(SensorEvent::Polled(ReadyPoll::NotReady)) == Some(
            (SensorLoop { phase: SensorPhase::CalWait, ..s }, SensorAction::Sleep(1000)),
        ),
        s.phase is CalWait ==> s.next(SensorEvent::Woke) == Some(
            (SensorLoop { phase: SensorPhase::CalReady, ..s }, SensorAction::PollReady),
        ),
        s.phase is CalReady ==> (s.next(SensorEvent::Polled(ReadyPoll::Failed)) matches Some((t, a)) && a
            is ReadSelfCalibration),
        s.phase is CalShot ==> (s.next(SensorEvent::Started(false)) matches Some((t, a)) && a is ReadSelfCalibration),
        s.phase is CalRead ==> (s.next(SensorEvent::Measured(None)) matches Some((t, a)) && a is ReadSelfCalibration),
        s.phase is CalRead && !s.has_baro ==> forall|m: ScdReading|
            (#[trigger] s.next(SensorEvent::Measured(Some(m))) matches Some((t, a)) && a is ReadSelfCalibration),
        s.phase is Beating && !s.has_baro && s.hpa is None ==> (s.next(SensorEvent::Done) matches Some((t, a)) && a
            is SingleShot),
        s.phase is Beating && s.has_baro ==> (s.next(SensorEvent::Done) matches Some((t, a)) && a is PollBarometer),
{
}

/// The start: barometer, halt of the CO2 sensor with half a second to settle,
/// serial number, calibration by one shot. A missing barometer is reported and
/// does not stop the station; a CO2 sensor without a serial number does.
pub proof fn the_start_takes_its_course(s: SensorLoop, found: bool, m: ScdReading)
    requires
        s.phase is Finding,
    ensures
        ({
            let es = seq![
                SensorEvent::Barometer(found),
                SensorEvent::Done,
                SensorEvent::Woke,
                SensorEvent::Serial(true),
                SensorEvent::Started(true),
                SensorEvent::Woke,
                SensorEvent::Polled(ReadyPoll::Ready),
                SensorEvent::Measured(Some(m)),
            ];
            &&& play(s, es) matches Some((t, acts))
            &&& acts == seq![
                SensorAction::StopPeriodic { no_periph: !found },
                SensorAction::Sleep(500),
                SensorAction::ReadSerial,
                SensorAction::SingleShot,
                SensorAction::Sleep(1000),
                SensorAction::PollReady,
                SensorAction::ReadScd,
                if found {
                    SensorAction::PollBarometer
                } else {
                    SensorAction::ReadSelfCalibration
                },
            ]
            &&& t.has_baro == found
            &&& found ==> t.phase == (SensorPhase::CalBaro { scd: m, tries: 0 })
        }),
        forall|t: SensorLoop|
            t.phase is Identifying ==> (#[trigger] t.next(SensorEvent::Serial(false)) matches Some((u, a)) && a is Halt),
        forall|t: SensorLoop|
            t.phase is SelfCalibration ==> (#[trigger] t.next(SensorEvent::Done) matches Some((u, a)) && a is Beat),
{
    let e0 = Seq::<SensorEvent>::empty();
    let v = seq![
        SensorEvent::Barometer(found),
        SensorEvent::Done,
        SensorEvent::Woke,
        SensorEvent::Serial(true),
        SensorEvent::Started(true),
        SensorEvent::Woke,
        SensorEvent::Polled(ReadyPoll::Ready),
        SensorEvent::Measured(Some(m)),
    ];
    lemma_play_push(s, e0, v[0]);
    lemma_play_push(s, e0.push(v[0]), v[1]);
    lemma_play_push(s, e0.push(v[0]).push(v[1]), v[2]);
    lemma_play_push(s, e0.push(v[0]).push(v[1]).push(v[2]), v[3]);
    lemma_play_push(s, e0.push(v[0]).push(v[1]).push(v[2]).push(v[3]), v[4]);
    lemma_play_push(s, e0.push(v[0]).push(v[1]).push(v[2]).push(v[3]).push(v[4]), v[5]);
    lemma_play_push(s, e0.push(v[0]).push(v[1]).push(v[2]).push(v[3]).push(v[4]).push(v[5]), v[6]);
    lemma_play_push(s, e0.push(v[0]).push(v[1]).push(v[2]).push(v[3]).push(v[4]).push(v[5]).push(v[6]), v[7]);
    assert(v =~= e0.push(v[0]).push(v[1]).push(v[2]).push(v[3]).push(v[4]).push(v[5]).push(v[6]).push(v[7]));
}

/// Calibration corrects the offset by the measurement of the CO2 sensor and the
/// first reading that the barometer gives. It asks the barometer every two
/// seconds, ten times in all, and after that leaves the offset as it is; whether
/// the barometer was not ready or failed makes no difference.
pub proof fn calibration_asks_ten_times(s: SensorLoop, scd: ScdReading, tries: u32, reading: BaroReading, hpa: u16)
    requires
        s.phase == (SensorPhase::CalBaro { scd, tries }),
        tries < 10,
    ensures
        s.next(SensorEvent::Baro(BaroPoll::Ready { reading, hpa })) matches Some((t, a)) && a == (
        SensorAction::AdjustOffset { scd, baro: reading }) && t.hpa == s.hpa && (t.next(SensorEvent::Done) matches Some(
            (u, b),
        ) && b is ReadSelfCalibration),
        s.next(SensorEvent::Baro(BaroPoll::NotReady)) == s.next(SensorEvent::Baro(BaroPoll::Failed)),
        s.next(SensorEvent::Baro(BaroPoll::NotReady)) matches Some((t, a)) && a == SensorAction::Sleep(2000) && (t.next(
            SensorEvent::Woke,
        ) matches Some((u, b)) && (if tries == 9 {
            b is ReadSelfCalibration
        } else {
            b is PollBarometer && u.phase == (SensorPhase::CalBaro { scd, tries: (tries + 1) as u32 })
        })),
{
}

/// The station with the CO2 sensor alone: halt of the sensor, half a second to
/// settle, serial number, order to measure, wait for the clock, and a first rest
/// of half a minute. Without a serial number, or where the order is refused, it
/// stops.
pub proof fn the_sensor_alone_starts(s: ScdLoop, ok: bool)
    ensures
        s.phase is Stopping ==> s.next(SensorEvent::Done) == Some((ScdPhase::Settling, SensorAction::Sleep(500))),
        s.phase is Settling ==> s.next(SensorEvent::Woke) == Some((ScdPhase::Identifying, SensorAction::ReadSerial)),
        s.phase is Identifying ==> (s.next(SensorEvent::Serial(ok)) matches Some((p, a)) && (a is StartLowPower <==> ok)
            && (a is Halt <==> !ok) && (ok ==> p is Starting)),
        s.phase is Starting ==> (s.next(SensorEvent::Started(ok)) matches Some((p, a)) && (a is AwaitClock <==> ok)
            && (a is Halt <==> !ok) && (ok ==> p is ClockWait)),
        s.phase is ClockWait ==> s.next(SensorEvent::Done) == Some((ScdPhase::Resting, SensorAction::Sleep(30_000))),
{
}

/// Every half minute the sensor alone is asked, read where it is ready, and what
/// it gave is stored; whatever goes wrong, the next half minute follows.
pub proof fn the_sensor_alone_measures(s: ScdLoop, m: ScdReading, synced: bool, now: EpochMillis)
    ensures
        s.phase is Resting ==> s.next(SensorEvent::Woke) == Some((ScdPhase::Readying, SensorAction::PollReady)),
        s.phase is Readying ==> s.next(SensorEvent::Polled(ReadyPoll::Ready)) == Some(
            (ScdPhase::Reading, SensorAction::ReadScd),
        ),
        s.phase is Readying ==> forall|p: ReadyPoll|
            p != ReadyPoll::Ready ==> #[trigger] s.next(SensorEvent::Polled(p)) == Some(
                (ScdPhase::Resting, SensorAction::Sleep(30_000)),
            ),
        s.phase is Reading ==> s.next(SensorEvent::Measured(None)) == Some(
            (ScdPhase::Resting, SensorAction::Sleep(30_000)),
        ),
        s.phase is Reading ==> (s.next(SensorEvent::Measured(Some(m))) matches Some((p, a)) && a is ReadClock && (
        ScdLoop { phase: p }).next(SensorEvent::Clock { synced, now }) == Some(
            (ScdPhase::Storing, SensorAction::Store(SensorData { baro: None, scd: Some(m), time: now })),
        )),
        s.phase is Storing ==> s.next(SensorEvent::Done) == Some((ScdPhase::Resting, SensorAction::Sleep(30_000))),
{
}

} // verus!
