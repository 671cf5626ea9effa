use meteo_core::clock::{now_epoch, ClockAction, NtpClock, DEFAULT_OFFSET_US, NTP_RESYNC_INTERVAL, NTP_RETRY_DELAY};
use meteo_core::float_bits::F32Bits;
use meteo_core::led_color::{co2_to_rgb, Rgb};
use meteo_core::led_status::{
    blink_color, blinks, changed_bits, clear_status, fading_channels, latest_co2, mask, name, set_status, Led, LedAction, BLINK_LEVEL,
    BLINK_ONLY_GAP_MS, NO_CO2, OVERLAY_INTERVAL_MS, STATUS_BITS, SYS_NO_PERIPH, SYS_NO_TCP, SYS_NO_WIFI,
};
use meteo_core::sensor_cycle::{
    baro_poll, BaroPoll, ReadyPoll, ScdLoop, SensorAction, SensorEvent, SensorLoop, CALIBRATION_TRIES, REST_MS,
};
use meteo_core::time::Duration;
use meteo_core::wire::{BaroReading, EpochMillis, ScdReading, SensorData};

fn baro() -> BaroReading {
    BaroReading {
        pressure: F32Bits(101_325.0f32.to_bits()),
        temp: F32Bits(21.5f32.to_bits()),
    }
}

fn scd(co2: u16) -> ScdReading {
    ScdReading {
        co2,
        humidity: F32Bits(45.0f32.to_bits()),
        temp: F32Bits(22.0f32.to_bits()),
    }
}

#[test]
fn clock_adds_its_offset() {
    assert_eq!(now_epoch(1000, 5_999), EpochMillis(1005));
    assert_eq!(now_epoch(1000, -5_999), EpochMillis(995));
    assert_eq!(now_epoch(0, -1000), EpochMillis(u64::MAX));
    assert_eq!(now_epoch(0, DEFAULT_OFFSET_US), EpochMillis(1_757_986_271_840));
    assert_eq!(now_epoch(7, i64::MIN), EpochMillis(7u64.wrapping_sub(9_223_372_036_854_775)));
}

#[test]
fn clock_requests_until_it_is_set() {
    let mut clock = NtpClock::new();
    let retry = ClockAction { announce: false, sleep: NTP_RETRY_DELAY };
    assert_eq!(clock.on_reply(None), retry);
    assert_eq!(clock.offset_us, DEFAULT_OFFSET_US);
    assert_eq!(
        clock.on_reply(Some(42)),
        ClockAction { announce: true, sleep: NTP_RESYNC_INTERVAL }
    );
    assert_eq!(
        clock.on_reply(None),
        ClockAction { announce: false, sleep: NTP_RESYNC_INTERVAL }
    );
    assert_eq!((clock.offset_us, clock.synced), (42, true));
    clock.on_reply(Some(43));
    assert_eq!(clock.offset_us, 43);
}

#[test]
fn durations() {
    assert_eq!(Duration::from_secs(2).as_millis(), 2000);
    assert_eq!(Duration::from_millis(1999).as_secs(), 1);
    assert_eq!(Duration::from_secs(1).saturating_sub(Duration::from_secs(2)), Duration::zero());
    assert_eq!(Duration { nanos: u128::MAX }.plus_secs(1).nanos, u128::MAX);
}

#[test]
fn status_changes_are_reported_once() {
    assert_eq!(set_status(0, SYS_NO_TCP), (SYS_NO_TCP, SYS_NO_TCP));
    assert_eq!(set_status(SYS_NO_TCP, SYS_NO_TCP), (SYS_NO_TCP, 0));
    assert_eq!(clear_status(SYS_NO_TCP | SYS_NO_WIFI, SYS_NO_TCP), (SYS_NO_WIFI, SYS_NO_TCP));
    assert_eq!(clear_status(SYS_NO_WIFI, SYS_NO_TCP), (SYS_NO_WIFI, 0));
    assert_eq!(latest_co2(NO_CO2), None);
    assert_eq!(latest_co2(400), Some(400));
}

#[test]
fn codes_and_colours() {
    let names: Vec<&str> = (0..STATUS_BITS).map(name).collect();
    assert_eq!(
        names,
        ["BUF_OVERFLOW", "NO_TCP", "NO_PERIPH", "NO_WIFI", "PANIC_RECOVERED", "WDT_RECOVERED"]
    );
    for k in 0..STATUS_BITS {
        assert_eq!(mask(k).trailing_zeros() + 1, blinks(k));
        assert_eq!(mask(k).count_ones(), 1);
    }
    assert_eq!(blink_color(0, None), Rgb::new(40, 20, 0));
    assert_eq!(blink_color(1, None), Rgb::new(0, 0, BLINK_LEVEL));
    assert_eq!(blink_color(1, Some(400)), co2_to_rgb(400));
    assert_eq!(blink_color(5, Some(400)), Rgb::new(0, 40, 40));
}

/// Actions until the `n`-th, under a constant status and value.
fn play(led: &mut Led, n: usize, status: u8, co2: Option<u16>) -> Vec<LedAction> {
    (0..n).map(|_| led.step(status, co2)).collect()
}

#[test]
fn indicator_starts_with_a_test_and_then_blinks() {
    let mut led = Led::new();
    let test = play(&mut led, 10, 0, None);
    assert_eq!(test[0], LedAction::Fade(Rgb::new(30, 0, 0), 400));
    assert_eq!(test[1], LedAction::Sleep(400));
    assert_eq!(test[8], LedAction::Fade(Rgb::off(), 400));
    // Nothing to show and nothing wrong.
    assert_eq!(
        play(&mut led, 2, 0, None),
        [LedAction::Fade(Rgb::off(), 200), LedAction::Sleep(2000)]
    );
    // No value, server missing: two blue blinks and a gap.
    let blue = Rgb::new(0, 0, 40);
    let codes = play(&mut led, 11, SYS_NO_TCP, None);
    let blink = [
        LedAction::Show(blue),
        LedAction::Sleep(180),
        LedAction::Show(Rgb::off()),
        LedAction::Sleep(220),
    ];
    assert_eq!(codes[0], LedAction::Fade(Rgb::off(), 200));
    assert_eq!(codes[1..5], blink);
    assert_eq!(codes[5..9], blink);
    assert_eq!(codes[9..], [LedAction::Sleep(700), LedAction::Sleep(BLINK_ONLY_GAP_MS)]);
}

#[test]
fn indicator_breathes_and_overlays_codes() {
    let mut led = Led::new();
    play(&mut led, 10, 0, None);
    // Steady below 1000 ppm.
    assert_eq!(
        play(&mut led, 2, 0, Some(500)),
        [LedAction::Fade(co2_to_rgb(500), 500), LedAction::Sleep(2000)]
    );
    // Breathing above.
    let bright = co2_to_rgb(1200);
    assert_eq!(
        play(&mut led, 4, 0, Some(1200)),
        [
            LedAction::Fade(bright, 2000),
            LedAction::Sleep(2000),
            LedAction::Fade(bright.scaled(65), 2000),
            LedAction::Sleep(2000),
        ]
    );
    // With an error the overlay comes once the interval has passed, not before.
    let mut shown = 2000 + 4000;
    loop {
        let action = led.step(SYS_NO_WIFI, Some(500));
        if action == LedAction::Fade(Rgb::off(), 200) {
            break;
        }
        if action == LedAction::Sleep(2000) {
            shown += 2000;
        }
    }
    assert_eq!(shown, OVERLAY_INTERVAL_MS);
    assert_eq!(led.step(SYS_NO_WIFI, Some(500)), LedAction::Sleep(300));
    assert_eq!(led.step(SYS_NO_WIFI, Some(500)), LedAction::Show(Rgb::new(40, 40, 0)));
    // A missing sensor makes the value stale.
    let mut led = Led::new();
    play(&mut led, 10, 0, None);
    assert_eq!(led.step(SYS_NO_PERIPH, Some(500)), LedAction::Fade(Rgb::off(), 200));
}

/// Runs a loop up to the first beat, with a barometer that answers at once.
fn started(with_baro: bool) -> SensorLoop {
    let mut s = SensorLoop::new();
    assert_eq!(
        s.step(SensorEvent::Barometer(with_baro)),
        SensorAction::StopPeriodic { no_periph: !with_baro }
    );
    assert_eq!(s.step(SensorEvent::Done), SensorAction::Sleep(500));
    assert_eq!(s.step(SensorEvent::Woke), SensorAction::ReadSerial);
    assert_eq!(s.step(SensorEvent::Serial(true)), SensorAction::SingleShot);
    assert_eq!(s.step(SensorEvent::Started(true)), SensorAction::Sleep(1000));
    assert_eq!(s.step(SensorEvent::Woke), SensorAction::PollReady);
    assert_eq!(s.step(SensorEvent::Polled(ReadyPoll::NotReady)), SensorAction::Sleep(1000));
    assert_eq!(s.step(SensorEvent::Woke), SensorAction::PollReady);
    assert_eq!(s.step(SensorEvent::Polled(ReadyPoll::Ready)), SensorAction::ReadScd);
    if with_baro {
        assert_eq!(s.step(SensorEvent::Measured(Some(scd(500)))), SensorAction::PollBarometer);
        assert_eq!(
            s.step(SensorEvent::Baro(BaroPoll::Ready { reading: baro(), hpa: 1013 })),
            SensorAction::AdjustOffset { scd: scd(500), baro: baro() }
        );
        assert_eq!(s.step(SensorEvent::Done), SensorAction::ReadSelfCalibration);
    } else {
        assert_eq!(s.step(SensorEvent::Measured(Some(scd(500)))), SensorAction::ReadSelfCalibration);
    }
    assert_eq!(s.step(SensorEvent::Done), SensorAction::Beat);
    s
}

#[test]
fn a_cycle_measures_reports_and_stores() {
    let mut s = started(true);
    assert_eq!(s.step(SensorEvent::Done), SensorAction::PollBarometer);
    assert_eq!(
        s.step(SensorEvent::Baro(BaroPoll::Ready { reading: baro(), hpa: 1013 })),
        SensorAction::SetPressure(1013)
    );
    assert_eq!(s.step(SensorEvent::Done), SensorAction::SingleShot);
    assert_eq!(s.step(SensorEvent::Started(true)), SensorAction::Sleep(1000));
    assert_eq!(s.step(SensorEvent::Woke), SensorAction::PollReady);
    assert_eq!(s.step(SensorEvent::Polled(ReadyPoll::Ready)), SensorAction::ReadScd);
    assert_eq!(
        s.step(SensorEvent::Measured(Some(scd(700)))),
        SensorAction::Report { co2: Some(700), no_periph: false }
    );
    let now = EpochMillis(123);
    assert_eq!(
        s.step(SensorEvent::Clock { synced: true, now }),
        SensorAction::Store(SensorData { baro: Some(baro()), scd: Some(scd(700)), time: now })
    );
    assert_eq!(s.step(SensorEvent::Done), SensorAction::Sleep(REST_MS));
    assert_eq!(s.step(SensorEvent::Woke), SensorAction::Beat);

    // The next cycle: the barometer fails, the CO2 sensor works. The failure is
    // reported, the old pressure still compensates, nothing is stored unsynced.
    assert_eq!(s.step(SensorEvent::Done), SensorAction::PollBarometer);
    assert_eq!(s.step(SensorEvent::Baro(BaroPoll::Failed)), SensorAction::SetPressure(1013));
    assert_eq!(s.step(SensorEvent::Done), SensorAction::SingleShot);
    assert_eq!(s.step(SensorEvent::Started(true)), SensorAction::Sleep(1000));
    assert_eq!(s.step(SensorEvent::Woke), SensorAction::PollReady);
    // An error while waiting still tries to read.
    assert_eq!(s.step(SensorEvent::Polled(ReadyPoll::Failed)), SensorAction::ReadScd);
    assert_eq!(
        s.step(SensorEvent::Measured(Some(scd(701)))),
        SensorAction::Report { co2: Some(701), no_periph: true }
    );
    assert_eq!(s.step(SensorEvent::Clock { synced: false, now }), SensorAction::Sleep(REST_MS));
}

#[test]
fn a_cycle_without_barometer_or_measurement() {
    let mut s = started(false);
    assert_eq!(s.step(SensorEvent::Done), SensorAction::SingleShot);
    assert_eq!(
        s.step(SensorEvent::Started(false)),
        SensorAction::Report { co2: None, no_periph: true }
    );
}

#[test]
fn calibration_gives_up_after_ten_tries() {
    let mut s = SensorLoop::new();
    for event in [
        SensorEvent::Barometer(true),
        SensorEvent::Done,
        SensorEvent::Woke,
        SensorEvent::Serial(true),
        SensorEvent::Started(true),
        SensorEvent::Woke,
        SensorEvent::Polled(ReadyPoll::Ready),
    ] {
        s.step(event);
    }
    let mut action = s.step(SensorEvent::Measured(Some(scd(500))));
    let mut polls = 0;
    while action == SensorAction::PollBarometer {
        polls += 1;
        assert_eq!(s.step(SensorEvent::Baro(BaroPoll::NotReady)), SensorAction::Sleep(2000));
        action = s.step(SensorEvent::Woke);
    }
    assert_eq!(polls, CALIBRATION_TRIES);
    assert_eq!(action, SensorAction::ReadSelfCalibration);
}

#[test]
fn a_missing_co2_sensor_halts() {
    let mut s = SensorLoop::new();
    for event in [SensorEvent::Barometer(true), SensorEvent::Done, SensorEvent::Woke] {
        s.step(event);
    }
    assert_eq!(s.step(SensorEvent::Serial(false)), SensorAction::Halt);
}

#[test]
fn the_sensor_on_its_own() {
    let mut s = ScdLoop::new();
    assert_eq!(s.step(SensorEvent::Done), SensorAction::Sleep(500));
    assert_eq!(s.step(SensorEvent::Woke), SensorAction::ReadSerial);
    assert_eq!(s.step(SensorEvent::Serial(true)), SensorAction::StartLowPower);
    assert_eq!(s.step(SensorEvent::Started(true)), SensorAction::AwaitClock);
    assert_eq!(s.step(SensorEvent::Done), SensorAction::Sleep(30_000));
    assert_eq!(s.step(SensorEvent::Woke), SensorAction::PollReady);
    assert_eq!(s.step(SensorEvent::Polled(ReadyPoll::NotReady)), SensorAction::Sleep(30_000));
    assert_eq!(s.step(SensorEvent::Woke), SensorAction::PollReady);
    assert_eq!(s.step(SensorEvent::Polled(ReadyPoll::Ready)), SensorAction::ReadScd);
    assert_eq!(s.step(SensorEvent::Measured(Some(scd(640)))), SensorAction::ReadClock);
    let now = EpochMillis(9);
    assert_eq!(
        s.step(SensorEvent::Clock { synced: true, now }),
        SensorAction::Store(SensorData { baro: None, scd: Some(scd(640)), time: now })
    );
    assert_eq!(s.step(SensorEvent::Done), SensorAction::Sleep(30_000));
}

#[test]
fn changed_bits_are_listed_lowest_first() {
    assert_eq!(changed_bits(0), Vec::<usize>::new());
    assert_eq!(changed_bits(SYS_NO_WIFI | SYS_NO_TCP), [1, 3]);
    assert_eq!(changed_bits(0xFF), [0, 1, 2, 3, 4, 5]);
    assert_eq!(changed_bits(0xC0), Vec::<usize>::new());
}

#[test]
fn only_changing_channels_fade() {
    assert_eq!(
        fading_channels(Rgb::new(1, 2, 3), Rgb::new(1, 5, 0)),
        (false, true, true)
    );
    assert_eq!(fading_channels(Rgb::off(), Rgb::off()), (false, false, false));
}

#[test]
fn a_barometer_that_is_not_ready_has_not_failed() {
    let data = Some((baro(), 1013));
    assert_eq!(baro_poll(Some(false), None), BaroPoll::NotReady);
    assert_eq!(baro_poll(Some(false), data), BaroPoll::NotReady);
    assert_eq!(baro_poll(None, None), BaroPoll::Failed);
    assert_eq!(baro_poll(Some(true), None), BaroPoll::Failed);
    assert_eq!(
        baro_poll(Some(true), data),
        BaroPoll::Ready { reading: baro(), hpa: 1013 }
    );
}
