use meteo_core::codec::{
    decode, CentiPascal, CodecError, Encoder, MilliCelsius, MilliPercentRh, Ppm, Reading, MIN_PLAIN, READING_MAX,
};
use meteo_core::datagram::PLAIN_CAPACITY;
use meteo_core::float_bits::F32Bits;
use meteo_core::wire::{BaroReading, EpochMillis, ScdReading, SensorData};
use proptest::collection;
use proptest::prelude::{any, Strategy};
use proptest::test_runner::{Config, TestRunner};

fn full(time: u64, i: i32, co2: u16) -> Reading {
    Reading {
        time: EpochMillis(time),
        pressure: Some(CentiPascal(i)),
        baro_temp: Some(MilliCelsius(i)),
        co2: Some(Ppm(co2)),
        humidity: Some(MilliPercentRh(i)),
        scd_temp: Some(MilliCelsius(i)),
    }
}

/// Encodes what fits into a buffer of `cap` bytes; gives the text and how many
/// readings it holds.
fn encode(readings: &[Reading], cap: usize) -> (Vec<u8>, usize) {
    let mut buf = vec![0u8; cap];
    let mut enc = Encoder::new(&mut buf, readings[0].time);
    let taken = readings.iter().take_while(|r| enc.push(r)).count();
    let len = enc.plain_len();
    buf.truncate(len);
    (buf, taken)
}

fn decode_all(plain: &[u8]) -> Result<Vec<Reading>, CodecError> {
    decode(plain)?.collect()
}

fn f32_bits(x: f32) -> F32Bits {
    F32Bits(x.to_bits())
}

#[test]
fn worst_reading_is_exactly_reading_max() {
    let a = full(u64::MAX, i32::MAX, 0);
    let b = full(u64::MAX / 2, i32::MIN, u16::MAX);
    let (one, _) = encode(&[a], PLAIN_CAPACITY);
    let (two, taken) = encode(&[a, b], PLAIN_CAPACITY);
    assert_eq!(taken, 2);
    assert_eq!(two.len() - one.len(), READING_MAX);
    assert_eq!(decode_all(&two), Ok(vec![a, b]));
}

#[test]
fn greedy_fill_stops_before_overflow() {
    let worst: Vec<Reading> = (0..200)
        .map(|i| {
            if i % 2 == 0 {
                full(u64::MAX, i32::MAX, 0)
            } else {
                full(u64::MAX / 2, i32::MIN, u16::MAX)
            }
        })
        .collect();
    let (plain, taken) = encode(&worst, PLAIN_CAPACITY);
    assert!(plain.len() <= PLAIN_CAPACITY);
    assert!(taken >= (PLAIN_CAPACITY - MIN_PLAIN) / READING_MAX);
    assert_eq!(decode_all(&plain), Ok(worst[..taken].to_vec()));

    let (plain, taken) = encode(&worst, MIN_PLAIN);
    assert_eq!(taken, 1);
    assert_eq!(decode_all(&plain), Ok(worst[..1].to_vec()));
}

#[test]
fn realistic_reading_is_small() {
    let base = 1_758_000_000_000;
    let readings: Vec<Reading> = (0..4)
        .map(|i| Reading {
            time: EpochMillis(base + i * 30_012),
            pressure: Some(CentiPascal(10_132_500 + i as i32 * 37)),
            baro_temp: Some(MilliCelsius(21_500 - i as i32 * 11)),
            co2: Some(Ppm(812 + i as u16 * 5)),
            humidity: Some(MilliPercentRh(45_120 + i as i32 * 150)),
            scd_temp: Some(MilliCelsius(22_310 + i as i32 * 9)),
        })
        .collect();
    let (plain, _) = encode(&readings, PLAIN_CAPACITY);
    let (first, _) = encode(&readings[..1], PLAIN_CAPACITY);
    let per_next = (plain.len() - first.len()) / 3;
    assert!(per_next <= 15, "{per_next} bytes per follow-up reading");
    assert_eq!(decode_all(&plain), Ok(readings));
}

#[test]
fn absent_channels_do_not_break_deltas() {
    let t = 1_758_000_000_000;
    let mut a = full(t, 1000, 400);
    a.humidity = None;
    let mut b = full(t + 1, 2000, 500);
    b.pressure = None;
    b.co2 = None;
    let c = full(t - 5000, -3, 600);
    let d = Reading {
        time: EpochMillis(t + 7),
        pressure: None,
        baro_temp: None,
        co2: None,
        humidity: None,
        scd_temp: None,
    };
    let (plain, taken) = encode(&[a, b, c, d], PLAIN_CAPACITY);
    assert_eq!(taken, 4);
    assert_eq!(decode_all(&plain), Ok(vec![a, b, c, d]));
}

#[test]
fn malformed_plaintext_is_an_error() {
    assert_eq!(decode_all(&[]).err(), Some(CodecError::Truncated));
    assert_eq!(decode_all(&[0x80]).err(), Some(CodecError::Truncated));
    assert_eq!(decode_all(&[0xFF; 11]).err(), Some(CodecError::VarintOverflow));
    let mut too_big = [0xFF; 10];
    too_big[9] = 0x02;
    assert_eq!(decode_all(&too_big).err(), Some(CodecError::VarintOverflow));
    assert_eq!(
        decode_all(&[0, 0x20]).err(),
        Some(CodecError::ReservedPresence(0x20))
    );
    assert_eq!(
        decode_all(&[0, 0x04, 0, 0x01]).err(),
        Some(CodecError::OutOfRange)
    );
    assert_eq!(
        decode_all(&[0, 0x01, 0, 0x80, 0x80, 0x80, 0x80, 0x10]).err(),
        Some(CodecError::OutOfRange)
    );
    assert_eq!(decode_all(&[0, 0x03, 0, 0x02]).err(), Some(CodecError::Truncated));
}

#[test]
fn fixed_point_conversion() {
    assert_eq!(
        CentiPascal::from_pascal(f32_bits(101_325.37)),
        Some(CentiPascal(10_132_537))
    );
    assert_eq!(
        MilliCelsius::from_celsius(f32_bits(-12.3456)),
        Some(MilliCelsius(-12_346))
    );
    assert_eq!(
        MilliPercentRh::from_percent(f32_bits(45.0)),
        Some(MilliPercentRh(45_000))
    );
    assert_eq!(MilliCelsius::from_celsius(f32_bits(f32::NAN)), None);
    assert_eq!(MilliCelsius::from_celsius(f32_bits(f32::INFINITY)), None);
    assert_eq!(
        CentiPascal::from_pascal(f32_bits(3.0e7)),
        None,
        "beyond i32 at 0.01 Pa"
    );
    // Back to pascals: the hundredths are exact enough for the nearest double.
    assert_eq!(f64::from(CentiPascal(10_132_537).0) / f64::from(CentiPascal::PER_PASCAL), 101_325.37);
}

fn reading() -> impl Strategy<Value = Reading> {
    (
        any::<u64>(),
        proptest::option::of(any::<i32>()),
        proptest::option::of(any::<i32>()),
        proptest::option::of(any::<u16>()),
        proptest::option::of(any::<i32>()),
        proptest::option::of(any::<i32>()),
    )
        .prop_map(|(t, p, bt, co2, h, st)| Reading {
            time: EpochMillis(t),
            pressure: p.map(CentiPascal),
            baro_temp: bt.map(MilliCelsius),
            co2: co2.map(Ppm),
            humidity: h.map(MilliPercentRh),
            scd_temp: st.map(MilliCelsius),
        })
}

fn runner(cases: u32) -> TestRunner {
    TestRunner::new(Config {
        cases,
        failure_persistence: None,
        ..Config::default()
    })
}

#[test]
fn roundtrip_any_readings() {
    runner(2048)
        .run(&collection::vec(reading(), 1..120), |readings| {
            let (plain, taken) = encode(&readings, PLAIN_CAPACITY);
            assert!(plain.len() <= PLAIN_CAPACITY);
            assert!(taken >= 1);
            assert_eq!(decode_all(&plain), Ok(readings[..taken].to_vec()));
            Ok(())
        })
        .unwrap();
}

#[test]
fn decoder_never_panics() {
    runner(2048)
        .run(&collection::vec(any::<u8>(), 0..300), |bytes| {
            let _ = decode_all(&bytes);
            Ok(())
        })
        .unwrap();
}

#[test]
fn scaling_agrees_with_double_precision() {
    let reference = |x: f32, scale: f64| -> Option<i32> {
        let v = (f64::from(x) * scale).round();
        if x.is_finite() && v >= f64::from(i32::MIN) && v <= f64::from(i32::MAX) {
            Some(v as i32)
        } else {
            None
        }
    };
    let check = |bits: u32| {
        let x = f32::from_bits(bits);
        assert_eq!(CentiPascal::from_pascal(F32Bits(bits)).map(|v| v.0), reference(x, 100.0), "{x}");
        assert_eq!(MilliCelsius::from_celsius(F32Bits(bits)).map(|v| v.0), reference(x, 1000.0), "{x}");
    };
    for x in [0.0f32, -0.0, 0.005, -0.005, 0.0005, -0.0005, 0.5, 1.0e-40, 21_474_836.0, -21_474_836.0, 2.1e9, f32::MAX] {
        check(x.to_bits());
    }
    runner(20_000)
        .run(&any::<u32>(), |bits| {
            check(bits);
            Ok(())
        })
        .unwrap();
}

#[test]
fn an_error_ends_the_readings() {
    // One good reading (empty), then reserved bits.
    let mut readings = decode(&[0, 0, 0, 0x40, 0]).unwrap();
    assert!(matches!(readings.next(), Some(Ok(_))));
    assert_eq!(readings.next(), Some(Err(CodecError::ReservedPresence(0x40))));
    assert_eq!(readings.next(), None);
    assert_eq!(readings.next(), None);
}

#[test]
fn empty_reading_has_no_channel() {
    let mut r = full(1, 1, 1);
    assert!(r.has_any_channel());
    r.pressure = None;
    r.baro_temp = None;
    r.humidity = None;
    r.scd_temp = None;
    assert!(r.has_any_channel());
    r.co2 = None;
    assert!(!r.has_any_channel());
}

#[test]
fn exact_plaintext() {
    // Base 300 (AC 02); presence 00100, step 0, CO2 400 from zero (zigzag 800).
    let r = Reading {
        time: EpochMillis(300),
        pressure: None,
        baro_temp: None,
        co2: Some(Ppm(400)),
        humidity: None,
        scd_temp: None,
    };
    let (plain, _) = encode(&[r], MIN_PLAIN);
    assert_eq!(plain, [0xAC, 0x02, 0x04, 0x00, 0xA0, 0x06]);
}

#[test]
fn rows_become_readings() {
    let row = SensorData {
        baro: Some(BaroReading { pressure: f32_bits(101_325.37), temp: f32_bits(f32::NAN) }),
        scd: Some(ScdReading { co2: 812, humidity: f32_bits(45.0), temp: f32_bits(-12.3456) }),
        time: EpochMillis(9),
    };
    assert_eq!(
        Reading::from_row(&row),
        Some(Reading {
            time: EpochMillis(9),
            pressure: Some(CentiPascal(10_132_537)),
            baro_temp: None,
            co2: Some(Ppm(812)),
            humidity: Some(MilliPercentRh(45_000)),
            scd_temp: Some(MilliCelsius(-12_346)),
        })
    );
    let useless = SensorData {
        baro: Some(BaroReading { pressure: f32_bits(f32::NAN), temp: f32_bits(f32::INFINITY) }),
        scd: None,
        time: EpochMillis(9),
    };
    assert_eq!(Reading::from_row(&useless), None);
}

#[test]
fn nothing_is_written_behind_the_text() {
    let mut buf = [0xAA; MIN_PLAIN];
    let mut enc = Encoder::new(&mut buf, EpochMillis(7));
    let first = full(7, 1000, 400);
    assert!(enc.push(&first));
    let len = enc.plain_len();
    assert!(MIN_PLAIN - len < READING_MAX);
    assert!(!enc.push(&full(8, i32::MIN, u16::MAX)));
    assert_eq!(enc.plain_len(), len);
    assert!(buf[len..].iter().all(|&b| b == 0xAA));
    assert_eq!(decode(&buf[..len]).unwrap().collect(), Ok(vec![first]));
}
