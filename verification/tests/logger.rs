use aes_gcm::aead::AeadInOut;
use aes_gcm::{Aes128Gcm, KeyInit};
use meteo_core::crypto::Cipher;
use meteo_core::float_bits::F32Bits;
use meteo_core::logger::{
    decode_rows, flatten, rows, FlatRow, LoggerError, LoggerStream, DATABASE_LIMIT, PRINT_LIMIT,
};
use meteo_core::wire::{
    encode_packet, BaroReading, DecodeFault, EpochMillis, PacketCounter, ScdReading, SensorBatch, SensorData, BUF_LEN,
    LEN_PREFIX,
};

const KEY: [u8; 16] = *b"supersecretkey!1";

/// Encrypts `plain` as the payload of packet `counter`.
fn payload(counter: u64, plain: &[u8]) -> Vec<u8> {
    let mut nonce = [0u8; 12];
    nonce[4..].copy_from_slice(&counter.to_be_bytes());
    let mut out = plain.to_vec();
    let tag = Aes128Gcm::new(&KEY.into())
        .encrypt_inout_detached(&nonce.into(), b"", out.as_mut_slice().into())
        .unwrap();
    out.extend_from_slice(&tag);
    out
}

fn bits(x: f32) -> F32Bits {
    F32Bits(x.to_bits())
}

#[test]
fn logger_limits_payloads() {
    let stream = LoggerStream::new(DATABASE_LIMIT);
    assert_eq!(stream.payload_len([0, 0, 0x10, 0]), Ok(4096));
    assert_eq!(stream.payload_len([0, 0, 0x10, 1]), Err(LoggerError::TooBig(4097)));
    assert_eq!(
        LoggerStream::new(PRINT_LIMIT).payload_len([0, 0, 4, 1]),
        Err(LoggerError::TooBig(1025))
    );
}

#[test]
fn logger_counts_from_one() {
    let cipher = Cipher::new(KEY);
    let mut stream = LoggerStream::new(DATABASE_LIMIT);
    for counter in 1..=3 {
        let mut packet = payload(counter, b"rows");
        assert_eq!(stream.open(&cipher, &mut packet), Ok(4));
        assert_eq!(&packet[..4], b"rows");
    }
    let mut packet = payload(9, b"rows");
    assert_eq!(stream.open(&cipher, &mut packet), Err(LoggerError::Decrypt));
    assert_eq!(stream.open(&cipher, &mut [0u8; 15]), Err(LoggerError::Decrypt));
    assert_eq!(stream.counter.0, 4);
}

#[test]
fn rows_are_read_and_flattened() {
    // Two rows: a barometer with 1.0 and -2.0 at 300, CO2 400 with 1.0 and -2.0 at 5.
    let text = [
        2, 1, 0, 0, 0x80, 0x3F, 0, 0, 0, 0xC0, 0, 0xAC, 2, 0, 1, 0x90, 3, 0, 0, 0x80, 0x3F, 0, 0, 0, 0xC0, 5,
    ];
    let baro = SensorData {
        baro: Some(BaroReading { pressure: bits(1.0), temp: bits(-2.0) }),
        scd: None,
        time: EpochMillis(300),
    };
    let scd = SensorData {
        baro: None,
        scd: Some(ScdReading { co2: 400, humidity: bits(1.0), temp: bits(-2.0) }),
        time: EpochMillis(5),
    };
    assert_eq!(decode_rows(&text), Ok(vec![baro, scd]));
    assert_eq!(
        decode_rows(&text[..5]),
        Err(LoggerError::Decode(DecodeFault::UnexpectedEnd))
    );
    assert_eq!(decode_rows(&[1, 7]), Err(LoggerError::Decode(DecodeFault::BadOption)));
    assert_eq!(decode_rows(&[0xFF; 11]), Err(LoggerError::Decode(DecodeFault::BadVarint)));
    let raw = vec![(Some(((0, 0, 0x80, 0x3F), (0, 0, 0, 0xC0))), None, 300)];
    assert_eq!(rows(&raw), vec![baro]);

    assert_eq!(
        flatten(&baro),
        FlatRow {
            time: EpochMillis(300),
            pressure: Some(bits(1.0)),
            temp: Some(bits(-2.0)),
            co2: None,
            humidity: None,
            scd_temp: None,
        }
    );
    assert_eq!(
        flatten(&scd),
        FlatRow {
            time: EpochMillis(5),
            pressure: None,
            temp: None,
            co2: Some(400),
            humidity: Some(bits(1.0)),
            scd_temp: Some(bits(-2.0)),
        }
    );
}

/// More rows than a packet of the station holds are fine here.
#[test]
fn a_logger_takes_long_lists() {
    let mut text = vec![100u8];
    text.resize(1 + 100 * 3, 0);
    assert_eq!(decode_rows(&text).map(|rows| rows.len()), Ok(100));
}

#[test]
fn a_logger_reads_what_a_station_sends() {
    let cipher = Cipher::new(KEY);
    let mut stream = LoggerStream::new(DATABASE_LIMIT);
    for counter in 1..=3 {
        let mut batch = SensorBatch::new();
        for i in 0..counter {
            batch
                .push(SensorData {
                    baro: (i % 2 == 0).then_some(BaroReading { pressure: bits(99_000.5), temp: bits(-3.25) }),
                    scd: Some(ScdReading { co2: 400 + i as u16, humidity: bits(40.0), temp: bits(21.5) }),
                    time: EpochMillis(1_757_986_271_840 + i),
                })
                .unwrap();
        }
        let mut buf = [0u8; BUF_LEN];
        let len = encode_packet(&cipher, PacketCounter(counter), &batch, &mut buf);
        let prefix = buf[..LEN_PREFIX].try_into().unwrap();
        assert_eq!(stream.payload_len(prefix), Ok(len - LEN_PREFIX));
        assert_eq!(stream.read(&cipher, &mut buf[LEN_PREFIX..len]), Ok(batch.to_vec()));
    }
    let mut garbage = payload(4, &[1, 7]);
    assert_eq!(
        stream.read(&cipher, &mut garbage),
        Err(LoggerError::Decode(DecodeFault::BadOption))
    );
}
