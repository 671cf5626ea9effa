use aes_gcm::aead::AeadInOut;
use aes_gcm::{Aes128Gcm, KeyInit};
use meteo_core::crypto::Cipher;
use meteo_core::float_bits::F32Bits;
use meteo_core::wire::{
    decode_payload, encode_packet, payload_len, BaroReading, DecodeFault, EpochMillis, PacketCounter, PacketError,
    PacketStream, ScdReading, SensorBatch, SensorData, BUF_LEN, LEN_PREFIX, MAX_BATCH, MAX_PAYLOAD_LEN, TAG_LEN,
};

fn cipher() -> Cipher {
    Cipher::new(*b"supersecretkey!1")
}

fn bits(x: f32) -> F32Bits {
    F32Bits(x.to_bits())
}

/// A row of the longest kind: both sensors, integers of full length.
fn worst_reading(i: u64) -> SensorData {
    SensorData {
        baro: Some(BaroReading {
            pressure: bits(f32::MAX),
            temp: bits(f32::MIN),
        }),
        scd: Some(ScdReading {
            co2: u16::MAX,
            humidity: bits(f32::MAX),
            temp: bits(f32::MIN),
        }),
        time: EpochMillis(u64::MAX - i),
    }
}

fn batch_of(n: usize, reading: impl Fn(u64) -> SensorData) -> SensorBatch {
    (0..n as u64).map(reading).collect()
}

fn roundtrip(batch: &SensorBatch, counter: PacketCounter) -> Result<SensorBatch, PacketError> {
    let mut buf = [0u8; BUF_LEN];
    let len = encode_packet(&cipher(), counter, batch, &mut buf);
    let payload = payload_len(buf[..LEN_PREFIX].try_into().unwrap())?;
    assert_eq!(LEN_PREFIX + payload, len, "prefix must describe the whole packet");
    decode_payload(&cipher(), counter, &mut buf[LEN_PREFIX..len])
}

#[test]
fn worst_case_full_batch_roundtrips() {
    let batch = batch_of(MAX_BATCH, worst_reading);
    assert_eq!(roundtrip(&batch, PacketCounter::first()), Ok(batch));
}

#[test]
fn sparse_and_empty_batches_roundtrip() {
    let sparse = batch_of(3, |i| SensorData {
        baro: None,
        scd: (i % 2 == 0).then_some(ScdReading {
            co2: 400 + i as u16,
            humidity: bits(40.5),
            temp: bits(21.25),
        }),
        time: EpochMillis(1_757_986_271_840 + i),
    });
    assert_eq!(roundtrip(&sparse, PacketCounter(7)), Ok(sparse));
    assert_eq!(
        roundtrip(&SensorBatch::new(), PacketCounter(8)),
        Ok(SensorBatch::new())
    );
}

#[test]
fn wrong_counter_fails_decrypt() {
    let batch = batch_of(2, worst_reading);
    let mut buf = [0u8; BUF_LEN];
    let len = encode_packet(&cipher(), PacketCounter(5), &batch, &mut buf);
    let res = decode_payload(&cipher(), PacketCounter(6), &mut buf[LEN_PREFIX..len]);
    assert_eq!(res, Err(PacketError::Decrypt));
}

#[test]
fn any_flipped_bit_fails_decrypt() {
    let batch = batch_of(2, worst_reading);
    let mut clean = [0u8; BUF_LEN];
    let len = encode_packet(&cipher(), PacketCounter::first(), &batch, &mut clean);
    for byte in LEN_PREFIX..len {
        let mut buf = clean;
        buf[byte] ^= 0x01;
        let res = decode_payload(&cipher(), PacketCounter::first(), &mut buf[LEN_PREFIX..len]);
        assert_eq!(res, Err(PacketError::Decrypt), "flipped byte {byte}");
    }
}

#[test]
fn payload_len_bounds() {
    let prefix = |n: u32| n.to_be_bytes();
    assert_eq!(payload_len(prefix(TAG_LEN as u32)), Ok(TAG_LEN));
    assert_eq!(payload_len(prefix(MAX_PAYLOAD_LEN as u32)), Ok(MAX_PAYLOAD_LEN));
    assert_eq!(
        payload_len(prefix(TAG_LEN as u32 - 1)),
        Err(PacketError::LengthOutOfRange(TAG_LEN - 1))
    );
    assert_eq!(
        payload_len(prefix(MAX_PAYLOAD_LEN as u32 + 1)),
        Err(PacketError::LengthOutOfRange(MAX_PAYLOAD_LEN + 1))
    );
    assert_eq!(
        payload_len(prefix(u32::MAX)),
        Err(PacketError::LengthOutOfRange(u32::MAX as usize))
    );
}

#[test]
fn short_payload_is_rejected_not_panicking() {
    for len in 0..TAG_LEN {
        let mut buf = vec![0u8; len];
        assert_eq!(
            decode_payload(&cipher(), PacketCounter::first(), &mut buf),
            Err(PacketError::LengthOutOfRange(len))
        );
    }
}

/// The length of a packet is that of the `postcard` form of its rows: a byte for
/// the count; per row a byte for each absent sensor and a varint for the time.
#[test]
fn packet_length_is_exact() {
    let batch = batch_of(1, |_| SensorData {
        baro: None,
        scd: None,
        time: EpochMillis(300),
    });
    let mut buf = [0u8; BUF_LEN];
    let len = encode_packet(&cipher(), PacketCounter::first(), &batch, &mut buf);
    assert_eq!(len, LEN_PREFIX + 1 + 1 + 1 + 2 + TAG_LEN);
    assert_eq!(&buf[..LEN_PREFIX], &[0, 0, 0, 21]);
    // A full row: 1 + 8 and 1 + 3 + 8 and 10 bytes.
    let worst = batch_of(MAX_BATCH, worst_reading);
    let len = encode_packet(&cipher(), PacketCounter::first(), &worst, &mut buf);
    assert_eq!(len, LEN_PREFIX + 1 + 24 * 31 + TAG_LEN);
}

#[test]
fn a_stream_counts_packets() {
    let mut stream = PacketStream::new();
    let mut counter = PacketCounter::first();
    for n in 0..3usize {
        let batch = batch_of(n, worst_reading);
        let mut buf = [0u8; BUF_LEN];
        let len = encode_packet(&cipher(), counter, &batch, &mut buf);
        counter = counter.next();
        assert_eq!(stream.on_payload(&cipher(), &mut buf[LEN_PREFIX..len]), Ok(batch));
        assert_eq!(stream.counter, counter);
    }
    let mut garbage = [0u8; 40];
    assert_eq!(
        stream.on_payload(&cipher(), &mut garbage),
        Err(PacketError::Decrypt)
    );
}

/// Encrypts `plain` as a payload under packet number one, with the cipher crate
/// itself.
fn payload(plain: &[u8]) -> Vec<u8> {
    let mut nonce = [0u8; 12];
    nonce[11] = 1;
    let mut out = plain.to_vec();
    let tag = Aes128Gcm::new(&(*b"supersecretkey!1").into())
        .encrypt_inout_detached(&nonce.into(), b"", out.as_mut_slice().into())
        .unwrap();
    out.extend_from_slice(&tag);
    out
}

#[test]
fn undecodable_batches_name_their_fault() {
    let decode = |plain: &[u8]| decode_payload(&cipher(), PacketCounter::first(), &mut payload(plain));
    assert_eq!(decode(&[]), Err(PacketError::Decode(DecodeFault::UnexpectedEnd)));
    assert_eq!(decode(&[1, 0, 0]), Err(PacketError::Decode(DecodeFault::UnexpectedEnd)));
    assert_eq!(decode(&[1, 2]), Err(PacketError::Decode(DecodeFault::BadOption)));
    assert_eq!(decode(&[0xFF; 11]), Err(PacketError::Decode(DecodeFault::BadVarint)));
    // Twenty-five empty rows are one more than a batch holds.
    let mut many = vec![25u8];
    many.resize(1 + 25 * 3, 0);
    assert_eq!(decode(&many), Err(PacketError::Decode(DecodeFault::Other)));
    // Exactly what the cipher crate and the row format make.
    assert_eq!(
        decode(&[1, 0, 0, 5]),
        Ok(batch_of(1, |_| SensorData { baro: None, scd: None, time: EpochMillis(5) }))
    );
}

#[test]
fn a_packet_nonce_is_its_number() {
    assert_eq!(
        PacketCounter(0x0102_0304_0506_0708).nonce(),
        [0, 0, 0, 0, 1, 2, 3, 4, 5, 6, 7, 8]
    );
}

#[test]
fn buffers_hold_nothing_unexpected() {
    let batch = batch_of(2, worst_reading);
    let mut buf = [0xAA; BUF_LEN];
    let len = encode_packet(&cipher(), PacketCounter(3), &batch, &mut buf);
    assert!(buf[len..].iter().all(|&b| b == 0xAA));
    // A refused payload is left as it was.
    let mut payload = buf[LEN_PREFIX..len].to_vec();
    let before = payload.clone();
    assert_eq!(
        decode_payload(&cipher(), PacketCounter(4), &mut payload),
        Err(PacketError::Decrypt)
    );
    assert_eq!(payload, before);
}
