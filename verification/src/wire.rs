//! Packets of the stream protocol, from the station to the receiver.
//!
//! On the wire a packet is the payload length (big-endian `u32`), the
//! ciphertext under AES-128-GCM and a tag of sixteen bytes; the payload is
//! ciphertext and tag. There is no associated data. The nonce is four zero
//! bytes and the big-endian number of the packet within its connection.

use vstd::prelude::*;

use crate::bytes;
use crate::crypto;
use crate::crypto::Cipher;
use crate::float_bits::F32Bits;
use crate::logger;
use crate::logger::LoggerError;
use crate::varint;

verus! {

/// Milliseconds since the Unix epoch.
#[derive(Clone, Copy, PartialEq, Eq, Structural, PartialOrd, Ord, Hash, Debug)]
pub struct EpochMillis(pub u64);

/// One reading of the barometer: pressure in Pa, temperature in °C.
#[derive(Clone, Copy, PartialEq, Eq, Structural, Debug)]
pub struct BaroReading {
    pub pressure: F32Bits,
    pub temp: F32Bits,
}

/// One reading of the CO2 sensor: ppm, humidity in %, temperature in °C.
#[derive(Clone, Copy, PartialEq, Eq, Structural, Debug)]
pub struct ScdReading {
    pub co2: u16,
    pub humidity: F32Bits,
    pub temp: F32Bits,
}

/// One row of measurements. The two sensors are independent of each other.
#[derive(Clone, Copy, PartialEq, Eq, Structural, Debug)]
pub struct SensorData {
    pub baro: Option<BaroReading>,
    pub scd: Option<ScdReading>,
    pub time: EpochMillis,
}

/// Length of the prefix that holds the payload length.
pub const LEN_PREFIX: usize = 4;

/// Length of the tag.
pub const TAG_LEN: usize = 16;

/// Longest packet: prefix, ciphertext and tag.
pub const BUF_LEN: usize = 1024;

/// Longest payload.
pub const MAX_PAYLOAD_LEN: usize = 1020;

/// Most rows in one packet.
pub const MAX_BATCH: usize = 24;

/// Longest row: two present sensors and integers of full length.
pub const ROW_MAX: usize = 31;

/// The rows of one packet.
pub type SensorBatch = heapless::Vec<SensorData, MAX_BATCH>;

/// Buffer of one packet.
pub type PacketBuf = [u8; BUF_LEN];

/// A single-precision number as its four bytes, least significant first.
pub type RawF32 = (u8, u8, u8, u8);

/// A row in the shape in which it is serialised.
pub type RawRow = (Option<(RawF32, RawF32)>, Option<(u16, RawF32, RawF32)>, u64);

/// A fixed-capacity vector of the `heapless` crate.
#[verifier::external_type_specification]
#[verifier::external_body]
#[verifier::reject_recursive_types(T)]
pub struct ExHeaplessVec<T, const N: usize>(heapless::Vec<T, N>);

/// What a batch holds, in order.
pub uninterp spec fn batch_rows(b: SensorBatch) -> Seq<SensorData>;

/// Calls `heapless::Vec::new`: the new vector is empty.
#[verifier::external_body]
pub(crate) fn batch_new() -> (b: SensorBatch)
    ensures
        batch_rows(b) == Seq::<SensorData>::empty(),
{
    SensorBatch::new()
}

/// Calls `heapless::Vec::len`: how many rows the batch holds, at most its
/// capacity.
#[verifier::external_body]
pub(crate) fn batch_len(b: &SensorBatch) -> (n: usize)
    ensures
        n == batch_rows(*b).len(),
        n <= MAX_BATCH,
{
    b.len()
}

/// Calls `heapless::Vec::push`: a vector with room takes the row at its end.
#[verifier::external_body]
pub(crate) fn batch_push(b: &mut SensorBatch, row: SensorData)
    requires
        batch_rows(*old(b)).len() < MAX_BATCH,
    ensures
        batch_rows(*final(b)) == batch_rows(*old(b)).push(row),
{
    b.push(row).expect("the batch has room")
}

/// Calls `heapless::Vec::clear`: nothing is left.
#[verifier::external_body]
pub(crate) fn batch_clear(b: &mut SensorBatch)
    ensures
        batch_rows(*final(b)) == Seq::<SensorData>::empty(),
{
    b.clear()
}

/// Calls `heapless::Vec::as_slice`: all the rows in order.
#[verifier::external_body]
pub(crate) fn batch_slice(b: &SensorBatch) -> (rows: &[SensorData])
    ensures
        rows@ == batch_rows(*b),
{
    b.as_slice()
}

/// Four bytes of a number, least significant first.
#[verifier::opaque]
pub open spec fn raw_f32(x: F32Bits) -> RawF32 {
    (
        (x.0 % 0x100) as u8,
        (x.0 / 0x100 % 0x100) as u8,
        (x.0 / 0x1_0000 % 0x100) as u8,
        (x.0 / 0x100_0000) as u8,
    )
}

/// The number that four bytes encode, least significant first.
#[verifier::opaque]
pub open spec fn f32_of(r: RawF32) -> F32Bits {
    F32Bits((r.0 + r.1 * 0x100 + r.2 * 0x1_0000 + r.3 * 0x100_0000) as u32)
}

/// A row in the shape in which it is serialised.
pub open spec fn raw_row(d: SensorData) -> RawRow {
    (
        match d.baro {
            Some(b) => Some((raw_f32(b.pressure), raw_f32(b.temp))),
            None => None,
        },
        match d.scd {
            Some(s) => Some((s.co2, raw_f32(s.humidity), raw_f32(s.temp))),
            None => None,
        },
        d.time.0,
    )
}

/// The row of a serialised shape.
pub open spec fn row_of(r: RawRow) -> SensorData {
    SensorData {
        baro: match r.0 {
            Some(b) => Some(BaroReading { pressure: f32_of(b.0), temp: f32_of(b.1) }),
            None => None,
        },
        scd: match r.1 {
            Some(s) => Some(ScdReading { co2: s.0, humidity: f32_of(s.1), temp: f32_of(s.2) }),
            None => None,
        },
        time: EpochMillis(r.2),
    }
}

#[verifier::spinoff_prover]
proof fn lemma_f32_roundtrip(x: F32Bits)
    ensures
        f32_of(raw_f32(x)) == x,
{
    reveal(raw_f32);
    reveal(f32_of);
    let r = raw_f32(x);
    assert(r.0 == x.0 % 0x100);
    assert(r.1 == x.0 / 0x100 % 0x100);
    assert(r.2 == x.0 / 0x1_0000 % 0x100);
    assert(r.3 == x.0 / 0x100_0000);
    let v = x.0;
    assert(v % 0x100 + v / 0x100 % 0x100 * 0x100 + v / 0x1_0000 % 0x100 * 0x1_0000 + v / 0x100_0000 * 0x100_0000 == v)
        by (bit_vector);
}

/// A row is got back from its serialised shape.
#[verifier::spinoff_prover]
pub proof fn raw_row_roundtrip(d: SensorData)
    ensures
        row_of(raw_row(d)) == d,
{
    if let Some(b) = d.baro {
        lemma_f32_roundtrip(b.pressure);
        lemma_f32_roundtrip(b.temp);
    }
    if let Some(s) = d.scd {
        lemma_f32_roundtrip(s.humidity);
        lemma_f32_roundtrip(s.temp);
    }
}

/// Bytes of a number.
pub open spec fn f32_text(r: RawF32) -> Seq<u8> {
    seq![r.0, r.1, r.2, r.3]
}

/// Bytes of a row in the `postcard` format: each optional part is a zero byte
/// or a one byte and its fields, integers are varints.
pub open spec fn row_text(r: RawRow) -> Seq<u8> {
    (match r.0 {
        Some(b) => seq![1u8] + f32_text(b.0) + f32_text(b.1),
        None => seq![0u8],
    }) + (match r.1 {
        Some(s) => seq![1u8] + varint::varint(s.0 as nat) + f32_text(s.1) + f32_text(s.2),
        None => seq![0u8],
    }) + varint::varint(r.2 as nat)
}

/// Bytes of rows one after another.
pub open spec fn rows_body(rows: Seq<RawRow>) -> Seq<u8>
    decreases rows.len(),
{
    if rows.len() == 0 {
        Seq::empty()
    } else {
        row_text(rows[0]) + rows_body(rows.drop_first())
    }
}

/// Bytes of a batch in the `postcard` format: the number of rows, then the rows.
pub open spec fn rows_text(rows: Seq<RawRow>) -> Seq<u8> {
    varint::varint(rows.len()) + rows_body(rows)
}

/// Why bytes are not a batch.
#[derive(Clone, Copy, PartialEq, Eq, Structural, Debug)]
pub enum DecodeFault {
    /// The bytes end inside a batch.
    UnexpectedEnd,
    /// An integer is too wide.
    BadVarint,
    /// The mark of an optional part is neither zero nor one.
    BadOption,
    /// Anything else, such as more rows than a batch holds.
    Other,
}

/// What `postcard::from_bytes` makes of bytes, read as a `heapless::Vec` of at
/// most [`MAX_BATCH`] rows.
pub uninterp spec fn postcard_rows(text: Seq<u8>) -> Result<Seq<RawRow>, DecodeFault>;

/// What `postcard::from_bytes` makes of bytes, read as a `Vec` of any number of
/// rows.
pub uninterp spec fn postcard_row_list(text: Seq<u8>) -> Result<Seq<RawRow>, DecodeFault>;

/// Calls `postcard::to_slice` on a sequence of rows. Claimed of it: it writes
/// their `postcard` encoding at the front of `buf`, which has room for it,
/// returns its length and leaves the rest of `buf` as it was; the bytes written
/// are read back as the same rows by `postcard::from_bytes`, into either kind of
/// vector.
#[verifier::external_body]
pub(crate) fn write_rows(rows: &[RawRow], buf: &mut [u8]) -> (n: usize)
    requires
        rows@.len() <= MAX_BATCH,
        rows_text(rows@).len() <= old(buf)@.len(),
    ensures
        n == rows_text(rows@).len(),
        final(buf)@ == rows_text(rows@) + old(buf)@.skip(n as int),
        postcard_rows(final(buf)@.take(n as int)) is Ok,
        postcard_rows(final(buf)@.take(n as int))->Ok_0 == rows@,
        postcard_row_list(final(buf)@.take(n as int)) is Ok,
        postcard_row_list(final(buf)@.take(n as int))->Ok_0 == rows@,
{
    postcard::to_slice(rows, buf).expect("the buffer has room").len()
}

/// Calls `postcard::from_bytes` for a vector of at most [`MAX_BATCH`] rows.
/// Claimed of it: the result is a function of the bytes, and a vector that is
/// returned is within its capacity.
#[verifier::external_body]
pub(crate) fn read_rows(text: &[u8]) -> (r: Result<Vec<RawRow>, DecodeFault>)
    ensures
        match (r, postcard_rows(text@)) {
            (Ok(v), Ok(rows)) => v@ == rows && v@.len() <= MAX_BATCH,
            (Err(e), Err(f)) => e == f,
            _ => false,
        },
{
    match postcard::from_bytes::<heapless::Vec<RawRow, MAX_BATCH>>(text) {
        Ok(rows) => Ok(rows.into_iter().collect()),
        Err(postcard::Error::DeserializeUnexpectedEnd) => Err(DecodeFault::UnexpectedEnd),
        Err(postcard::Error::DeserializeBadVarint) => Err(DecodeFault::BadVarint),
        Err(postcard::Error::DeserializeBadOption) => Err(DecodeFault::BadOption),
        Err(_) => Err(DecodeFault::Other),
    }
}

/// Calls `postcard::from_bytes` for a `Vec` of rows. Claimed of it: the result is
/// a function of the bytes.
#[verifier::external_body]
pub(crate) fn read_row_list(text: &[u8]) -> (r: Result<Vec<RawRow>, DecodeFault>)
    ensures
        match (r, postcard_row_list(text@)) {
            (Ok(v), Ok(rows)) => v@ == rows,
            (Err(e), Err(f)) => e == f,
            _ => false,
        },
{
    match postcard::from_bytes::<Vec<RawRow>>(text) {
        Ok(rows) => Ok(rows),
        Err(postcard::Error::DeserializeUnexpectedEnd) => Err(DecodeFault::UnexpectedEnd),
        Err(postcard::Error::DeserializeBadVarint) => Err(DecodeFault::BadVarint),
        Err(postcard::Error::DeserializeBadOption) => Err(DecodeFault::BadOption),
        Err(_) => Err(DecodeFault::Other),
    }
}

proof fn lemma_row_len(r: RawRow)
    ensures
        3 <= row_text(r).len() <= ROW_MAX,
{
    varint::lemma_varint_len_u64(r.2 as nat);
    if let Some(s) = r.1 {
        reveal_with_fuel(varint::pow128, 4);
        varint::lemma_varint_len(s.0 as nat, 3);
    }
}

proof fn lemma_rows_len(rows: Seq<RawRow>)
    ensures
        rows_body(rows).len() <= rows.len() * ROW_MAX,
    decreases rows.len(),
{
    if rows.len() > 0 {
        lemma_row_len(rows[0]);
        lemma_rows_len(rows.drop_first());
    }
}

/// Any batch fits into a packet: the longest is well under the limit.
pub proof fn batch_fits(rows: Seq<RawRow>)
    requires
        rows.len() <= MAX_BATCH,
    ensures
        rows_text(rows).len() <= 1 + MAX_BATCH * ROW_MAX,
        rows_text(rows).len() <= MAX_PAYLOAD_LEN - TAG_LEN,
{
    lemma_rows_len(rows);
}

/// The rows of a batch as they are serialised.
pub open spec fn raw_rows(rows: Seq<SensorData>) -> Seq<RawRow> {
    Seq::new(rows.len(), |i: int| raw_row(rows[i]))
}

/// The rows of serialised shapes.
pub open spec fn rows_of(raw: Seq<RawRow>) -> Seq<SensorData> {
    Seq::new(raw.len(), |i: int| row_of(raw[i]))
}

/// Plaintext of a packet.
pub open spec fn batch_text(rows: Seq<SensorData>) -> Seq<u8> {
    rows_text(raw_rows(rows))
}

proof fn lemma_rows_roundtrip(rows: Seq<SensorData>)
    ensures
        rows_of(raw_rows(rows)) == rows,
{
    assert forall|i: int| 0 <= i < rows.len() implies rows_of(raw_rows(rows))[i] == rows[i] by {
        raw_row_roundtrip(rows[i]);
    }
    assert(rows_of(raw_rows(rows)) =~= rows);
}

/// Number of a packet within its connection. Both sides count from
/// [`PacketCounter::first`] on each connection.
#[derive(Clone, Copy, PartialEq, Eq, Structural, Debug)]
pub struct PacketCounter(pub u64);

impl PacketCounter {
    /// The first number of a connection.
    pub fn first() -> (c: PacketCounter)
        ensures
            c.0 == 1,
    {
        PacketCounter(1)
    }

    /// The number after this one.
    pub fn next(self) -> (c: PacketCounter)
        requires
            self.0 < u64::MAX,
        ensures
            c.0 == self.0 + 1,
    {
        PacketCounter(self.0 + 1)
    }

    /// The nonce: four zero bytes and the big-endian number.
    pub open spec fn nonce_bytes(self) -> Seq<u8> {
        seq![0u8, 0u8, 0u8, 0u8] + bytes::be32((self.0 / 0x1_0000_0000) as u32) + bytes::be32(
            (self.0 % 0x1_0000_0000) as u32,
        )
    }

    /// The nonce of the packet of this number.
    pub fn nonce(self) -> (n: [u8; crypto::NONCE_LEN])
        ensures
            n@ == self.nonce_bytes(),
    {
        let h = bytes::be32_bytes((self.0 / 0x1_0000_0000) as u32);
        let l = bytes::be32_bytes((self.0 % 0x1_0000_0000) as u32);
        let n = [0, 0, 0, 0, h[0], h[1], h[2], h[3], l[0], l[1], l[2], l[3]];
        assert(n@ =~= self.nonce_bytes());
        n
    }
}

/// Packets of one connection have the same nonce only if they have the same
/// number.
pub proof fn packet_nonces_are_distinct(a: PacketCounter, b: PacketCounter)
    ensures
        a.nonce_bytes() == b.nonce_bytes() <==> a == b,
{
    let m = a.nonce_bytes();
    let n = b.nonce_bytes();
    let ah = (a.0 / 0x1_0000_0000) as u32;
    let bh = (b.0 / 0x1_0000_0000) as u32;
    let al = (a.0 % 0x1_0000_0000) as u32;
    let bl = (b.0 % 0x1_0000_0000) as u32;
    assert(m.subrange(4, 8) =~= bytes::be32(ah));
    assert(n.subrange(4, 8) =~= bytes::be32(bh));
    assert(m.subrange(8, 12) =~= bytes::be32(al));
    assert(n.subrange(8, 12) =~= bytes::be32(bl));
    if m == n {
        bytes::be32_injective(ah, bh);
        bytes::be32_injective(al, bl);
    }
}

/// Why the receiver refuses a packet.
#[derive(Clone, Copy, PartialEq, Eq, Structural, Debug)]
pub enum PacketError {
    /// The payload length is one that no packet has: the stream is out of step
    /// or the client is not ours.
    LengthOutOfRange(usize),
    /// The tag does not match.
    Decrypt,
    /// Decrypted, but not a batch.
    Decode(DecodeFault),
}

/// Can a payload be `n` bytes long.
pub open spec fn is_payload_len(n: int) -> bool {
    TAG_LEN <= n <= MAX_PAYLOAD_LEN
}

/// Ciphertext and tag of a plaintext.
pub open spec fn sealed_payload(key: Seq<u8>, counter: PacketCounter, text: Seq<u8>) -> Seq<u8> {
    let (ciphertext, tag) = crypto::aes_gcm_encrypt(key, counter.nonce_bytes(), Seq::empty(), text);
    ciphertext + tag
}

/// Ciphertext and tag of a batch.
pub open spec fn payload_of(key: Seq<u8>, counter: PacketCounter, rows: Seq<SensorData>) -> Seq<u8> {
    sealed_payload(key, counter, batch_text(rows))
}

/// The whole packet of a batch.
pub open spec fn packet_of(key: Seq<u8>, counter: PacketCounter, rows: Seq<SensorData>) -> Seq<u8> {
    bytes::be32((batch_text(rows).len() + TAG_LEN) as u32) + payload_of(key, counter, rows)
}

/// The batch that a payload holds.
pub open spec fn payload_rows(key: Seq<u8>, counter: PacketCounter, payload: Seq<u8>) -> Result<
    Seq<SensorData>,
    PacketError,
> {
    if !is_payload_len(payload.len() as int) {
        Err(PacketError::LengthOutOfRange(payload.len() as usize))
    } else {
        match payload_text(key, counter, payload) {
            None => Err(PacketError::Decrypt),
            Some(text) => match postcard_rows(text) {
                Ok(raw) => Ok(rows_of(raw)),
                Err(f) => Err(PacketError::Decode(f)),
            },
        }
    }
}

/// The plaintext of a payload; `None`: it is shorter than a tag, or the tag does
/// not match.
pub open spec fn payload_text(key: Seq<u8>, counter: PacketCounter, payload: Seq<u8>) -> Option<Seq<u8>> {
    if payload.len() < TAG_LEN {
        None
    } else {
        crypto::aes_gcm_decrypt(
            key,
            counter.nonce_bytes(),
            Seq::empty(),
            payload.take(payload.len() - TAG_LEN),
            payload.skip(payload.len() - TAG_LEN),
        )
    }
}

/// Is a payload what sealing `text` makes, and does it open to that again.
pub open spec fn seals(key: Seq<u8>, counter: PacketCounter, payload: Seq<u8>, text: Seq<u8>) -> bool {
    &&& payload == sealed_payload(key, counter, text)
    &&& payload.len() == text.len() + TAG_LEN
    &&& payload_text(key, counter, payload) == Some(text)
}

/// What a payload's bytes are after it was opened in place: the plaintext and
/// the tag, or as before where it does not open.
pub open spec fn opened_payload(key: Seq<u8>, counter: PacketCounter, payload: Seq<u8>) -> Seq<u8> {
    match payload_text(key, counter, payload) {
        Some(text) => text + payload.skip(payload.len() - TAG_LEN),
        None => payload,
    }
}

/// A payload opens only if it is exactly what sealing its plaintext makes, so no
/// other payload opens to the same under the same number: a changed one is
/// refused, or is itself the encryption of another plaintext.
pub proof fn payload_opening_is_unique(
    key: Seq<u8>,
    counter: PacketCounter,
    a: Seq<u8>,
    b: Seq<u8>,
    text: Seq<u8>,
)
    requires
        seals(key, counter, a, text),
        seals(key, counter, b, text),
    ensures
        a == b,
{
}

/// Does the packet of a batch state its own length, fit the buffer, and read
/// back as that batch, for the receiver of packets and for the data logger.
pub open spec fn reads_back(key: Seq<u8>, counter: PacketCounter, rows: Seq<SensorData>) -> bool {
    let packet = packet_of(key, counter, rows);
    let payload = packet.skip(LEN_PREFIX as int);
    &&& packet.len() == LEN_PREFIX + batch_text(rows).len() + TAG_LEN
    &&& packet.len() <= BUF_LEN
    &&& prefix_len(packet.take(LEN_PREFIX as int)) == payload.len()
    &&& payload_rows(key, counter, payload) == Ok::<Seq<SensorData>, PacketError>(rows)
    &&& logger::logged_rows(key, counter, payload) == Ok::<Seq<SensorData>, LoggerError>(rows)
}

fn raw_of(x: F32Bits) -> (r: RawF32)
    ensures
        r == raw_f32(x),
{
    proof {
        reveal(raw_f32);
    }
    (
        (x.0 % 0x100) as u8,
        (x.0 / 0x100 % 0x100) as u8,
        (x.0 / 0x1_0000 % 0x100) as u8,
        (x.0 / 0x100_0000) as u8,
    )
}

fn bits_of(r: RawF32) -> (x: F32Bits)
    ensures
        x == f32_of(r),
{
    proof {
        reveal(f32_of);
    }
    F32Bits(r.0 as u32 + r.1 as u32 * 0x100 + r.2 as u32 * 0x1_0000 + r.3 as u32 * 0x100_0000)
}

fn to_raw(d: &SensorData) -> (r: RawRow)
    ensures
        r == raw_row(*d),
{
    let baro = match d.baro {
        Some(b) => Some((raw_of(b.pressure), raw_of(b.temp))),
        None => None,
    };
    let scd = match d.scd {
        Some(s) => Some((s.co2, raw_of(s.humidity), raw_of(s.temp))),
        None => None,
    };
    (baro, scd, d.time.0)
}

pub(crate) fn from_raw(r: &RawRow) -> (d: SensorData)
    ensures
        d == row_of(*r),
{
    SensorData {
        baro: match r.0 {
            Some(b) => Some(BaroReading { pressure: bits_of(b.0), temp: bits_of(b.1) }),
            None => None,
        },
        scd: match r.1 {
            Some(s) => Some(ScdReading { co2: s.0, humidity: bits_of(s.1), temp: bits_of(s.2) }),
            None => None,
        },
        time: EpochMillis(r.2),
    }
}

/// Encodes a batch into a packet in `buf`, encrypting in place, and returns the
/// packet's length: `buf[..len]` goes to the socket whole. Both the receiver of
/// packets and the data logger read the batch back from it.
pub fn encode_packet(cipher: &Cipher, counter: PacketCounter, batch: &SensorBatch, buf: &mut PacketBuf) -> (len: usize)
    ensures
        LEN_PREFIX + TAG_LEN <= len <= BUF_LEN,
        len == LEN_PREFIX + batch_text(batch_rows(*batch)).len() + TAG_LEN,
        final(buf)@.take(len as int) == packet_of(cipher.key@, counter, batch_rows(*batch)),
        payload_rows(cipher.key@, counter, final(buf)@.subrange(LEN_PREFIX as int, len as int)) == Ok::<
            Seq<SensorData>,
            PacketError,
        >(batch_rows(*batch)),
        logger::logged_rows(cipher.key@, counter, final(buf)@.subrange(LEN_PREFIX as int, len as int)) == Ok::<
            Seq<SensorData>,
            LoggerError,
        >(batch_rows(*batch)),
        prefix_len(final(buf)@.take(LEN_PREFIX as int)) == len - LEN_PREFIX,
        final(buf)@.skip(len as int) == old(buf)@.skip(len as int),
        reads_back(cipher.key@, counter, batch_rows(*batch)),
{
    let count: usize = batch_len(batch);
    let rows = batch_slice(batch);
    let ghost want = raw_rows(rows@);
    let mut raw: Vec<RawRow> = Vec::new();
    let mut i: usize = 0;
    while i < count
        invariant
            i <= count,
            count == rows@.len(),
            raw@.len() == i,
            forall|k: int| 0 <= k < i ==> #[trigger] raw@[k] == raw_row(rows@[k]),
        decreases count - i,
    {
        raw.push(to_raw(&rows[i]));
        i = i + 1;
    }
    assert(raw@ =~= want);
    proof {
        batch_fits(want);
        lemma_rows_roundtrip(rows@);
    }
    let nonce = counter.nonce();
    let ghost was = buf@;
    let whole: &mut [u8] = buf;
    let (prefix, body) = whole.split_at_mut(LEN_PREFIX);
    let plain_len: usize = write_rows(raw.as_slice(), body);
    let ghost written = body@;
    assert(written.take(plain_len as int) =~= rows_text(want));
    let (text, rest) = body.split_at_mut(plain_len);
    assert(text@ =~= rows_text(want));
    let no_aad: [u8; 0] = [];
    assert(no_aad@ =~= Seq::empty());
    let tag = crypto::encrypt(cipher, &nonce, &no_aad, text);
    let (tag_area, _) = rest.split_at_mut(TAG_LEN);
    copy_all(tag_area, &tag);
    let payload_len: usize = plain_len + TAG_LEN;
    let head = bytes::be32_bytes(payload_len as u32);
    copy_all(prefix, &head);
    let ghost ciphertext = text@;
    let len: usize = LEN_PREFIX + payload_len;
    proof {
        let out = after_borrow(buf)@;
        assert(out.take(LEN_PREFIX as int) =~= head@);
        bytes::be32_roundtrip(payload_len as u32);
        assert(out.subrange(LEN_PREFIX as int, len as int) =~= ciphertext + tag@);
        assert(out.take(len as int) =~= head@ + (ciphertext + tag@));
        let payload = ciphertext + tag@;
        assert(payload.take(payload.len() - TAG_LEN) =~= ciphertext);
        assert(payload.skip(payload.len() - TAG_LEN) =~= tag@);
        let packet = packet_of(cipher.key@, counter, rows@);
        assert(packet =~= head@ + payload);
        assert(packet.take(LEN_PREFIX as int) =~= head@);
        assert(packet.skip(LEN_PREFIX as int) =~= payload);
        assert(out.skip(len as int) =~= was.skip(len as int));
    }
    len
}

pub(crate) fn copy_all(to: &mut [u8], from: &[u8])
    requires
        old(to)@.len() == from@.len(),
    ensures
        final(to)@ == from@,
{
    let mut i: usize = 0;
    while i < from.len()
        invariant
            i <= from@.len(),
            to@.len() == from@.len(),
            forall|k: int| 0 <= k < i ==> #[trigger] to@[k] == from@[k],
        decreases from@.len() - i,
    {
        to[i] = from[i];
        i = i + 1;
    }
    assert(to@ =~= from@);
}

/// The payload length that a prefix states.
pub open spec fn prefix_len(prefix: Seq<u8>) -> int {
    bytes::be32_at(prefix, 0) as int
}

/// The payload length that a prefix states, checked before the payload is
/// read, so that a broken prefix does not make the receiver read megabytes.
pub fn payload_len(prefix: [u8; LEN_PREFIX]) -> (r: Result<usize, PacketError>)
    ensures
        is_payload_len(prefix_len(prefix@)) ==> r == Ok::<usize, PacketError>(prefix_len(prefix@) as usize),
        !is_payload_len(prefix_len(prefix@)) ==> r == Err::<usize, PacketError>(
            PacketError::LengthOutOfRange(prefix_len(prefix@) as usize),
        ),
{
    let len: usize = bytes::get_be32(&prefix, 0) as usize;
    if TAG_LEN <= len && len <= MAX_PAYLOAD_LEN {
        Ok(len)
    } else {
        Err(PacketError::LengthOutOfRange(len))
    }
}

/// Decrypts a payload in place and reads its batch.
pub fn decode_payload(cipher: &Cipher, counter: PacketCounter, payload: &mut [u8]) -> (r: Result<
    SensorBatch,
    PacketError,
>)
    ensures
        final(payload)@.len() == old(payload)@.len(),
        match (r, payload_rows(cipher.key@, counter, old(payload)@)) {
            (Ok(batch), Ok(rows)) => batch_rows(batch) == rows,
            (Err(e), Err(f)) => e == f,
            _ => false,
        },
        r is Ok || r->Err_0 is Decode ==> seals(
            cipher.key@,
            counter,
            old(payload)@,
            payload_text(cipher.key@, counter, old(payload)@)->0,
        ),
        final(payload)@ == if is_payload_len(old(payload)@.len() as int) {
            opened_payload(cipher.key@, counter, old(payload)@)
        } else {
            old(payload)@
        },
{
    let len: usize = payload.len();
    if len < TAG_LEN || len > MAX_PAYLOAD_LEN {
        return Err(PacketError::LengthOutOfRange(len));
    }
    let nonce = counter.nonce();
    let ghost was = payload@;
    let (text, tag_bytes) = payload.split_at_mut(len - TAG_LEN);
    let mut tag = [0u8; TAG_LEN];
    copy_all(&mut tag, tag_bytes);
    let no_aad: [u8; 0] = [];
    assert(no_aad@ =~= Seq::empty());
    assert(text@ + tag@ =~= was);
    if !crypto::decrypt(cipher, &nonce, &no_aad, text, &tag) {
        return Err(PacketError::Decrypt);
    }
    let raw = match read_rows(text) {
        Ok(raw) => raw,
        Err(f) => {
            return Err(PacketError::Decode(f));
        },
    };
    let mut batch = batch_new();
    let mut i: usize = 0;
    while i < raw.len()
        invariant
            i <= raw@.len(),
            raw@.len() <= MAX_BATCH,
            batch_rows(batch) == rows_of(raw@).take(i as int),
        decreases raw@.len() - i,
    {
        let row = from_raw(&raw[i]);
        batch_push(&mut batch, row);
        assert(rows_of(raw@).take(i + 1) =~= rows_of(raw@).take(i as int).push(row));
        i = i + 1;
    }
    assert(rows_of(raw@).take(raw@.len() as int) =~= rows_of(raw@));
    Ok(batch)
}

/// The receiving end of one connection: it counts packets as the sender does.
#[derive(Clone, Copy, PartialEq, Eq, Structural, Debug)]
pub struct PacketStream {
    pub counter: PacketCounter,
}

impl PacketStream {
    /// A new connection.
    pub fn new() -> (s: PacketStream)
        ensures
            s.counter.0 == 1,
    {
        PacketStream { counter: PacketCounter::first() }
    }

    /// A payload of the length that its prefix stated: the batch it holds. After
    /// an error the connection is to be closed.
    pub fn on_payload(&mut self, cipher: &Cipher, payload: &mut [u8]) -> (r: Result<SensorBatch, PacketError>)
        requires
            old(self).counter.0 < u64::MAX,
        ensures
            final(payload)@.len() == old(payload)@.len(),
            final(payload)@ == if is_payload_len(old(payload)@.len() as int) {
                opened_payload(cipher.key@, old(self).counter, old(payload)@)
            } else {
                old(payload)@
            },
            match (r, payload_rows(cipher.key@, old(self).counter, old(payload)@)) {
                (Ok(batch), Ok(rows)) => batch_rows(batch) == rows && final(self).counter.0 == old(self).counter.0 + 1,
                (Err(e), Err(f)) => e == f && *final(self) == *old(self),
                _ => false,
            },
    {
        let r = decode_payload(cipher, self.counter, payload);
        if r.is_ok() {
            self.counter = self.counter.next();
        }
        r
    }
}

/// A packet on the wire: the length of what follows, big-endian, then ciphertext
/// and tag, encrypted without associated data under the number of the packet.
pub proof fn packet_layout(key: Seq<u8>, counter: PacketCounter, rows: Seq<SensorData>)
    ensures
        ({
            let text = batch_text(rows);
            let (ciphertext, tag) = crypto::aes_gcm_encrypt(key, counter.nonce_bytes(), Seq::empty(), text);
            packet_of(key, counter, rows) == bytes::be32((text.len() + 16) as u32) + (ciphertext + tag)
        }),
        counter.nonce_bytes() == seq![0u8, 0u8, 0u8, 0u8] + bytes::be32((counter.0 / 0x1_0000_0000) as u32)
            + bytes::be32((counter.0 % 0x1_0000_0000) as u32),
        forall|n: int| #[trigger] is_payload_len(n) <==> 16 <= n <= 1020,
{
}

/// A payload gives a batch exactly if it has the length of one, its tag matches
/// and its plaintext is a batch; otherwise the error tells the first of these that
/// fails.
pub proof fn payloads_are_refused_in_order(key: Seq<u8>, counter: PacketCounter, payload: Seq<u8>)
    ensures
        !(16 <= payload.len() <= 1020) ==> payload_rows(key, counter, payload) == Err::<Seq<SensorData>, PacketError>(
            PacketError::LengthOutOfRange(payload.len() as usize),
        ),
        16 <= payload.len() <= 1020 ==> {
            let text = crypto::aes_gcm_decrypt(
                key,
                counter.nonce_bytes(),
                Seq::empty(),
                payload.take(payload.len() - 16),
                payload.skip(payload.len() - 16),
            );
            &&& text is None ==> payload_rows(key, counter, payload) == Err::<Seq<SensorData>, PacketError>(
                PacketError::Decrypt,
            )
            &&& text matches Some(t) ==> match postcard_rows(t) {
                Ok(raw) => payload_rows(key, counter, payload) is Ok && payload_rows(key, counter, payload)->Ok_0.len()
                    == raw.len() && forall|i: int|
                    0 <= i < raw.len() ==> #[trigger] payload_rows(key, counter, payload)->Ok_0[i] == row_of(raw[i]),
                Err(f) => payload_rows(key, counter, payload) == Err::<Seq<SensorData>, PacketError>(
                    PacketError::Decode(f),
                ),
            }
        },
{
}

/// A row is serialised sensor by sensor: each is there or not on its own, and
/// its fields keep their order.
pub proof fn rows_keep_their_sensors(d: SensorData)
    ensures
        raw_row(d).2 == d.time.0,
        d.baro matches Some(b) ==> raw_row(d).0 == Some((raw_f32(b.pressure), raw_f32(b.temp))),
        d.baro is None <==> raw_row(d).0 is None,
        d.scd matches Some(s) ==> raw_row(d).1 == Some((s.co2, raw_f32(s.humidity), raw_f32(s.temp))),
        d.scd is None <==> raw_row(d).1 is None,
        row_of(raw_row(d)) == d,
{
    raw_row_roundtrip(d);
}

/// The four bytes of a number are its digits to the base 256, the least
/// significant first.
pub proof fn numbers_start_with_their_low_byte(x: F32Bits)
    ensures
        raw_f32(x).0 + raw_f32(x).1 * 0x100 + raw_f32(x).2 * 0x1_0000 + raw_f32(x).3 * 0x100_0000 == x.0,
        f32_of(raw_f32(x)) == x,
{
    lemma_f32_roundtrip(x);
    reveal(raw_f32);
    let v = x.0;
    assert(v % 0x100 + v / 0x100 % 0x100 * 0x100 + v / 0x1_0000 % 0x100 * 0x1_0000 + v / 0x100_0000 * 0x100_0000 == v)
        by (bit_vector);
}

} // verus!
