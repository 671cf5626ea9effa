//! Receiving end of the stream protocol as the data logger speaks it: length
//! prefix, AES-128-GCM, a sequence of rows in the `postcard` format, of any
//! number within the length limit. Rows go to the database flat.

use vstd::prelude::*;

use crate::bytes;
use crate::crypto;
use crate::crypto::Cipher;
use crate::float_bits::F32Bits;
use crate::wire;
use crate::wire::{DecodeFault, EpochMillis, PacketCounter, RawRow, SensorData, LEN_PREFIX, TAG_LEN};

verus! {

/// Longest payload that the logger with a database takes.
pub const DATABASE_LIMIT: usize = 4096;

/// Longest payload that the printing logger takes.
pub const PRINT_LIMIT: usize = 1024;

/// Why a packet is refused.
#[derive(Clone, Copy, PartialEq, Eq, Structural, Debug)]
pub enum LoggerError {
    /// The payload is longer than the logger takes.
    TooBig(usize),
    /// The tag does not match.
    Decrypt,
    /// Decrypted, but not a sequence of rows.
    Decode(DecodeFault),
}

/// A row as the database has it: one column a value, each of which may be null.
#[derive(Clone, Copy, PartialEq, Eq, Structural, Debug)]
pub struct FlatRow {
    pub time: EpochMillis,
    pub pressure: Option<F32Bits>,
    pub temp: Option<F32Bits>,
    pub co2: Option<u16>,
    pub humidity: Option<F32Bits>,
    pub scd_temp: Option<F32Bits>,
}

/// The rows that a payload holds, for a logger.
pub open spec fn logged_rows(key: Seq<u8>, counter: PacketCounter, payload: Seq<u8>) -> Result<
    Seq<SensorData>,
    LoggerError,
> {
    match wire::payload_text(key, counter, payload) {
        None => Err(LoggerError::Decrypt),
        Some(text) => match wire::postcard_row_list(text) {
            Ok(raw) => Ok(wire::rows_of(raw)),
            Err(f) => Err(LoggerError::Decode(f)),
        },
    }
}

/// One connection of a logger: it counts packets from one.
#[derive(Clone, Copy, PartialEq, Eq, Structural, Debug)]
pub struct LoggerStream {
    pub counter: PacketCounter,
    /// Longest payload.
    pub limit: usize,
}

impl LoggerStream {
    /// A new connection.
    pub fn new(limit: usize) -> (s: LoggerStream)
        ensures
            s.counter.0 == 1,
            s.limit == limit,
    {
        LoggerStream { counter: PacketCounter::first(), limit }
    }

    /// The payload length that a prefix states, checked before the payload is
    /// read.
    pub fn payload_len(&self, prefix: [u8; LEN_PREFIX]) -> (r: Result<usize, LoggerError>)
        ensures
            ({
                let n = wire::prefix_len(prefix@);
                r == if n <= self.limit {
                    Ok::<usize, LoggerError>(n as usize)
                } else {
                    Err::<usize, LoggerError>(LoggerError::TooBig(n as usize))
                }
            }),
    {
        let len: usize = bytes::get_be32(&prefix, 0) as usize;
        if len <= self.limit {
            Ok(len)
        } else {
            Err(LoggerError::TooBig(len))
        }
    }

    /// Decrypts a payload in place; gives the length of its plaintext, which
    /// stands at its front. The next payload goes by the next number. After an
    /// error the connection is to be closed.
    pub fn open(&mut self, cipher: &Cipher, payload: &mut [u8]) -> (r: Result<usize, LoggerError>)
        requires
            old(self).counter.0 < u64::MAX,
        ensures
            final(self).limit == old(self).limit,
            final(payload)@.len() == old(payload)@.len(),
            final(payload)@ == wire::opened_payload(cipher.key@, old(self).counter, old(payload)@),
            r matches Ok(n) ==> wire::seals(
                cipher.key@,
                old(self).counter,
                old(payload)@,
                final(payload)@.take(n as int),
            ),
            match (r, wire::payload_text(cipher.key@, old(self).counter, old(payload)@)) {
                (Ok(n), Some(text)) => {
                    &&& n + TAG_LEN == old(payload)@.len()
                    &&& final(payload)@.take(n as int) == text
                    &&& final(self).counter.0 == old(self).counter.0 + 1
                },
                (Err(e), None) => e == LoggerError::Decrypt && final(self).counter == old(self).counter,
                _ => false,
            },
    {
        let len: usize = payload.len();
        if len < TAG_LEN {
            return Err(LoggerError::Decrypt);
        }
        let ghost was = payload@;
        let nonce = self.counter.nonce();
        let n: usize = len - TAG_LEN;
        let mut tag = [0u8; TAG_LEN];
        let (text, tag_bytes) = payload.split_at_mut(n);
        wire::copy_all(&mut tag, tag_bytes);
        let no_aad: [u8; 0] = [];
        assert(no_aad@ =~= Seq::empty());
        assert(text@ + tag@ =~= was);
        let matched = crypto::decrypt(cipher, &nonce, &no_aad, text, &tag);
        if !matched {
            return Err(LoggerError::Decrypt);
        }
        let ghost out = text@;
        self.counter = self.counter.next();
        assert(after_borrow(payload)@.take(n as int) =~= out);
        Ok(n)
    }

    /// Decrypts a payload in place and reads its rows. After an error the
    /// connection is to be closed.
    pub fn read(&mut self, cipher: &Cipher, payload: &mut [u8]) -> (r: Result<Vec<SensorData>, LoggerError>)
        requires
            old(self).counter.0 < u64::MAX,
        ensures
            final(self).limit == old(self).limit,
            final(payload)@ == wire::opened_payload(cipher.key@, old(self).counter, old(payload)@),
            final(self).counter.0 == if r matches Err(e) && e is Decrypt {
                old(self).counter.0 as int
            } else {
                old(self).counter.0 + 1
            },
            match (r, logged_rows(cipher.key@, old(self).counter, old(payload)@)) {
                (Ok(v), Ok(rows)) => v@ == rows && final(self).counter.0 == old(self).counter.0 + 1,
                (Err(e), Err(f)) => e == f,
                _ => false,
            },
    {
        match self.open(cipher, payload) {
            Ok(n) => {
                let (text, _) = payload.split_at(n);
                decode_rows(text)
            },
            Err(e) => Err(e),
        }
    }
}

/// The rows that a plaintext holds.
pub fn decode_rows(text: &[u8]) -> (r: Result<Vec<SensorData>, LoggerError>)
    ensures
        match (r, wire::postcard_row_list(text@)) {
            (Ok(v), Ok(raw)) => v@ == wire::rows_of(raw),
            (Err(e), Err(f)) => e == LoggerError::Decode(f),
            _ => false,
        },
{
    match wire::read_row_list(text) {
        Ok(raw) => Ok(rows(&raw)),
        Err(f) => Err(LoggerError::Decode(f)),
    }
}

/// The rows of serialised shapes.
pub fn rows(raw: &Vec<RawRow>) -> (v: Vec<SensorData>)
    ensures
        v@ == wire::rows_of(raw@),
{
    let mut out: Vec<SensorData> = Vec::new();
    let mut i: usize = 0;
    while i < raw.len()
        invariant
            i <= raw@.len(),
            out@ == wire::rows_of(raw@).take(i as int),
        decreases raw@.len() - i,
    {
        let row = wire::from_raw(&raw[i]);
        out.push(row);
        assert(wire::rows_of(raw@).take(i + 1) =~= wire::rows_of(raw@).take(i as int).push(row));
        i = i + 1;
    }
    assert(wire::rows_of(raw@).take(raw@.len() as int) =~= wire::rows_of(raw@));
    out
}

/// The columns of a row.
pub open spec fn flattened(row: SensorData) -> FlatRow {
    FlatRow {
        time: row.time,
        pressure: match row.baro {
            Some(b) => Some(b.pressure),
            None => None,
        },
        temp: match row.baro {
            Some(b) => Some(b.temp),
            None => None,
        },
        co2: match row.scd {
            Some(s) => Some(s.co2),
            None => None,
        },
        humidity: match row.scd {
            Some(s) => Some(s.humidity),
            None => None,
        },
        scd_temp: match row.scd {
            Some(s) => Some(s.temp),
            None => None,
        },
    }
}

/// The columns of a row.
pub fn flatten(row: &SensorData) -> (f: FlatRow)
    ensures
        f == flattened(*row),
{
    let (pressure, temp) = match row.baro {
        Some(b) => (Some(b.pressure), Some(b.temp)),
        None => (None, None),
    };
    let (co2, humidity, scd_temp) = match row.scd {
        Some(s) => (Some(s.co2), Some(s.humidity), Some(s.temp)),
        None => (None, None, None),
    };
    FlatRow { time: row.time, pressure, temp, co2, humidity, scd_temp }
}

/// The columns of one sensor are all there or all null, and no row loses a value
/// by being flattened.
pub proof fn columns_go_together(row: SensorData, other: SensorData)
    ensures
        flattened(row).pressure is Some <==> flattened(row).temp is Some,
        flattened(row).co2 is Some <==> flattened(row).humidity is Some,
        flattened(row).co2 is Some <==> flattened(row).scd_temp is Some,
        flattened(row) == flattened(other) ==> row == other,
{
}

/// Each column is the value of its own sensor, whatever the other sensor gave,
/// and null exactly where that sensor gave nothing; the time is the row's.
pub proof fn columns_are_the_rows_values(row: SensorData)
    ensures
        flattened(row).time == row.time,
        row.baro matches Some(b) ==> flattened(row).pressure == Some(b.pressure) && flattened(row).temp == Some(b.temp),
        row.baro is None ==> flattened(row).pressure is None && flattened(row).temp is None,
        row.scd matches Some(s) ==> {
            &&& flattened(row).co2 == Some(s.co2)
            &&& flattened(row).humidity == Some(s.humidity)
            &&& flattened(row).scd_temp == Some(s.temp)
        },
        row.scd is None ==> flattened(row).co2 is None && flattened(row).humidity is None && flattened(row).scd_temp
            is None,
{
}

/// A payload gives rows exactly if its tag matches and its plaintext is a list of
/// rows; otherwise the error tells which of the two it was.
pub proof fn logged_rows_are_decrypted_rows(key: Seq<u8>, counter: PacketCounter, payload: Seq<u8>)
    ensures
        wire::payload_text(key, counter, payload) is None ==> logged_rows(key, counter, payload) == Err::<
            Seq<SensorData>,
            LoggerError,
        >(LoggerError::Decrypt),
        wire::payload_text(key, counter, payload) matches Some(text) ==> match wire::postcard_row_list(text) {
            Ok(raw) => logged_rows(key, counter, payload) is Ok && logged_rows(key, counter, payload)->Ok_0.len()
                == raw.len() && forall|i: int|
                0 <= i < raw.len() ==> #[trigger] logged_rows(key, counter, payload)->Ok_0[i] == wire::row_of(raw[i]),
            Err(f) => logged_rows(key, counter, payload) == Err::<Seq<SensorData>, LoggerError>(LoggerError::Decode(f)),
        },
{
}

} // verus!
