//! Codec of readings: fixed point, deltas, variable-length integers.
//!
//! The plaintext of a datagram is the base time (a varint) and then readings to
//! its end, without a count. A reading is a presence byte (bits 0 to 4:
//! pressure, barometer temperature, CO2, humidity, SCD temperature; bits 5 to 7
//! are zero), the time step in milliseconds from the previous reading (of the
//! first one: from the base time) as a zigzag varint, and for each channel that
//! is present the zigzag varint of its difference from the last present value
//! of that same channel.
//!
//! The delta state lives inside one datagram and starts from zeros, so a lost
//! datagram spoils no other.

use vstd::prelude::*;

use crate::float_bits;
use crate::float_bits::F32Bits;
use crate::varint;
use crate::varint::VarintError;
use crate::wire::{EpochMillis, SensorData};

verus! {

/// Pressure in units of 0.01 Pa.
#[derive(Clone, Copy, PartialEq, Eq, Structural, PartialOrd, Ord, Hash, Debug)]
pub struct CentiPascal(pub i32);

/// Temperature in units of 0.001 °C.
#[derive(Clone, Copy, PartialEq, Eq, Structural, PartialOrd, Ord, Hash, Debug)]
pub struct MilliCelsius(pub i32);

/// CO2 concentration in ppm.
#[derive(Clone, Copy, PartialEq, Eq, Structural, PartialOrd, Ord, Hash, Debug)]
pub struct Ppm(pub u16);

/// Relative humidity in units of 0.001 %.
#[derive(Clone, Copy, PartialEq, Eq, Structural, PartialOrd, Ord, Hash, Debug)]
pub struct MilliPercentRh(pub i32);

/// One reading. Each channel may be absent on its own.
#[derive(Clone, Copy, PartialEq, Eq, Structural, Debug)]
pub struct Reading {
    pub time: EpochMillis,
    pub pressure: Option<CentiPascal>,
    pub baro_temp: Option<MilliCelsius>,
    pub co2: Option<Ppm>,
    pub humidity: Option<MilliPercentRh>,
    pub scd_temp: Option<MilliCelsius>,
}

/// Number of channels, and of presence bits.
pub const CHANNELS: usize = 5;

/// Longest reading: presence, time step, four 32-bit channels and CO2.
pub const READING_MAX: usize = 34;

/// Room that holds the base time and at least one reading.
pub const MIN_PLAIN: usize = 44;

/// Why a plaintext does not parse.
#[derive(Clone, Copy, PartialEq, Eq, Structural, Debug)]
pub enum CodecError {
    /// The text ends inside a value.
    Truncated,
    /// A varint wider than 64 bits.
    VarintOverflow,
    /// Reserved bits 5 to 7 of a presence byte are set.
    ReservedPresence(u8),
    /// A channel's value after its delta is outside the range of its type.
    OutOfRange,
}

/// What the deltas of the next reading are taken from.
#[verifier::ext_equal]
pub struct Deltas {
    pub time: u64,
    pub prev: Seq<int>,
}

impl Deltas {
    /// At the start of a datagram every channel counts from zero.
    pub open spec fn start(base: u64) -> Deltas {
        Deltas { time: base, prev: seq![0int, 0, 0, 0, 0] }
    }

    /// Every channel holds a value of its type.
    pub open spec fn wf(self) -> bool {
        &&& self.prev.len() == CHANNELS
        &&& forall|i: int| 0 <= i < CHANNELS ==> #[trigger] fits_channel(i, self.prev[i])
    }

    /// After reading `r`.
    pub open spec fn after(self, r: Reading) -> Deltas {
        Deltas {
            time: r.time.0,
            prev: Seq::new(
                CHANNELS as nat,
                |i: int|
                    match r.values()[i] {
                        Some(v) => v,
                        None => self.prev[i],
                    },
            ),
        }
    }
}

/// Is `v` a value of the type of channel `i`.
pub open spec fn fits_channel(i: int, v: int) -> bool {
    if i == 2 {
        0 <= v <= u16::MAX
    } else {
        i32::MIN <= v <= i32::MAX
    }
}

impl Reading {
    /// The channels in the order of their presence bits.
    pub open spec fn values(self) -> Seq<Option<int>> {
        seq![
            match self.pressure {
                Some(v) => Some(v.0 as int),
                None => None,
            },
            match self.baro_temp {
                Some(v) => Some(v.0 as int),
                None => None,
            },
            match self.co2 {
                Some(v) => Some(v.0 as int),
                None => None,
            },
            match self.humidity {
                Some(v) => Some(v.0 as int),
                None => None,
            },
            match self.scd_temp {
                Some(v) => Some(v.0 as int),
                None => None,
            },
        ]
    }
}

/// Can channel values `ch` stand in a reading.
pub open spec fn values_fit(ch: Seq<Option<int>>) -> bool {
    forall|i: int|
        0 <= i < CHANNELS ==> match #[trigger] ch[i] {
            Some(v) => fits_channel(i, v),
            None => true,
        }
}

/// The reading made of a time and channel values.
pub open spec fn reading_of(time: u64, ch: Seq<Option<int>>) -> Reading {
    Reading {
        time: EpochMillis(time),
        pressure: match ch[0] {
            Some(v) => Some(CentiPascal(v as i32)),
            None => None,
        },
        baro_temp: match ch[1] {
            Some(v) => Some(MilliCelsius(v as i32)),
            None => None,
        },
        co2: match ch[2] {
            Some(v) => Some(Ppm(v as u16)),
            None => None,
        },
        humidity: match ch[3] {
            Some(v) => Some(MilliPercentRh(v as i32)),
            None => None,
        },
        scd_temp: match ch[4] {
            Some(v) => Some(MilliCelsius(v as i32)),
            None => None,
        },
    }
}

/// Weight of presence bit `i`.
pub open spec fn bit_weight(i: int) -> int {
    if i == 0 {
        1
    } else if i == 1 {
        2
    } else if i == 2 {
        4
    } else if i == 3 {
        8
    } else {
        16
    }
}

/// Is channel `i` present under presence byte `p`.
pub open spec fn is_present(p: int, i: int) -> bool {
    p / bit_weight(i) % 2 == 1
}

spec fn weight_if(present: bool, i: int) -> int {
    if present {
        bit_weight(i)
    } else {
        0
    }
}

/// Presence byte: the sum of the weights of the present channels.
pub closed spec fn presence(ch: Seq<Option<int>>) -> int {
    weight_if(ch[0] is Some, 0) + weight_if(ch[1] is Some, 1) + weight_if(ch[2] is Some, 2) + weight_if(
        ch[3] is Some,
        3,
    ) + weight_if(ch[4] is Some, 4)
}

/// A presence byte has the bits of exactly the present channels.
pub proof fn presence_bits(ch: Seq<Option<int>>)
    requires
        ch.len() == CHANNELS,
    ensures
        0 <= presence(ch) < 32,
        forall|i: int| 0 <= i < CHANNELS ==> (is_present(presence(ch), i) <==> #[trigger] ch[i] is Some),
{
}

/// Difference of two times in two's complement.
pub open spec fn time_step(to: u64, from: u64) -> int {
    let d = (to - from) % 0x1_0000_0000_0000_0000;
    if d < 0x8000_0000_0000_0000 {
        d
    } else {
        d - 0x1_0000_0000_0000_0000
    }
}

/// The time that lies `dt` after `from`, modulo 2^64.
pub open spec fn time_after(from: u64, dt: int) -> u64 {
    ((from + dt) % 0x1_0000_0000_0000_0000) as u64
}

/// Deltas of the present channels from channel `i` on.
pub open spec fn channels_text(prev: Seq<int>, ch: Seq<Option<int>>, i: int) -> Seq<u8>
    decreases CHANNELS - i,
{
    if i >= CHANNELS {
        Seq::empty()
    } else {
        match ch[i] {
            Some(v) => varint::varint(varint::spec_zigzag(v - prev[i])) + channels_text(prev, ch, i + 1),
            None => channels_text(prev, ch, i + 1),
        }
    }
}

/// Bytes of reading `r` behind delta state `d`.
pub open spec fn reading_text(d: Deltas, r: Reading) -> Seq<u8> {
    seq![presence(r.values()) as u8] + (varint::varint(varint::spec_zigzag(time_step(r.time.0, d.time)))
        + channels_text(d.prev, r.values(), 0))
}

/// Bytes of readings `rs` behind delta state `d`.
pub open spec fn readings_text(d: Deltas, rs: Seq<Reading>) -> Seq<u8>
    decreases rs.len(),
{
    if rs.len() == 0 {
        Seq::empty()
    } else {
        reading_text(d, rs[0]) + readings_text(d.after(rs[0]), rs.drop_first())
    }
}

/// Delta state behind readings `rs`.
pub open spec fn deltas_after(d: Deltas, rs: Seq<Reading>) -> Deltas
    decreases rs.len(),
{
    if rs.len() == 0 {
        d
    } else {
        deltas_after(d.after(rs[0]), rs.drop_first())
    }
}

/// Plaintext of a datagram: base time and readings.
pub open spec fn plain_text(base: u64, rs: Seq<Reading>) -> Seq<u8> {
    varint::varint(base as nat) + readings_text(Deltas::start(base), rs)
}

/// An unreadable varint as an error of the codec.
pub open spec fn codec_error(e: VarintError) -> CodecError {
    match e {
        VarintError::Truncated => CodecError::Truncated,
        VarintError::Overflow => CodecError::VarintOverflow,
    }
}

/// Reads the channels from `i` on that presence byte `p` announces.
pub open spec fn parse_channels(prev: Seq<int>, p: int, s: Seq<u8>, i: int) -> Result<
    (Seq<Option<int>>, Seq<u8>),
    CodecError,
>
    decreases CHANNELS - i,
{
    if i >= CHANNELS {
        Ok((Seq::empty(), s))
    } else if !is_present(p, i) {
        match parse_channels(prev, p, s, i + 1) {
            Ok((ch, rest)) => Ok((seq![None::<int>] + ch, rest)),
            Err(e) => Err(e),
        }
    } else {
        match varint::parse_varint(s) {
            Err(e) => Err(codec_error(e)),
            Ok((n, tail)) => {
                let v = prev[i] + varint::spec_unzigzag(n);
                if i64::MIN <= v <= i64::MAX {
                    match parse_channels(prev, p, tail, i + 1) {
                        Ok((ch, rest)) => Ok((seq![Some(v)] + ch, rest)),
                        Err(e) => Err(e),
                    }
                } else {
                    Err(CodecError::OutOfRange)
                }
            },
        }
    }
}

/// Reads one reading behind delta state `d`; gives it and the text after it.
pub open spec fn parse_reading(d: Deltas, s: Seq<u8>) -> Result<(Reading, Seq<u8>), CodecError> {
    if s.len() == 0 {
        Err(CodecError::Truncated)
    } else if s[0] >= 32 {
        Err(CodecError::ReservedPresence(s[0]))
    } else {
        match varint::parse_varint(s.drop_first()) {
            Err(e) => Err(codec_error(e)),
            Ok((n, tail)) => match parse_channels(d.prev, s[0] as int, tail, 0) {
                Err(e) => Err(e),
                Ok((ch, rest)) => if values_fit(ch) {
                    Ok((reading_of(time_after(d.time, varint::spec_unzigzag(n)), ch), rest))
                } else {
                    Err(CodecError::OutOfRange)
                },
            },
        }
    }
}

/// Reads readings to the end of the text, or to the first error.
pub open spec fn parse_readings(d: Deltas, s: Seq<u8>) -> Result<Seq<Reading>, CodecError>
    decreases s.len(),
{
    if s.len() == 0 {
        Ok(Seq::empty())
    } else {
        match parse_reading(d, s) {
            Err(e) => Err(e),
            Ok((r, rest)) => {
                proof {
                    lemma_parse_reading_shorter(d, s);
                }
                match parse_readings(d.after(r), rest) {
                    Err(e) => Err(e),
                    Ok(rs) => Ok(seq![r] + rs),
                }
            },
        }
    }
}

/// Reads a plaintext: base time and readings.
pub open spec fn parse_plain(s: Seq<u8>) -> Result<Seq<Reading>, CodecError> {
    match varint::parse_varint(s) {
        Err(e) => Err(codec_error(e)),
        Ok((base, rest)) => parse_readings(Deltas::start(base as u64), rest),
    }
}

proof fn lemma_parse_channels_shape(prev: Seq<int>, p: int, s: Seq<u8>, i: int)
    requires
        0 <= i <= CHANNELS,
    ensures
        parse_channels(prev, p, s, i) matches Ok((ch, rest)) ==> {
            &&& ch.len() == CHANNELS - i
            &&& rest.len() <= s.len()
        },
    decreases CHANNELS - i,
{
    if i < CHANNELS {
        lemma_parse_channels_shape(prev, p, s, i + 1);
        varint::lemma_parse_varint_bounds(s);
        if let Ok((n, tail)) = varint::parse_varint(s) {
            lemma_parse_channels_shape(prev, p, tail, i + 1);
        }
    }
}

/// A reading takes at least one byte of the text.
pub proof fn lemma_parse_reading_shorter(d: Deltas, s: Seq<u8>)
    ensures
        parse_reading(d, s) matches Ok((r, rest)) ==> rest.len() < s.len(),
{
    if s.len() > 0 {
        varint::lemma_parse_varint_bounds(s.drop_first());
        if let Ok((n, tail)) = varint::parse_varint(s.drop_first()) {
            lemma_parse_channels_shape(d.prev, s[0] as int, tail, 0);
        }
    }
}

proof fn lemma_time_roundtrip(to: u64, from: u64)
    ensures
        i64::MIN <= time_step(to, from) <= i64::MAX,
        time_after(from, time_step(to, from)) == to,
{
}

proof fn lemma_zigzag_u64(v: int)
    requires
        i64::MIN <= v <= i64::MAX,
    ensures
        varint::spec_zigzag(v) <= u64::MAX,
        varint::spec_unzigzag(varint::spec_zigzag(v)) == v,
{
}

proof fn lemma_values_fit(r: Reading)
    ensures
        values_fit(r.values()),
        reading_of(r.time.0, r.values()) == r,
        r.values().len() == CHANNELS,
{
    assert(values_fit(r.values()));
    assert(reading_of(r.time.0, r.values()) == r);
}

proof fn lemma_channels_roundtrip(prev: Seq<int>, ch: Seq<Option<int>>, p: int, tail: Seq<u8>, i: int)
    requires
        0 <= i <= CHANNELS,
        ch.len() == CHANNELS,
        prev.len() == CHANNELS,
        values_fit(ch),
        forall|k: int| 0 <= k < CHANNELS ==> #[trigger] fits_channel(k, prev[k]),
        forall|k: int| 0 <= k < CHANNELS ==> (is_present(p, k) <==> #[trigger] ch[k] is Some),
    ensures
        parse_channels(prev, p, channels_text(prev, ch, i) + tail, i) == Ok::<
            (Seq<Option<int>>, Seq<u8>),
            CodecError,
        >((ch.skip(i), tail)),
    decreases CHANNELS - i,
{
    if i >= CHANNELS {
        assert(channels_text(prev, ch, i) + tail =~= tail);
        assert(ch.skip(i) =~= Seq::empty());
    } else {
        lemma_channels_roundtrip(prev, ch, p, tail, i + 1);
        let more = channels_text(prev, ch, i + 1) + tail;
        assert(is_present(p, i) <==> ch[i] is Some);
        match ch[i] {
            Some(v) => {
                assert(fits_channel(i, prev[i]));
                lemma_zigzag_u64(v - prev[i]);
                let n = varint::spec_zigzag(v - prev[i]);
                varint::varint_roundtrip(n, more);
                assert(channels_text(prev, ch, i) + tail =~= varint::varint(n) + more);
                assert(ch.skip(i) =~= seq![Some(v)] + ch.skip(i + 1));
            },
            None => {
                assert(channels_text(prev, ch, i) + tail =~= more);
                assert(ch.skip(i) =~= seq![None::<int>] + ch.skip(i + 1));
            },
        }
    }
}

/// A reading that was written is read back, whatever follows it.
pub proof fn reading_roundtrip(d: Deltas, r: Reading, tail: Seq<u8>)
    requires
        d.wf(),
    ensures
        parse_reading(d, reading_text(d, r) + tail) == Ok::<(Reading, Seq<u8>), CodecError>((r, tail)),
        d.after(r).wf(),
{
    let ch = r.values();
    let p = presence(ch);
    lemma_values_fit(r);
    presence_bits(ch);
    lemma_time_roundtrip(r.time.0, d.time);
    let dt = time_step(r.time.0, d.time);
    lemma_zigzag_u64(dt);
    let more = channels_text(d.prev, ch, 0) + tail;
    let s = reading_text(d, r) + tail;
    assert(s[0] == p as u8);
    assert(s.drop_first() =~= varint::varint(varint::spec_zigzag(dt)) + more);
    varint::varint_roundtrip(varint::spec_zigzag(dt), more);
    lemma_channels_roundtrip(d.prev, ch, p, tail, 0);
    assert(ch.skip(0) =~= ch);
    assert forall|i: int| 0 <= i < CHANNELS implies #[trigger] fits_channel(i, d.after(r).prev[i]) by {
        assert(fits_channel(i, d.prev[i]));
        assert(ch[i] matches Some(v) ==> fits_channel(i, v));
    }
}

/// Readings that were written are read back.
pub proof fn readings_roundtrip(d: Deltas, rs: Seq<Reading>)
    requires
        d.wf(),
    ensures
        parse_readings(d, readings_text(d, rs)) == Ok::<Seq<Reading>, CodecError>(rs),
    decreases rs.len(),
{
    if rs.len() > 0 {
        let tail = readings_text(d.after(rs[0]), rs.drop_first());
        reading_roundtrip(d, rs[0], tail);
        readings_roundtrip(d.after(rs[0]), rs.drop_first());
        assert(seq![rs[0]] + rs.drop_first() =~= rs);
        assert(readings_text(d, rs).len() > 0);
    } else {
        assert(rs =~= Seq::empty());
    }
}

/// A plaintext gives back the readings it was made of: any readings, behind
/// any base time.
pub proof fn plain_roundtrip(base: u64, rs: Seq<Reading>)
    ensures
        parse_plain(plain_text(base, rs)) == Ok::<Seq<Reading>, CodecError>(rs),
{
    varint::varint_roundtrip(base as nat, readings_text(Deltas::start(base), rs));
    assert(Deltas::start(base).wf());
    readings_roundtrip(Deltas::start(base), rs);
}

/// One more reading adds its bytes at the end and moves the delta state on.
pub proof fn readings_text_push(d: Deltas, rs: Seq<Reading>, r: Reading)
    ensures
        readings_text(d, rs.push(r)) == readings_text(d, rs) + reading_text(deltas_after(d, rs), r),
        deltas_after(d, rs.push(r)) == deltas_after(d, rs).after(r),
    decreases rs.len(),
{
    reveal_with_fuel(readings_text, 2);
    reveal_with_fuel(deltas_after, 2);
    let all = rs.push(r);
    if rs.len() == 0 {
        assert(all.drop_first() =~= Seq::empty());
        assert(readings_text(d, all) =~= reading_text(d, r));
        assert(readings_text(d, rs) + reading_text(d, r) =~= reading_text(d, r));
    } else {
        assert(all.drop_first() =~= rs.drop_first().push(r));
        readings_text_push(d.after(rs[0]), rs.drop_first(), r);
        assert(readings_text(d, all) =~= readings_text(d, rs) + reading_text(deltas_after(d, rs), r));
    }
}

/// No reading takes more than [`READING_MAX`] bytes.
pub proof fn reading_len(d: Deltas, r: Reading)
    requires
        d.wf(),
    ensures
        2 <= reading_text(d, r).len() <= READING_MAX,
{
    let ch = r.values();
    lemma_values_fit(r);
    lemma_time_roundtrip(r.time.0, d.time);
    lemma_zigzag_u64(time_step(r.time.0, d.time));
    varint::lemma_varint_len_u64(varint::spec_zigzag(time_step(r.time.0, d.time)));
    reveal_with_fuel(channels_text, 6);
    lemma_delta_len(d, ch, 0);
    lemma_delta_len(d, ch, 1);
    lemma_delta_len(d, ch, 2);
    lemma_delta_len(d, ch, 3);
    lemma_delta_len(d, ch, 4);
}

proof fn lemma_delta_len(d: Deltas, ch: Seq<Option<int>>, i: int)
    requires
        d.wf(),
        values_fit(ch),
        0 <= i < CHANNELS,
    ensures
        ch[i] matches Some(v) ==> varint::varint(varint::spec_zigzag(v - d.prev[i])).len() <= if i == 2 {
            3nat
        } else {
            5
        },
{
    if let Some(v) = ch[i] {
        assert(fits_channel(i, d.prev[i]));
        reveal_with_fuel(varint::pow128, 6);
        varint::lemma_varint_len(
            varint::spec_zigzag(v - d.prev[i]),
            if i == 2 {
                3
            } else {
                5
            },
        );
    }
}

impl Reading {
    /// Is there any channel at all. An empty reading is not queued.
    pub fn has_any_channel(&self) -> (any: bool)
        ensures
            any <==> exists|i: int| 0 <= i < CHANNELS && #[trigger] self.values()[i] is Some,
    {
        let any = self.pressure.is_some() || self.baro_temp.is_some() || self.co2.is_some()
            || self.humidity.is_some() || self.scd_temp.is_some();
        proof {
            let ch = self.values();
            assert(ch[0] is Some <==> self.pressure is Some);
            assert(ch[1] is Some <==> self.baro_temp is Some);
            assert(ch[2] is Some <==> self.co2 is Some);
            assert(ch[3] is Some <==> self.humidity is Some);
            assert(ch[4] is Some <==> self.scd_temp is Some);
        }
        any
    }

    /// The channels in the order of their presence bits, widened for deltas.
    fn channels(&self) -> (ch: [Option<i64>; CHANNELS])
        ensures
            widened(ch@) == self.values(),
    {
        let pressure = match self.pressure {
            Some(v) => Some(v.0 as i64),
            None => None,
        };
        let baro_temp = match self.baro_temp {
            Some(v) => Some(v.0 as i64),
            None => None,
        };
        let co2 = match self.co2 {
            Some(v) => Some(v.0 as i64),
            None => None,
        };
        let humidity = match self.humidity {
            Some(v) => Some(v.0 as i64),
            None => None,
        };
        let scd_temp = match self.scd_temp {
            Some(v) => Some(v.0 as i64),
            None => None,
        };
        let ch = [pressure, baro_temp, co2, humidity, scd_temp];
        assert(widened(ch@) =~= self.values());
        ch
    }

    /// The reading made of a time and channel values, if each fits its type.
    fn from_channels(time: EpochMillis, ch: [Option<i64>; CHANNELS]) -> (r: Result<Reading, CodecError>)
        ensures
            values_fit(widened(ch@)) ==> r == Ok::<Reading, CodecError>(reading_of(time.0, widened(ch@))),
            !values_fit(widened(ch@)) ==> r == Err::<Reading, CodecError>(CodecError::OutOfRange),
    {
        let ghost w = widened(ch@);
        assert(w.len() == CHANNELS);
        assert(forall|i: int| 0 <= i < CHANNELS ==> #[trigger] w[i] == widen(ch@[i]));
        let (pressure, baro_temp, co2, humidity, scd_temp) = match (
            narrow_i32(ch[0]),
            narrow_i32(ch[1]),
            narrow_u16(ch[2]),
            narrow_i32(ch[3]),
            narrow_i32(ch[4]),
        ) {
            (Ok(a), Ok(b), Ok(c), Ok(d), Ok(e)) => (a, b, c, d, e),
            _ => {
                assert(!values_fit(w)) by {
                    if values_fit(w) {
                        assert(w[0] == widen(ch@[0]));
                        assert(w[1] == widen(ch@[1]));
                        assert(w[2] == widen(ch@[2]));
                        assert(w[3] == widen(ch@[3]));
                        assert(w[4] == widen(ch@[4]));
                    }
                }
                return Err(CodecError::OutOfRange);
            },
        };
        assert(values_fit(w)) by {
            assert forall|i: int| 0 <= i < CHANNELS implies match #[trigger] w[i] {
                Some(v) => fits_channel(i, v),
                None => true,
            } by {
                assert(i == 0 || i == 1 || i == 2 || i == 3 || i == 4);
            }
        }
        assert(w[0] == widen(ch@[0]));
        Ok(
            Reading {
                time,
                pressure: match pressure {
                    Some(v) => Some(CentiPascal(v)),
                    None => None,
                },
                baro_temp: match baro_temp {
                    Some(v) => Some(MilliCelsius(v)),
                    None => None,
                },
                co2: match co2 {
                    Some(v) => Some(Ppm(v)),
                    None => None,
                },
                humidity: match humidity {
                    Some(v) => Some(MilliPercentRh(v)),
                    None => None,
                },
                scd_temp: match scd_temp {
                    Some(v) => Some(MilliCelsius(v)),
                    None => None,
                },
            },
        )
    }
}

spec fn widen(v: Option<i64>) -> Option<int> {
    match v {
        Some(v) => Some(v as int),
        None => None,
    }
}

spec fn widened(ch: Seq<Option<i64>>) -> Seq<Option<int>> {
    Seq::new(ch.len(), |i: int| widen(ch[i]))
}

fn narrow_i32(v: Option<i64>) -> (r: Result<Option<i32>, ()>)
    ensures
        match v {
            None => r == Ok::<Option<i32>, ()>(None),
            Some(x) => if i32::MIN <= x <= i32::MAX {
                r == Ok::<Option<i32>, ()>(Some(x as i32))
            } else {
                r is Err
            },
        },
{
    match v {
        None => Ok(None),
        Some(x) => if x < i32::MIN as i64 || x > i32::MAX as i64 {
            Err(())
        } else {
            Ok(Some(x as i32))
        },
    }
}

fn narrow_u16(v: Option<i64>) -> (r: Result<Option<u16>, ()>)
    ensures
        match v {
            None => r == Ok::<Option<u16>, ()>(None),
            Some(x) => if 0 <= x <= u16::MAX {
                r == Ok::<Option<u16>, ()>(Some(x as u16))
            } else {
                r is Err
            },
        },
{
    match v {
        None => Ok(None),
        Some(x) => if x < 0 || x > u16::MAX as i64 {
            Err(())
        } else {
            Ok(Some(x as u16))
        },
    }
}

/// Greedy encoder of the plaintext of one datagram. It writes into the buffer
/// it was given, as long as the longest possible reading still fits.
pub struct Encoder<'a> {
    pub buf: &'a mut [u8],
    pub len: usize,
    pub prev_time: EpochMillis,
    pub prev: [i64; CHANNELS],
}

/// Machine integers as mathematical ones.
pub open spec fn ints(a: Seq<i64>) -> Seq<int> {
    Seq::new(a.len(), |i: int| a[i] as int)
}

impl<'a> Encoder<'a> {
    /// The whole buffer.
    pub open spec fn whole(&self) -> Seq<u8> {
        self.buf@
    }

    /// The plaintext so far.
    pub open spec fn text(&self) -> Seq<u8> {
        self.buf@.take(self.len as int)
    }

    /// The buffer behind the plaintext.
    pub open spec fn rest(&self) -> Seq<u8> {
        self.buf@.skip(self.len as int)
    }

    /// What the next reading's deltas are taken from.
    pub open spec fn deltas(&self) -> Deltas {
        Deltas { time: self.prev_time.0, prev: ints(self.prev@) }
    }

    /// The text lies inside the buffer, and the delta state holds values of the
    /// channels' types.
    pub open spec fn wf(&self) -> bool {
        self.len <= self.buf@.len() && self.deltas().wf()
    }

    /// Has the encoder written exactly `rs` behind base time `base`.
    pub open spec fn holds(&self, base: u64, rs: Seq<Reading>) -> bool {
        &&& self.text() == plain_text(base, rs)
        &&& self.deltas() == deltas_after(Deltas::start(base), rs)
    }

    /// An encoder over `buf`. `base` is the time of the datagram's first
    /// reading, whose step is then zero.
    pub fn new(buf: &'a mut [u8], base: EpochMillis) -> (e: Encoder<'a>)
        requires
            old(buf)@.len() >= MIN_PLAIN,
        ensures
            e.wf(),
            e.holds(base.0, Seq::empty()),
            e.text().len() <= varint::VARINT_U64_MAX,
            e.buf@.len() == old(buf)@.len(),
            e.rest() == old(buf)@.skip(e.text().len() as int),
            final(e.buf)@ == final(buf)@,
    {
        let mut e = Encoder { buf, len: 0, prev_time: base, prev: [0i64; CHANNELS] };
        proof {
            varint::lemma_varint_len_u64(base.0 as nat);
            assert(ints(e.prev@) =~= Deltas::start(base.0).prev);
            assert(e.text() =~= Seq::empty());
        }
        e.put_varint(base.0);
        assert(e.text() =~= plain_text(base.0, Seq::empty()));
        assert(deltas_after(Deltas::start(base.0), Seq::empty()) == Deltas::start(base.0));
        e
    }

    /// Length of the plaintext.
    pub fn plain_len(&self) -> (n: usize)
        requires
            self.wf(),
        ensures
            n == self.text().len(),
            n <= self.whole().len(),
            self.text() == self.whole().take(n as int),
    {
        self.len
    }

    /// Adds a reading. `false`: there is no room for the longest reading, and
    /// nothing was written. Behind the plaintext nothing is ever written.
    pub fn push(&mut self, r: &Reading) -> (added: bool)
        requires
            old(self).wf(),
        ensures
            final(self).wf(),
            added <==> old(self).buf@.len() - old(self).text().len() >= READING_MAX,
            added ==> {
                &&& final(self).text() == old(self).text() + reading_text(old(self).deltas(), *r)
                &&& final(self).deltas() == old(self).deltas().after(*r)
                &&& old(self).text().len() + 2 <= final(self).text().len() <= old(self).text().len() + READING_MAX
                &&& final(self).rest() == old(self).whole().skip(final(self).text().len() as int)
            },
            !added ==> {
                &&& final(self).whole() == old(self).whole()
                &&& final(self).text() == old(self).text()
                &&& final(self).deltas() == old(self).deltas()
            },
            final(self).buf@.len() == old(self).buf@.len(),
            final(final(self).buf)@ == final(old(self).buf)@,
    {
        if self.buf.len() - self.len < READING_MAX {
            return false;
        }
        let channels = r.channels();
        let ghost start = *self;
        let ghost d = self.deltas();
        let ghost ch = r.values();
        proof {
            lemma_values_fit(*r);
            reading_len(d, *r);
            presence_bits(ch);
            lemma_time_roundtrip(r.time.0, d.time);
            lemma_zigzag_u64(time_step(r.time.0, d.time));
        }
        let p = presence_byte(&channels);
        self.put_byte(p);
        let dt = step_between(r.time.0, self.prev_time.0);
        let ghost head = seq![p] + varint::varint(varint::spec_zigzag(dt as int));
        assert(reading_text(d, *r) =~= head + channels_text(d.prev, ch, 0));
        let ghost mid = self.whole();
        let ghost at = self.len as int;
        self.put_varint(varint::zigzag(dt));
        self.prev_time = r.time;
        proof {
            lemma_same_rest(mid, start.whole(), at, self.len as int);
        }
        assert(self.text() =~= start.text() + head);
        let ghost mut done: Seq<u8> = Seq::empty();
        let mut i: usize = 0;
        assert(head + done =~= head);
        while i < CHANNELS
            invariant
                i <= CHANNELS,
                d == start.deltas(),
                d.wf(),
                self.len <= self.buf@.len(),
                self.prev@.len() == CHANNELS,
                widened(channels@) == ch,
                ch.len() == CHANNELS,
                values_fit(ch),
                ch == r.values(),
                self.prev_time == r.time,
                channels_text(d.prev, ch, 0) == done + channels_text(d.prev, ch, i as int),
                self.text() == start.text() + (head + done),
                start.text().len() + head.len() + channels_text(d.prev, ch, 0).len() <= self.buf@.len(),
                self.buf@.len() == start.buf@.len(),
                self.rest() == start.whole().skip(self.len as int),
                final(self.buf)@ == final(start.buf)@,
                forall|k: int| 0 <= k < i ==> #[trigger] self.prev@[k] == d.after(*r).prev[k],
                forall|k: int| i <= k < CHANNELS ==> #[trigger] self.prev@[k] == d.prev[k],
            decreases CHANNELS - i,
        {
            let ghost before = done;
            assert(ch[i as int] == widen(channels@[i as int]));
            assert(self.prev@[i as int] == d.prev[i as int]);
            assert(fits_channel(i as int, d.prev[i as int]));
            if let Some(v) = channels[i] {
                let delta: i64 = v - self.prev[i];
                proof {
                    lemma_zigzag_u64(delta as int);
                    let b = varint::varint(varint::spec_zigzag(delta as int));
                    done = before + b;
                    assert(done + channels_text(d.prev, ch, i + 1) =~= before + channels_text(
                        d.prev,
                        ch,
                        i as int,
                    ));
                    assert(start.text() + (head + done) =~= start.text() + (head + before) + b);
                }
                let ghost mid = self.whole();
                let ghost at = self.len as int;
                self.put_varint(varint::zigzag(delta));
                self.prev[i] = v;
                proof {
                    lemma_same_rest(mid, start.whole(), at, self.len as int);
                }
            }
            assert(d.after(*r).prev[i as int] == self.prev@[i as int]);
            i = i + 1;
        }
        proof {
            assert(done + channels_text(d.prev, ch, 5) =~= done);
            reading_roundtrip(d, *r, Seq::empty());
            assert(ints(self.prev@) =~= d.after(*r).prev);
            assert(self.text() =~= start.text() + reading_text(d, *r));
        }
        true
    }

    fn put_byte(&mut self, b: u8)
        requires
            old(self).len < old(self).buf@.len(),
        ensures
            final(self).len == old(self).len + 1,
            final(self).text() == old(self).text().push(b),
            final(self).rest() == old(self).whole().skip(final(self).len as int),
            final(self).buf@.len() == old(self).buf@.len(),
            final(self).prev_time == old(self).prev_time,
            final(self).prev == old(self).prev,
            final(final(self).buf)@ == final(old(self).buf)@,
    {
        let ghost before = self.text();
        let ghost was = self.whole();
        self.buf[self.len] = b;
        self.len = self.len + 1;
        assert(self.text() =~= before.push(b));
        assert(self.rest() =~= was.skip(self.len as int));
    }

    fn put_varint(&mut self, v: u64)
        requires
            old(self).len + varint::varint(v as nat).len() <= old(self).buf@.len(),
        ensures
            final(self).len == old(self).len + varint::varint(v as nat).len(),
            final(self).text() == old(self).text() + varint::varint(v as nat),
            final(self).rest() == old(self).whole().skip(final(self).len as int),
            final(self).buf@.len() == old(self).buf@.len(),
            final(self).prev_time == old(self).prev_time,
            final(self).prev == old(self).prev,
            final(final(self).buf)@ == final(old(self).buf)@,
    {
        let ghost start = *self;
        let ghost mut done: Seq<u8> = Seq::empty();
        let mut rest: u64 = v;
        while rest >= 0x80
            invariant
                done + varint::varint(rest as nat) == varint::varint(v as nat),
                self.len == start.len + done.len(),
                start.len + varint::varint(v as nat).len() <= self.buf@.len(),
                self.text() == start.text() + done,
                self.rest() == start.whole().skip(self.len as int),
                self.buf@.len() == start.buf@.len(),
                self.prev_time == start.prev_time,
                self.prev == start.prev,
                final(self.buf)@ == final(start.buf)@,
            decreases rest,
        {
            let b: u8 = (rest % 128) as u8 + 128;
            assert(varint::varint(rest as nat) == seq![b] + varint::varint(rest as nat / 128));
            proof {
                varint::lemma_varint_len_u64((rest / 128) as nat);
            }
            let ghost mid = self.whole();
            let ghost at = self.len as int;
            self.put_byte(b);
            proof {
                lemma_same_rest(mid, start.whole(), at, self.len as int);
                let before = done;
                done = before.push(b);
                assert(done + varint::varint((rest / 128) as nat) =~= before + varint::varint(rest as nat));
                assert(start.text() + done =~= (start.text() + before).push(b));
            }
            rest = rest / 128;
        }
        let ghost mid = self.whole();
        let ghost at = self.len as int;
        self.put_byte(rest as u8);
        proof {
            lemma_same_rest(mid, start.whole(), at, self.len as int);
        }
        assert(start.text() + varint::varint(v as nat) =~= (start.text() + done).push(rest as u8));
    }
}

proof fn lemma_same_rest(a: Seq<u8>, b: Seq<u8>, i: int, j: int)
    requires
        0 <= i <= j <= a.len(),
        a.len() == b.len(),
        a.skip(i) == b.skip(i),
    ensures
        a.skip(j) == b.skip(j),
{
    assert(a.skip(j) =~= a.skip(i).skip(j - i));
    assert(b.skip(j) =~= b.skip(i).skip(j - i));
}

fn presence_byte(channels: &[Option<i64>; CHANNELS]) -> (p: u8)
    ensures
        p == presence(widened(channels@)),
{
    let ghost w = widened(channels@);
    assert(forall|i: int| 0 <= i < CHANNELS ==> #[trigger] w[i] == widen(channels@[i]));
    assert(w[0] == widen(channels@[0]) && w[1] == widen(channels@[1]) && w[2] == widen(channels@[2]) && w[3]
        == widen(channels@[3]) && w[4] == widen(channels@[4]));
    let mut p: u8 = 0;
    if channels[0].is_some() {
        p = p + 1;
    }
    if channels[1].is_some() {
        p = p + 2;
    }
    if channels[2].is_some() {
        p = p + 4;
    }
    if channels[3].is_some() {
        p = p + 8;
    }
    if channels[4].is_some() {
        p = p + 16;
    }
    p
}

fn step_between(to: u64, from: u64) -> (dt: i64)
    ensures
        dt == time_step(to, from),
{
    let d: u64 = to.wrapping_sub(from);
    if d < 0x8000_0000_0000_0000 {
        d as i64
    } else {
        (d - 0x8000_0000_0000_0000) as i64 + i64::MIN
    }
}

fn step_from(from: u64, dt: i64) -> (to: u64)
    ensures
        to == time_after(from, dt as int),
{
    let d: u64 = if dt >= 0 {
        dt as u64
    } else {
        (dt - i64::MIN) as u64 + 0x8000_0000_0000_0000
    };
    from.wrapping_add(d)
}

impl CentiPascal {
    /// Units in a pascal.
    pub const PER_PASCAL: u32 = 100;

    /// Rounded from pascals; `None` for what is not finite or does not fit.
    pub fn from_pascal(pa: F32Bits) -> (r: Option<CentiPascal>)
        ensures
            match (r, float_bits::fixed_point(pa, CentiPascal::PER_PASCAL as nat)) {
                (Some(a), Some(b)) => a.0 == b,
                (None, None) => true,
                _ => false,
            },
    {
        match float_bits::scaled(pa, Self::PER_PASCAL) {
            Some(v) => Some(CentiPascal(v)),
            None => None,
        }
    }
}

impl MilliCelsius {
    /// Units in a degree.
    pub const PER_CELSIUS: u32 = 1000;

    /// Rounded from degrees; `None` for what is not finite or does not fit.
    pub fn from_celsius(c: F32Bits) -> (r: Option<MilliCelsius>)
        ensures
            match (r, float_bits::fixed_point(c, MilliCelsius::PER_CELSIUS as nat)) {
                (Some(a), Some(b)) => a.0 == b,
                (None, None) => true,
                _ => false,
            },
    {
        match float_bits::scaled(c, Self::PER_CELSIUS) {
            Some(v) => Some(MilliCelsius(v)),
            None => None,
        }
    }
}

impl MilliPercentRh {
    /// Units in a percent.
    pub const PER_PERCENT: u32 = 1000;

    /// Rounded from percents; `None` for what is not finite or does not fit.
    pub fn from_percent(rh: F32Bits) -> (r: Option<MilliPercentRh>)
        ensures
            match (r, float_bits::fixed_point(rh, MilliPercentRh::PER_PERCENT as nat)) {
                (Some(a), Some(b)) => a.0 == b,
                (None, None) => true,
                _ => false,
            },
    {
        match float_bits::scaled(rh, Self::PER_PERCENT) {
            Some(v) => Some(MilliPercentRh(v)),
            None => None,
        }
    }
}

/// The fixed-point channels of a row of measurements. A channel is absent where
/// its sensor is, or where its value cannot be put into fixed point.
pub open spec fn row_values(row: SensorData) -> Seq<Option<int>> {
    seq![
        match row.baro {
            Some(b) => float_bits::fixed_point(b.pressure, CentiPascal::PER_PASCAL as nat),
            None => None,
        },
        match row.baro {
            Some(b) => float_bits::fixed_point(b.temp, MilliCelsius::PER_CELSIUS as nat),
            None => None,
        },
        match row.scd {
            Some(s) => Some(s.co2 as int),
            None => None,
        },
        match row.scd {
            Some(s) => float_bits::fixed_point(s.humidity, MilliPercentRh::PER_PERCENT as nat),
            None => None,
        },
        match row.scd {
            Some(s) => float_bits::fixed_point(s.temp, MilliCelsius::PER_CELSIUS as nat),
            None => None,
        },
    ]
}

/// A pressure in hundredths of a pascal.
pub open spec fn scaled_pascal(x: F32Bits) -> Option<CentiPascal> {
    match float_bits::fixed_point(x, 100) {
        Some(v) => Some(CentiPascal(v as i32)),
        None => None,
    }
}

/// A temperature in thousandths of a degree.
pub open spec fn scaled_celsius(x: F32Bits) -> Option<MilliCelsius> {
    match float_bits::fixed_point(x, 1000) {
        Some(v) => Some(MilliCelsius(v as i32)),
        None => None,
    }
}

/// A humidity in thousandths of a percent.
pub open spec fn scaled_percent(x: F32Bits) -> Option<MilliPercentRh> {
    match float_bits::fixed_point(x, 1000) {
        Some(v) => Some(MilliPercentRh(v as i32)),
        None => None,
    }
}

impl Reading {
    /// The reading of a row of measurements; `None`: no channel is left, and the
    /// row is not queued.
    pub fn from_row(row: &SensorData) -> (r: Option<Reading>)
        ensures
            match r {
                Some(reading) => {
                    &&& reading.time == row.time
                    &&& reading.values() == row_values(*row)
                    &&& exists|i: int| 0 <= i < CHANNELS && #[trigger] reading.values()[i] is Some
                },
                None => forall|i: int| 0 <= i < CHANNELS ==> #[trigger] row_values(*row)[i] is None,
            },
            row.scd matches Some(m) ==> {
                &&& r is Some
                &&& r->0.co2 == Some(Ppm(m.co2))
                &&& r->0.humidity == scaled_percent(m.humidity)
                &&& r->0.scd_temp == scaled_celsius(m.temp)
            },
            row.scd is None ==> r is None || (r->0.co2 is None && r->0.humidity is None && r->0.scd_temp is None),
            row.baro matches Some(b) && r is Some ==> {
                &&& r->0.pressure == scaled_pascal(row.baro->0.pressure)
                &&& r->0.baro_temp == scaled_celsius(row.baro->0.temp)
            },
            row.baro is None ==> r is None || (r->0.pressure is None && r->0.baro_temp is None),
            r is None ==> row.scd is None && (row.baro matches Some(b) ==> scaled_pascal(row.baro->0.pressure) is None
                && scaled_celsius(row.baro->0.temp) is None),
    {
        let (pressure, baro_temp) = match row.baro {
            Some(b) => (CentiPascal::from_pascal(b.pressure), MilliCelsius::from_celsius(b.temp)),
            None => (None, None),
        };
        let (co2, humidity, scd_temp) = match row.scd {
            Some(s) => (
                Some(Ppm(s.co2)),
                MilliPercentRh::from_percent(s.humidity),
                MilliCelsius::from_celsius(s.temp),
            ),
            None => (None, None, None),
        };
        let reading = Reading { time: row.time, pressure, baro_temp, co2, humidity, scd_temp };
        assert(reading.values() =~= row_values(*row));
        if reading.has_any_channel() {
            Some(reading)
        } else {
            None
        }
    }
}

/// The readings of one plaintext, taken one by one. After the first error
/// there are no more.
pub struct Readings<'a> {
    rest: &'a [u8],
    prev_time: EpochMillis,
    prev: [i64; CHANNELS],
    failed: bool,
}

/// Starts to read a plaintext: takes its base time.
pub fn decode(plain: &[u8]) -> (r: Result<Readings<'_>, CodecError>)
    ensures
        match (r, varint::parse_varint(plain@)) {
            (Ok(readings), Ok((base, rest))) => {
                &&& readings.wf()
                &&& !readings.stopped()
                &&& readings.text() == rest
                &&& readings.deltas() == Deltas::start(base as u64)
            },
            (Err(e), Err(f)) => e == codec_error(f),
            _ => false,
        },
        match r {
            Ok(readings) => readings.remaining() == parse_plain(plain@),
            Err(e) => parse_plain(plain@) == Err::<Seq<Reading>, CodecError>(e),
        },
{
    match varint::take_varint(plain) {
        Ok((base, rest)) => {
            let r = Readings { rest, prev_time: EpochMillis(base), prev: [0i64; CHANNELS], failed: false };
            assert(ints(r.prev@) =~= Deltas::start(base).prev);
            Ok(r)
        },
        Err(VarintError::Truncated) => Err(CodecError::Truncated),
        Err(VarintError::Overflow) => Err(CodecError::VarintOverflow),
    }
}

fn take_varint(rest: &[u8]) -> (r: Result<(u64, &[u8]), CodecError>)
    ensures
        match (r, varint::parse_varint(rest@)) {
            (Ok((v, tail)), Ok((w, t))) => v == w && tail@ == t,
            (Err(e), Err(f)) => e == codec_error(f),
            _ => false,
        },
{
    match varint::take_varint(rest) {
        Ok(taken) => Ok(taken),
        Err(VarintError::Truncated) => Err(CodecError::Truncated),
        Err(VarintError::Overflow) => Err(CodecError::VarintOverflow),
    }
}

fn has_bit(p: u8, i: usize) -> (b: bool)
    requires
        i < CHANNELS,
    ensures
        b == is_present(p as int, i as int),
{
    let weight: u8 = if i == 0 {
        1
    } else if i == 1 {
        2
    } else if i == 2 {
        4
    } else if i == 3 {
        8
    } else {
        16
    };
    p / weight % 2 == 1
}

impl<'a> Readings<'a> {
    /// The text that is left.
    pub closed spec fn text(&self) -> Seq<u8> {
        self.rest@
    }

    /// What the next reading's deltas are taken from.
    pub closed spec fn deltas(&self) -> Deltas {
        Deltas { time: self.prev_time.0, prev: ints(self.prev@) }
    }

    /// Has an error come already.
    pub closed spec fn stopped(&self) -> bool {
        self.failed
    }

    /// Until an error comes, the delta state holds values of the channels' types.
    pub closed spec fn wf(&self) -> bool {
        self.failed || self.deltas().wf()
    }

    /// All that is still to come.
    pub open spec fn remaining(&self) -> Result<Seq<Reading>, CodecError> {
        if self.stopped() {
            Ok(Seq::empty())
        } else {
            parse_readings(self.deltas(), self.text())
        }
    }

    fn next_reading(&mut self) -> (r: Result<Reading, CodecError>)
        requires
            old(self).deltas().wf(),
        ensures
            final(self).failed == old(self).failed,
            match (r, parse_reading(old(self).deltas(), old(self).text())) {
                (Ok(a), Ok((b, rest))) => {
                    &&& a == b
                    &&& final(self).text() == rest
                    &&& final(self).deltas() == old(self).deltas().after(a)
                },
                (Err(e), Err(f)) => e == f,
                _ => false,
            },
    {
        if self.rest.len() == 0 {
            return Err(CodecError::Truncated);
        }
        let ghost d = self.deltas();
        let ghost text = self.text();
        let presence: u8 = self.rest[0];
        if presence >= 32 {
            return Err(CodecError::ReservedPresence(presence));
        }
        let tail = vstd::slice::slice_subrange(self.rest, 1, self.rest.len());
        assert(tail@ =~= text.drop_first());
        let (n, tail) = match take_varint(tail) {
            Ok(taken) => taken,
            Err(e) => {
                return Err(e);
            },
        };
        self.rest = tail;
        proof {
            varint::lemma_parse_varint_bounds(text.drop_first());
        }
        let time = EpochMillis(step_from(self.prev_time.0, varint::unzigzag(n)));
        self.prev_time = time;
        let ghost all = parse_channels(d.prev, presence as int, tail@, 0);
        let mut channels: [Option<i64>; CHANNELS] = [None; CHANNELS];
        let mut i: usize = 0;
        while i < CHANNELS
            invariant
                i <= CHANNELS,
                d.wf(),
                channels@.len() == CHANNELS,
                self.prev@.len() == CHANNELS,
                self.failed == old(self).failed,
                self.prev_time == time,
                forall|k: int|
                    0 <= k < i ==> #[trigger] self.prev@[k] == match channels@[k] {
                        Some(v) => v as int,
                        None => d.prev[k],
                    },
                forall|k: int| i <= k < CHANNELS ==> #[trigger] self.prev@[k] == d.prev[k],
                match (all, parse_channels(d.prev, presence as int, self.rest@, i as int)) {
                    (Ok((ch, rest)), Ok((more, left))) => {
                        &&& ch == widened(channels@).take(i as int) + more
                        &&& rest == left
                    },
                    (Err(e), Err(f)) => e == f,
                    _ => false,
                },
                all == parse_channels(d.prev, presence as int, tail@, 0),
                parse_reading(d, text) == match all {
                    Err(e) => Err::<(Reading, Seq<u8>), CodecError>(e),
                    Ok((ch, rest)) => if values_fit(ch) {
                        Ok((reading_of(time.0, ch), rest))
                    } else {
                        Err(CodecError::OutOfRange)
                    },
                },
                d == old(self).deltas(),
                text == old(self).text(),
            decreases CHANNELS - i,
        {
            let ghost before = widened(channels@).take(i as int);
            let ghost here = self.rest@;
            assert(self.prev@[i as int] == d.prev[i as int]);
            proof {
                lemma_parse_channels_shape(d.prev, presence as int, here, i as int);
            }
            if has_bit(presence, i) {
                let (n, tail) = match take_varint(self.rest) {
                    Ok(taken) => taken,
                    Err(e) => {
                        return Err(e);
                    },
                };
                self.rest = tail;
                proof {
                    varint::lemma_parse_varint_bounds(here);
                }
                let delta: i64 = varint::unzigzag(n);
                let v: i64 = match self.prev[i].checked_add(delta) {
                    Some(v) => v,
                    None => {
                        return Err(CodecError::OutOfRange);
                    },
                };
                self.prev[i] = v;
                channels[i] = Some(v);
                assert(widened(channels@).take(i + 1) =~= before + seq![Some(v as int)]);
            } else {
                channels[i] = None;
                assert(widened(channels@).take(i + 1) =~= before + seq![None::<int>]);
            }
            proof {
                if let Ok((more, left)) = parse_channels(d.prev, presence as int, self.rest@, i + 1) {
                    let c = widen(channels@[i as int]);
                    assert(before + (seq![c] + more) =~= before + seq![c] + more);
                }
            }
            i = i + 1;
        }
        assert(widened(channels@).take(5) + Seq::empty() =~= widened(channels@));
        let r = Reading::from_channels(time, channels);
        proof {
            let w = widened(channels@);
            if values_fit(w) {
                lemma_reading_of(time.0, w);
                assert forall|k: int| 0 <= k < CHANNELS implies self.prev@[k] == d.after(
                    reading_of(time.0, w),
                ).prev[k] by {
                    assert(w[k] == widen(channels@[k]));
                }
                assert(ints(self.prev@) =~= d.after(reading_of(time.0, w)).prev);
            }
        }
        r
    }

    /// The next reading, or the error that ends them.
    pub fn next(&mut self) -> (r: Option<Result<Reading, CodecError>>)
        requires
            old(self).wf(),
        ensures
            final(self).wf(),
            old(self).stopped() || old(self).text().len() == 0 ==> r is None && *final(self) == *old(self),
            !old(self).stopped() && old(self).text().len() > 0 ==> match parse_reading(
                old(self).deltas(),
                old(self).text(),
            ) {
                Ok((a, rest)) => {
                    &&& r == Some(Ok::<Reading, CodecError>(a))
                    &&& !final(self).stopped()
                    &&& final(self).text() == rest
                    &&& final(self).deltas() == old(self).deltas().after(a)
                },
                Err(e) => r == Some(Err::<Reading, CodecError>(e)) && final(self).stopped(),
            },
    {
        if self.failed || self.rest.len() == 0 {
            return None;
        }
        let item = self.next_reading();
        proof {
            if let Ok(r) = item {
                lemma_after_wf(old(self).deltas(), r);
            }
        }
        self.failed = item.is_err();
        Some(item)
    }

    /// All the readings that are left, or the first error.
    pub fn collect(self) -> (r: Result<Vec<Reading>, CodecError>)
        requires
            self.wf(),
        ensures
            match (r, self.remaining()) {
                (Ok(v), Ok(rs)) => v@ == rs,
                (Err(e), Err(f)) => e == f,
                _ => false,
            },
    {
        let mut left = self;
        let mut out: Vec<Reading> = Vec::new();
        loop
            invariant
                left.wf(),
                !left.stopped() || left.remaining() == Ok::<Seq<Reading>, CodecError>(Seq::empty()),
                match (self.remaining(), left.remaining()) {
                    (Ok(rs), Ok(more)) => rs == out@ + more,
                    (Err(e), Err(f)) => e == f,
                    _ => false,
                },
            decreases left.text().len(),
        {
            let ghost before = left;
            proof {
                lemma_parse_reading_shorter(left.deltas(), left.text());
            }
            match left.next() {
                None => {
                    return Ok(out);
                },
                Some(Err(e)) => {
                    return Err(e);
                },
                Some(Ok(r)) => {
                    let ghost had = out@;
                    out.push(r);
                    proof {
                        if let Ok(more) = left.remaining() {
                            assert(had + (seq![r] + more) =~= had.push(r) + more);
                        }
                    }
                },
            }
        }
    }
}

proof fn lemma_reading_of(time: u64, ch: Seq<Option<int>>)
    requires
        ch.len() == CHANNELS,
        values_fit(ch),
    ensures
        reading_of(time, ch).values() == ch,
        reading_of(time, ch).time.0 == time,
{
    assert(ch[0] matches Some(v) ==> fits_channel(0, v));
    assert(ch[1] matches Some(v) ==> fits_channel(1, v));
    assert(ch[2] matches Some(v) ==> fits_channel(2, v));
    assert(ch[3] matches Some(v) ==> fits_channel(3, v));
    assert(ch[4] matches Some(v) ==> fits_channel(4, v));
    assert(reading_of(time, ch).values() =~= ch);
}

proof fn lemma_after_wf(d: Deltas, r: Reading)
    requires
        d.wf(),
    ensures
        d.after(r).wf(),
{
    reading_roundtrip(d, r, Seq::empty());
}

/// The channels of one sensor do not depend on the other: a row gives the
/// barometer's channels whatever became of the CO2 sensor, and the other way
/// round; a sensor that is not there gives none.
pub proof fn sensors_are_independent(row: SensorData)
    ensures
        row_values(row).len() == 5,
        row.baro matches Some(b) ==> {
            &&& row_values(row)[0] == float_bits::fixed_point(b.pressure, 100)
            &&& row_values(row)[1] == float_bits::fixed_point(b.temp, 1000)
        },
        row.baro is None ==> row_values(row)[0] is None && row_values(row)[1] is None,
        row.scd matches Some(s) ==> {
            &&& row_values(row)[2] == Some(s.co2 as int)
            &&& row_values(row)[3] == float_bits::fixed_point(s.humidity, 1000)
            &&& row_values(row)[4] == float_bits::fixed_point(s.temp, 1000)
        },
        row.scd is None ==> row_values(row)[2] is None && row_values(row)[3] is None && row_values(row)[4] is None,
{
}

/// Replacing what one sensor measured leaves the other's channels as they are.
pub proof fn one_sensor_leaves_the_other(row: SensorData, other: SensorData)
    ensures
        row.baro == other.baro ==> row_values(row)[0] == row_values(other)[0] && row_values(row)[1] == row_values(
            other,
        )[1],
        row.scd == other.scd ==> row_values(row)[2] == row_values(other)[2] && row_values(row)[3] == row_values(
            other,
        )[3] && row_values(row)[4] == row_values(other)[4],
        row.scd is Some ==> row_values(row)[2] is Some,
{
}

/// The presence byte: pressure 1, temperature of the barometer 2, CO2 4,
/// humidity 8, temperature of the CO2 sensor 16.
pub proof fn presence_layout(r: Reading)
    ensures
        presence(r.values()) == (if r.pressure is Some {
            1int
        } else {
            0
        }) + (if r.baro_temp is Some {
            2int
        } else {
            0
        }) + (if r.co2 is Some {
            4int
        } else {
            0
        }) + (if r.humidity is Some {
            8int
        } else {
            0
        }) + (if r.scd_temp is Some {
            16int
        } else {
            0
        }),
{
}

/// A channel's bytes: nothing where it is absent, else its difference from the
/// last present value.
pub open spec fn delta_text(v: Option<int>, last: int) -> Seq<u8> {
    match v {
        Some(x) => varint::varint(varint::spec_zigzag(x - last)),
        None => Seq::empty(),
    }
}

/// The layout of a reading: presence, time step, and the differences of the
/// present channels in the order of their bits.
pub proof fn reading_layout(d: Deltas, r: Reading)
    requires
        d.prev.len() == 5,
    ensures
        reading_text(d, r) == seq![presence(r.values()) as u8] + (varint::varint(
            varint::spec_zigzag(time_step(r.time.0, d.time)),
        ) + (delta_text(r.values()[0], d.prev[0]) + (delta_text(r.values()[1], d.prev[1]) + (delta_text(
            r.values()[2],
            d.prev[2],
        ) + (delta_text(r.values()[3], d.prev[3]) + delta_text(r.values()[4], d.prev[4])))))),
{
    let ch = r.values();
    lemma_channel_layout(d.prev, ch, 4);
    lemma_channel_layout(d.prev, ch, 3);
    lemma_channel_layout(d.prev, ch, 2);
    lemma_channel_layout(d.prev, ch, 1);
    lemma_channel_layout(d.prev, ch, 0);
    let last = delta_text(ch[4], d.prev[4]);
    assert(last + Seq::<u8>::empty() =~= last);
}

proof fn lemma_channel_layout(prev: Seq<int>, ch: Seq<Option<int>>, i: int)
    requires
        0 <= i < 5,
    ensures
        channels_text(prev, ch, i) == delta_text(ch[i], prev[i]) + channels_text(prev, ch, i + 1),
        channels_text(prev, ch, 5) == Seq::<u8>::empty(),
{
    assert(delta_text(ch[i], prev[i]) + channels_text(prev, ch, i + 1) =~= channels_text(prev, ch, i));
}

/// Time steps are differences: between times less than half the range apart the
/// step is the later less the earlier, forward or backward.
pub proof fn steps_are_differences(to: u64, from: u64)
    ensures
        -0x8000_0000_0000_0000 <= to - from < 0x8000_0000_0000_0000 ==> time_step(to, from) == to - from,
        time_after(from, time_step(to, from)) == to,
{
}

/// The next differences are taken from this reading's time and, channel by
/// channel, from the last value that was present; an absent channel keeps the one
/// before. At the start of a datagram every channel counts from zero and the
/// time from the base.
pub proof fn deltas_keep_the_last_present(d: Deltas, r: Reading, base: u64, i: int)
    requires
        0 <= i < 5,
    ensures
        d.after(r).time == r.time.0,
        d.after(r).prev[i] == match r.values()[i] {
            Some(v) => v,
            None => d.prev[i],
        },
        r.values() == seq![
            match r.pressure {
                Some(v) => Some(v.0 as int),
                None => None,
            },
            match r.baro_temp {
                Some(v) => Some(v.0 as int),
                None => None,
            },
            match r.co2 {
                Some(v) => Some(v.0 as int),
                None => None,
            },
            match r.humidity {
                Some(v) => Some(v.0 as int),
                None => None,
            },
            match r.scd_temp {
                Some(v) => Some(v.0 as int),
                None => None,
            },
        ],
        Deltas::start(base).time == base,
        Deltas::start(base).prev.len() == 5,
        Deltas::start(base).prev[i] == 0,
        plain_text(base, Seq::empty()) == varint::varint(base as nat),
        plain_text(base, seq![r]) == varint::varint(base as nat) + reading_text(Deltas::start(base), r),
{
    let one = seq![r];
    assert(one.drop_first() =~= Seq::empty());
    assert(readings_text(Deltas::start(base).after(r), Seq::empty()) =~= Seq::empty());
    assert(readings_text(Deltas::start(base), one) =~= reading_text(Deltas::start(base), r));
    assert(plain_text(base, Seq::empty()) =~= varint::varint(base as nat));
}

proof fn lemma_varint_cut(v: nat, k: int)
    requires
        v <= u64::MAX,
        0 <= k < varint::varint(v).len(),
    ensures
        varint::parse_varint(varint::varint(v).take(k)) == Err::<(nat, Seq<u8>), VarintError>(VarintError::Truncated),
{
    let all = varint::varint(v);
    varint::low_bits_come_first(v);
    varint::lemma_varint_len_u64(v);
    let s = all.take(k);
    assert forall|i: int| 0 <= i < s.len() implies #[trigger] s[i] >= 128 by {
        assert(all[i] >= 128);
    }
    varint::unreadable_integers(s);
}

proof fn lemma_channels_cut(prev: Seq<int>, ch: Seq<Option<int>>, p: int, i: int, k: int)
    requires
        0 <= i <= CHANNELS,
        ch.len() == CHANNELS,
        prev.len() == CHANNELS,
        values_fit(ch),
        forall|j: int| 0 <= j < CHANNELS ==> #[trigger] fits_channel(j, prev[j]),
        forall|j: int| 0 <= j < CHANNELS ==> (is_present(p, j) <==> #[trigger] ch[j] is Some),
        0 <= k < channels_text(prev, ch, i).len(),
    ensures
        parse_channels(prev, p, channels_text(prev, ch, i).take(k), i) == Err::<
            (Seq<Option<int>>, Seq<u8>),
            CodecError,
        >(CodecError::Truncated),
    decreases CHANNELS - i,
{
    if i < CHANNELS {
        let all = channels_text(prev, ch, i);
        let rest = channels_text(prev, ch, i + 1);
        match ch[i] {
            None => {
                lemma_channels_cut(prev, ch, p, i + 1, k);
            },
            Some(v) => {
                assert(fits_channel(i, prev[i]));
                let n = varint::spec_zigzag(v - prev[i]);
                lemma_zigzag_u64(v - prev[i]);
                let b = varint::varint(n);
                if k < b.len() {
                    lemma_varint_cut(n, k);
                    assert(all.take(k) =~= b.take(k));
                } else {
                    let m = k - b.len();
                    lemma_channels_cut(prev, ch, p, i + 1, m);
                    assert(all.take(k) =~= b + rest.take(m));
                    varint::varint_roundtrip(n, rest.take(m));
                }
            },
        }
    }
}

/// A reading that is cut short anywhere is refused as such, never read as another.
pub proof fn cut_readings_are_refused(d: Deltas, r: Reading, k: int)
    requires
        d.wf(),
        0 <= k < reading_text(d, r).len(),
    ensures
        parse_reading(d, reading_text(d, r).take(k)) == Err::<(Reading, Seq<u8>), CodecError>(CodecError::Truncated),
{
    let ch = r.values();
    let all = reading_text(d, r);
    let s = all.take(k);
    lemma_values_fit(r);
    presence_bits(ch);
    lemma_time_roundtrip(r.time.0, d.time);
    let dt = time_step(r.time.0, d.time);
    lemma_zigzag_u64(dt);
    let n = varint::spec_zigzag(dt);
    let b = varint::varint(n);
    let rest = channels_text(d.prev, ch, 0);
    if k > 0 {
        assert(s[0] == presence(ch) as u8);
        if k - 1 < b.len() {
            lemma_varint_cut(n, k - 1);
            assert(s.drop_first() =~= b.take(k - 1));
        } else {
            let m = k - 1 - b.len();
            assert(s.drop_first() =~= b + rest.take(m));
            varint::varint_roundtrip(n, rest.take(m));
            lemma_channels_cut(d.prev, ch, presence(ch), 0, m);
        }
    }
}

/// A presence byte with one of its three high bits set is refused with that
/// byte, whatever follows it.
pub proof fn reserved_bits_are_refused(d: Deltas, s: Seq<u8>)
    requires
        s.len() > 0,
        s[0] >= 32,
    ensures
        parse_reading(d, s) == Err::<(Reading, Seq<u8>), CodecError>(CodecError::ReservedPresence(s[0])),
{
}

proof fn lemma_wide_channels(prev: Seq<int>, ch: Seq<Option<int>>, p: int, tail: Seq<u8>, i: int)
    requires
        0 <= i <= CHANNELS,
        ch.len() == CHANNELS,
        prev.len() == CHANNELS,
        forall|k: int|
            0 <= k < CHANNELS ==> (#[trigger] ch[k] matches Some(v) ==> i64::MIN <= v <= i64::MAX && i64::MIN <= v
                - prev[k] <= i64::MAX),
        forall|k: int| 0 <= k < CHANNELS ==> (is_present(p, k) <==> #[trigger] ch[k] is Some),
    ensures
        parse_channels(prev, p, channels_text(prev, ch, i) + tail, i) == Ok::<
            (Seq<Option<int>>, Seq<u8>),
            CodecError,
        >((ch.skip(i), tail)),
    decreases CHANNELS - i,
{
    if i < CHANNELS {
        let rest = channels_text(prev, ch, i + 1);
        lemma_wide_channels(prev, ch, p, tail, i + 1);
        assert(ch.skip(i) =~= seq![ch[i]] + ch.skip(i + 1));
        if let Some(v) = ch[i] {
            let n = varint::spec_zigzag(v - prev[i]);
            lemma_zigzag_u64(v - prev[i]);
            varint::varint_roundtrip(n, rest + tail);
            assert(varint::varint(n) + rest + tail =~= varint::varint(n) + (rest + tail));
        }
    } else {
        assert(ch.skip(i) =~= Seq::empty());
        assert(channels_text(prev, ch, i) + tail =~= tail);
    }
}

/// A channel whose value after its difference is outside of its type is
/// refused: below zero or above 65535 for CO2, outside of 32 signed bits for the
/// others.
pub proof fn values_out_of_range_are_refused(d: Deltas, ch: Seq<Option<int>>, dt: int, tail: Seq<u8>, i: int)
    requires
        d.prev.len() == 5,
        ch.len() == 5,
        i64::MIN <= dt <= i64::MAX,
        forall|k: int|
            0 <= k < 5 ==> (#[trigger] ch[k] matches Some(v) ==> i64::MIN <= v <= i64::MAX && i64::MIN <= v - d.prev[k]
                <= i64::MAX),
        0 <= i < 5,
        ch[i] matches Some(v) && if i == 2 {
            v < 0 || v > 65535
        } else {
            v < -0x8000_0000 || v > 0x7FFF_FFFF
        },
    ensures
        parse_reading(
            d,
            seq![presence(ch) as u8] + varint::varint(varint::spec_zigzag(dt)) + channels_text(d.prev, ch, 0) + tail,
        ) == Err::<(Reading, Seq<u8>), CodecError>(CodecError::OutOfRange),
{
    let b = varint::varint(varint::spec_zigzag(dt));
    let rest = channels_text(d.prev, ch, 0);
    let s = seq![presence(ch) as u8] + b + rest + tail;
    presence_bits(ch);
    lemma_zigzag_u64(dt);
    assert(s.drop_first() =~= b + (rest + tail));
    varint::varint_roundtrip(varint::spec_zigzag(dt), rest + tail);
    lemma_wide_channels(d.prev, ch, presence(ch), tail, 0);
    assert(ch.skip(0) =~= ch);
    assert(!fits_channel(i, ch[i]->0));
}

/// An error behind good readings refuses them all, with that error.
pub proof fn one_error_refuses_all(d: Deltas, rs: Seq<Reading>, bad: Seq<u8>, e: CodecError)
    requires
        d.wf(),
        bad.len() > 0,
        parse_reading(deltas_after(d, rs), bad) == Err::<(Reading, Seq<u8>), CodecError>(e),
    ensures
        parse_readings(d, readings_text(d, rs) + bad) == Err::<Seq<Reading>, CodecError>(e),
    decreases rs.len(),
{
    if rs.len() == 0 {
        assert(readings_text(d, rs) + bad =~= bad);
    } else {
        let more = rs.drop_first();
        let next = d.after(rs[0]);
        let tail = readings_text(next, more) + bad;
        reading_roundtrip(d, rs[0], tail);
        one_error_refuses_all(next, more, bad, e);
        assert(readings_text(d, rs) + bad =~= reading_text(d, rs[0]) + tail);
    }
}

/// A base time that cannot be read refuses the plaintext.
pub proof fn unreadable_base_is_refused(s: Seq<u8>)
    ensures
        varint::parse_varint(s) == Err::<(nat, Seq<u8>), VarintError>(VarintError::Truncated) ==> parse_plain(s)
            == Err::<Seq<Reading>, CodecError>(CodecError::Truncated),
        varint::parse_varint(s) == Err::<(nat, Seq<u8>), VarintError>(VarintError::Overflow) ==> parse_plain(s) == Err::<
            Seq<Reading>,
            CodecError,
        >(CodecError::VarintOverflow),
{
}

/// A reading without channels is a time step alone, however the step is written;
/// with its text read, the reading counts from where the one before left off.
pub proof fn bare_readings_are_steps(d: Deltas, s: Seq<u8>, n: nat, tail: Seq<u8>)
    requires
        s.len() > 0,
        s[0] == 0,
        varint::parse_varint(s.drop_first()) == Ok::<(nat, Seq<u8>), VarintError>((n, tail)),
    ensures
        parse_reading(d, s) matches Ok((r, rest)) && rest == tail && r.pressure is None && r.baro_temp is None && r.co2
            is None && r.humidity is None && r.scd_temp is None && r.time.0 == time_after(
            d.time,
            varint::spec_unzigzag(n),
        ),
{
    reveal_with_fuel(parse_channels, 6);
    let ch = parse_channels(d.prev, 0, tail, 0);
    assert(ch matches Ok((c, rest)) && rest == tail && c =~= seq![None, None, None, None, None]);
}

} // verus!
