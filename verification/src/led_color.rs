//! CO2 to the colour and the breathing of the indicator.

use vstd::prelude::*;

verus! {

/// Brightness of each channel in percent.
#[derive(Clone, Copy, PartialEq, Eq, Structural, Debug)]
pub struct Rgb {
    pub r: u8,
    pub g: u8,
    pub b: u8,
}

impl Rgb {
    /// All channels off.
    pub fn off() -> (c: Rgb)
        ensures
            c == (Rgb { r: 0, g: 0, b: 0 }),
    {
        Rgb { r: 0, g: 0, b: 0 }
    }

    /// A colour of three channels.
    pub fn new(r: u8, g: u8, b: u8) -> (c: Rgb)
        ensures
            c == (Rgb { r, g, b }),
    {
        Rgb { r, g, b }
    }

    /// Dimmed to `pct` percent of the present brightness. More than a hundred
    /// percent is cut to the eight bits of a channel.
    pub fn scaled(self, pct: u8) -> (c: Rgb)
        ensures
            c.r == dimmed(self.r, pct) % 256,
            c.g == dimmed(self.g, pct) % 256,
            c.b == dimmed(self.b, pct) % 256,
    {
        Rgb { r: dim(self.r, pct), g: dim(self.g, pct), b: dim(self.b, pct) }
    }
}

/// `pct` percent of a channel, rounded down.
pub open spec fn dimmed(c: u8, pct: u8) -> int {
    c * pct / 100
}

fn dim(c: u8, pct: u8) -> (d: u8)
    ensures
        d == dimmed(c, pct) % 256,
{
    assert(0 <= c * pct <= 255 * 255) by (nonlinear_arith)
        requires
            0 <= c <= 255,
            0 <= pct <= 255,
    ;
    (c as u16 * pct as u16 / 100 % 256) as u8
}

/// Dimming to at most a hundred percent never makes a channel brighter; a
/// hundred percent leaves it, zero switches it off.
pub proof fn dimming_never_brightens(c: u8, pct: u8)
    requires
        pct <= 100,
    ensures
        0 <= dimmed(c, pct) <= c,
        dimmed(c, 100) == c,
        dimmed(c, 0) == 0,
{
    assert(0 <= c * pct <= c * 100) by (nonlinear_arith)
        requires
            0 <= pct <= 100,
            c >= 0,
    ;
    assert(c * 100 / 100 == c);
    assert(c * 0 == 0);
}

/// Brightest the CO2 palette gets, in percent.
pub const CO2_MAX_LEVEL: u8 = 30;

/// The red channel: it rises from nothing at 400 ppm to full at 700.
pub open spec fn red_at(co2: u16) -> int {
    if co2 <= 400 {
        0
    } else if co2 <= 700 {
        CO2_MAX_LEVEL * (co2 - 400) / 300
    } else {
        CO2_MAX_LEVEL as int
    }
}

/// The green channel: full up to 700 ppm, it falls to half at 1000 and to
/// nothing at 1500.
pub open spec fn green_at(co2: u16) -> int {
    if co2 <= 700 {
        CO2_MAX_LEVEL as int
    } else if co2 <= 1000 {
        (CO2_MAX_LEVEL * 600 - CO2_MAX_LEVEL * (co2 - 700)) / 600
    } else if co2 <= 1500 {
        (CO2_MAX_LEVEL * 500 - CO2_MAX_LEVEL * (co2 - 1000)) / 1000
    } else {
        0
    }
}

/// CO2 in ppm to a colour: green up to 400, through yellow at 700 and orange at
/// 1000 to red at 1500 and beyond.
pub fn co2_to_rgb(co2: u16) -> (c: Rgb)
    ensures
        c.r == red_at(co2),
        c.g == green_at(co2),
        c.b == 0,
{
    let max: u32 = CO2_MAX_LEVEL as u32;
    if co2 <= 400 {
        Rgb::new(0, CO2_MAX_LEVEL, 0)
    } else if co2 <= 700 {
        Rgb::new((max * (co2 as u32 - 400) / 300) as u8, CO2_MAX_LEVEL, 0)
    } else if co2 <= 1000 {
        Rgb::new(CO2_MAX_LEVEL, ((max * 600 - max * (co2 as u32 - 700)) / 600) as u8, 0)
    } else if co2 <= 1500 {
        Rgb::new(CO2_MAX_LEVEL, ((max * 500 - max * (co2 as u32 - 1000)) / 1000) as u8, 0)
    } else {
        Rgb::new(CO2_MAX_LEVEL, 0, 0)
    }
}

/// The palette keeps to its limit.
pub proof fn palette_is_bounded(co2: u16)
    ensures
        0 <= red_at(co2) <= CO2_MAX_LEVEL,
        0 <= green_at(co2) <= CO2_MAX_LEVEL,
{
}

/// Between neighbouring values no channel jumps: red only rises, green only
/// falls, each by at most one.
pub proof fn palette_is_continuous(co2: u16)
    requires
        co2 < u16::MAX,
    ensures
        red_at(co2) <= red_at((co2 + 1) as u16) <= red_at(co2) + 1,
        green_at(co2) - 1 <= green_at((co2 + 1) as u16) <= green_at(co2),
{
}

/// Breathing of the indicator.
#[derive(Clone, Copy, PartialEq, Eq, Structural, Debug)]
pub struct PulseSpec {
    /// Length of a whole cycle.
    pub period_ms: u16,
    /// How far the light is dimmed at the lowest point, in percent.
    pub depth_pct: u8,
}

/// The breathing at a value of CO2.
pub open spec fn pulse_at(co2: u16) -> Option<PulseSpec> {
    if co2 < 1000 {
        None
    } else if co2 < 1400 {
        Some(PulseSpec { period_ms: 4000, depth_pct: 35 })
    } else if co2 < 2000 {
        Some(PulseSpec { period_ms: 2200, depth_pct: 55 })
    } else if co2 < 3000 {
        Some(PulseSpec { period_ms: 1400, depth_pct: 75 })
    } else {
        Some(PulseSpec { period_ms: 900, depth_pct: 90 })
    }
}

/// CO2 to breathing; `None`: a steady colour.
pub fn pulse_params(co2: u16) -> (p: Option<PulseSpec>)
    ensures
        p == pulse_at(co2),
{
    if co2 < 1000 {
        None
    } else if co2 < 1400 {
        Some(PulseSpec { period_ms: 4000, depth_pct: 35 })
    } else if co2 < 2000 {
        Some(PulseSpec { period_ms: 2200, depth_pct: 55 })
    } else if co2 < 3000 {
        Some(PulseSpec { period_ms: 1400, depth_pct: 75 })
    } else {
        Some(PulseSpec { period_ms: 900, depth_pct: 90 })
    }
}

/// With more CO2 the breathing never stops, slows down or gets shallower.
pub proof fn pulse_escalates(low: u16, high: u16)
    requires
        low <= high,
    ensures
        pulse_at(low) is Some <==> low >= 1000,
        pulse_at(low) matches Some(p) ==> {
            &&& p.depth_pct <= 100
            &&& p.period_ms / 2 > 0
            &&& pulse_at(high) matches Some(q) && q.period_ms <= p.period_ms && q.depth_pct >= p.depth_pct
        },
{
}

/// The palette runs along straight lines, rounded down: red from nothing at 400
/// ppm to 30 at 700, green from 30 at 700 to 15 at 1000 and to nothing at 1500,
/// and level outside.
pub proof fn palette_follows_its_lines(co2: u16)
    ensures
        co2 <= 400 ==> red_at(co2) == 0 && green_at(co2) == 30,
        400 <= co2 <= 700 ==> 10 * red_at(co2) <= co2 - 400 < 10 * (red_at(co2) + 1) && green_at(co2) == 30,
        700 <= co2 <= 1000 ==> red_at(co2) == 30 && 20 * green_at(co2) <= 1300 - co2 < 20 * (green_at(co2) + 1),
        1000 <= co2 <= 1500 ==> red_at(co2) == 30 && 100 * green_at(co2) <= 3 * (1500 - co2) < 100 * (green_at(co2) + 1),
        co2 >= 1500 ==> red_at(co2) == 30 && green_at(co2) == 0,
{
}

/// Breathing starts at 1000 ppm and gets faster and deeper at 1400, 2000 and
/// 3000.
pub proof fn breathing_has_its_steps(co2: u16)
    ensures
        co2 < 1000 ==> pulse_at(co2) is None,
        1000 <= co2 < 1400 ==> pulse_at(co2) == Some(PulseSpec { period_ms: 4000, depth_pct: 35 }),
        1400 <= co2 < 2000 ==> pulse_at(co2) == Some(PulseSpec { period_ms: 2200, depth_pct: 55 }),
        2000 <= co2 < 3000 ==> pulse_at(co2) == Some(PulseSpec { period_ms: 1400, depth_pct: 75 }),
        3000 <= co2 ==> pulse_at(co2) == Some(PulseSpec { period_ms: 900, depth_pct: 90 }),
{
}

/// Dimming is to a share in percent, rounded down, whatever the share.
pub proof fn dimming_is_by_percent(c: u8, pct: u8)
    ensures
        100 * dimmed(c, pct) <= c * pct < 100 * (dimmed(c, pct) + 1),
{
    let x = c * pct;
    assert(x == 100 * (x / 100) + x % 100);
}

} // verus!
