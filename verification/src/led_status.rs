//! Status bits of the station and what the indicator shows of them.
//!
//! With a CO2 value the indicator shows its colour and breathing, and once in
//! [`OVERLAY_INTERVAL_MS`] the blink codes of all that is wrong. Without one it
//! shows the blink codes alone.

use vstd::prelude::*;

use crate::led_color;
use crate::led_color::Rgb;

verus! {

/// The send buffer overflowed: one blink.
pub const SYS_BUF_OVERFLOW: u8 = 1;

/// No connection to the server: two blinks.
pub const SYS_NO_TCP: u8 = 2;

/// A sensor is missing: three blinks.
pub const SYS_NO_PERIPH: u8 = 4;

/// No WiFi or no time: four blinks.
pub const SYS_NO_WIFI: u8 = 8;

/// This boot follows a panic: five blinks, until power is cut.
pub const SYS_PANIC_RECOVERED: u8 = 16;

/// This boot follows a stall: six blinks, until power is cut.
pub const SYS_WDT_RECOVERED: u8 = 32;

/// Number of status bits.
pub const STATUS_BITS: usize = 6;

/// Brightness of blink codes, in percent: well above the CO2 palette.
pub const BLINK_LEVEL: u8 = 40;

/// Milliseconds of CO2 display between two rounds of blink codes.
pub const OVERLAY_INTERVAL_MS: u32 = 60_000;

/// Milliseconds between rounds of blink codes when there is nothing else to
/// show.
pub const BLINK_ONLY_GAP_MS: u32 = 8_000;

/// Value that stands for a CO2 measurement that is not there.
pub const NO_CO2: u16 = 65535;

/// Mask of status bit `k`.
pub open spec fn mask_of(k: int) -> u8 {
    if k == 0 {
        SYS_BUF_OVERFLOW
    } else if k == 1 {
        SYS_NO_TCP
    } else if k == 2 {
        SYS_NO_PERIPH
    } else if k == 3 {
        SYS_NO_WIFI
    } else if k == 4 {
        SYS_PANIC_RECOVERED
    } else {
        SYS_WDT_RECOVERED
    }
}

/// Mask of status bit `k`.
pub fn mask(k: usize) -> (m: u8)
    requires
        k < STATUS_BITS,
    ensures
        m == mask_of(k as int),
{
    if k == 0 {
        SYS_BUF_OVERFLOW
    } else if k == 1 {
        SYS_NO_TCP
    } else if k == 2 {
        SYS_NO_PERIPH
    } else if k == 3 {
        SYS_NO_WIFI
    } else if k == 4 {
        SYS_PANIC_RECOVERED
    } else {
        SYS_WDT_RECOVERED
    }
}

/// Name of status bit `k`, for the log.
pub fn name(k: usize) -> (s: &'static str)
    requires
        k < STATUS_BITS,
    ensures
        s@ == if k == 0 {
            "BUF_OVERFLOW"@
        } else if k == 1 {
            "NO_TCP"@
        } else if k == 2 {
            "NO_PERIPH"@
        } else if k == 3 {
            "NO_WIFI"@
        } else if k == 4 {
            "PANIC_RECOVERED"@
        } else {
            "WDT_RECOVERED"@
        },
{
    if k == 0 {
        "BUF_OVERFLOW"
    } else if k == 1 {
        "NO_TCP"
    } else if k == 2 {
        "NO_PERIPH"
    } else if k == 3 {
        "NO_WIFI"
    } else if k == 4 {
        "PANIC_RECOVERED"
    } else {
        "WDT_RECOVERED"
    }
}

/// How often the code of status bit `k` blinks.
pub fn blinks(k: usize) -> (n: u32)
    requires
        k < STATUS_BITS,
    ensures
        n == k + 1,
{
    k as u32 + 1
}

/// The mask of a bit has that bit alone, so the number of blinks is the
/// position of the bit and one.
pub proof fn masks_are_bits(k: u8)
    requires
        k < STATUS_BITS,
    ensures
        mask_of(k as int) == 1u8 << k,
{
    assert(1u8 << 0u8 == 1 && 1u8 << 1u8 == 2 && 1u8 << 2u8 == 4 && 1u8 << 3u8 == 8 && 1u8 << 4u8 == 16 && 1u8 << 5u8
        == 32) by (bit_vector);
}

/// Fixed colour of the code of status bit `k`. The missing server has none: it
/// blinks in the present CO2 colour and does not hide the state of the air.
pub open spec fn code_color(k: int) -> Option<Rgb> {
    if k == 0 {
        Some(Rgb { r: BLINK_LEVEL, g: BLINK_LEVEL / 2, b: 0 })
    } else if k == 1 {
        None
    } else if k == 2 {
        Some(Rgb { r: BLINK_LEVEL, g: 0, b: BLINK_LEVEL })
    } else if k == 3 {
        Some(Rgb { r: BLINK_LEVEL, g: BLINK_LEVEL, b: 0 })
    } else if k == 4 {
        Some(Rgb { r: BLINK_LEVEL, g: BLINK_LEVEL, b: BLINK_LEVEL })
    } else {
        Some(Rgb { r: 0, g: BLINK_LEVEL, b: BLINK_LEVEL })
    }
}

/// The CO2 colour.
pub open spec fn co2_color(co2: u16) -> Rgb {
    Rgb { r: led_color::red_at(co2) as u8, g: led_color::green_at(co2) as u8, b: 0 }
}

/// Colour in which the code of status bit `k` blinks.
pub open spec fn spec_blink_color(k: int, co2: Option<u16>) -> Rgb {
    match code_color(k) {
        Some(c) => c,
        None => match co2 {
            Some(v) => co2_color(v),
            None => Rgb { r: 0, g: 0, b: BLINK_LEVEL },
        },
    }
}

/// Colour in which the code of status bit `k` blinks: its own, or the present
/// CO2 colour, or blue while there is none.
pub fn blink_color(k: usize, co2: Option<u16>) -> (c: Rgb)
    requires
        k < STATUS_BITS,
    ensures
        c == spec_blink_color(k as int, co2),
{
    if k == 0 {
        Rgb::new(BLINK_LEVEL, BLINK_LEVEL / 2, 0)
    } else if k == 1 {
        match co2 {
            Some(v) => {
                proof {
                    led_color::palette_is_bounded(v);
                }
                led_color::co2_to_rgb(v)
            },
            None => Rgb::new(0, 0, BLINK_LEVEL),
        }
    } else if k == 2 {
        Rgb::new(BLINK_LEVEL, 0, BLINK_LEVEL)
    } else if k == 3 {
        Rgb::new(BLINK_LEVEL, BLINK_LEVEL, 0)
    } else if k == 4 {
        Rgb::new(BLINK_LEVEL, BLINK_LEVEL, BLINK_LEVEL)
    } else {
        Rgb::new(0, BLINK_LEVEL, BLINK_LEVEL)
    }
}

/// The status with `bits` set, and which of them were not set before: only
/// those are logged.
pub fn set_status(status: u8, bits: u8) -> (r: (u8, u8))
    ensures
        r.0 == status | bits,
        r.1 == bits & !status,
{
    (status | bits, bits & !status)
}

/// The status with `bits` cleared, and which of them were set before.
pub fn clear_status(status: u8, bits: u8) -> (r: (u8, u8))
    ensures
        r.0 == status & !bits,
        r.1 == bits & status,
{
    (status & !bits, bits & status)
}

/// Setting and clearing change exactly the bits that are reported as changed.
pub proof fn changes_are_reported(status: u8, bits: u8)
    ensures
        (status | bits) ^ status == bits & !status,
        (status & !bits) ^ status == bits & status,
{
    assert((status | bits) ^ status == bits & !status) by (bit_vector);
    assert((status & !bits) ^ status == bits & status) by (bit_vector);
}

/// The bits from `k` on that are set in `changed`, lowest first.
pub open spec fn bits_from(k: int, changed: u8) -> Seq<usize>
    decreases STATUS_BITS - k,
{
    if k >= STATUS_BITS {
        Seq::empty()
    } else if changed & mask_of(k) != 0 {
        seq![k as usize] + bits_from(k + 1, changed)
    } else {
        bits_from(k + 1, changed)
    }
}

/// The status bits that are set in `changed`, lowest first, for the log.
pub fn changed_bits(changed: u8) -> (bits: Vec<usize>)
    ensures
        bits@ == bits_from(0, changed),
{
    let mut bits: Vec<usize> = Vec::new();
    let mut k: usize = 0;
    assert(bits@ + bits_from(0, changed) =~= bits_from(0, changed));
    while k < STATUS_BITS
        invariant
            k <= STATUS_BITS,
            bits@ + bits_from(k as int, changed) == bits_from(0, changed),
        decreases STATUS_BITS - k,
    {
        let ghost before = bits@;
        if changed & mask(k) != 0 {
            bits.push(k);
            assert(before + (seq![k] + bits_from(k + 1, changed)) =~= bits@ + bits_from(k + 1, changed));
        }
        k = k + 1;
    }
    assert(bits@ + bits_from(STATUS_BITS as int, changed) =~= bits@);
    bits
}

/// Which channels of the light change on the way from one colour to another:
/// only those are faded.
pub fn fading_channels(from: Rgb, to: Rgb) -> (r: (bool, bool, bool))
    ensures
        r == (from.r != to.r, from.g != to.g, from.b != to.b),
{
    (from.r != to.r, from.g != to.g, from.b != to.b)
}

/// The last CO2 measurement, of a stored value that may stand for none.
pub fn latest_co2(stored: u16) -> (co2: Option<u16>)
    ensures
        co2 == if stored == NO_CO2 {
            None
        } else {
            Some(stored)
        },
{
    if stored == NO_CO2 {
        None
    } else {
        Some(stored)
    }
}

/// What the driver of the indicator is to do.
#[derive(Clone, Copy, PartialEq, Eq, Structural, Debug)]
pub enum LedAction {
    /// Show a colour at once.
    Show(Rgb),
    /// Fade to a colour in so many milliseconds.
    Fade(Rgb, u16),
    /// Wait so many milliseconds.
    Sleep(u32),
}

/// Where in its display the indicator is.
#[derive(Clone, Copy, PartialEq, Eq, Structural, Debug)]
pub enum LedPhase {
    /// Colour `k` of the start-up test is next.
    Test { k: usize },
    /// The wait after colour `k` of the start-up test is next.
    TestWait { k: usize },
    /// A new decision is next.
    Decide,
    /// The indicator is dark; the wait for a first value is next.
    DarkWait,
    /// The codes from bit `k` on are next, of the bits in `only`; `overlay` tells
    /// whether there is a CO2 value to go back to.
    Codes { k: usize, only: u8, overlay: bool },
    /// The lit wait of a blink of bit `k` is next, with `left` blinks to come.
    Lit { k: usize, left: u32, color: Rgb, only: u8, overlay: bool },
    /// Switching off after a blink is next.
    Off { k: usize, left: u32, color: Rgb, only: u8, overlay: bool },
    /// The dark wait of a blink is next.
    Unlit { k: usize, left: u32, color: Rgb, only: u8, overlay: bool },
    /// The next blink of the same code is next.
    Again { k: usize, left: u32, color: Rgb, only: u8, overlay: bool },
    /// The steady wait with a CO2 colour is next.
    Steady,
    /// The wait of breathing in is next.
    In { dim: Rgb, half: u16, period: u16 },
    /// Breathing out is next.
    Out { dim: Rgb, half: u16, period: u16 },
    /// The wait of breathing out is next.
    OutWait { half: u16, period: u16 },
    /// The CO2 step is over, after so many milliseconds.
    Stepped { took: u32 },
    /// The short wait before the codes of an overlay is next.
    OverlayWait { only: u8 },
}

/// The display of the indicator.
#[derive(Clone, Copy, PartialEq, Eq, Structural, Debug)]
pub struct Led {
    pub phase: LedPhase,
    /// Milliseconds of CO2 display since the last round of codes.
    pub since_overlay_ms: u32,
}

/// Colour `k` of the start-up test.
pub open spec fn test_color(k: int) -> Rgb {
    if k == 0 {
        Rgb { r: 30, g: 0, b: 0 }
    } else if k == 1 {
        Rgb { r: 0, g: 30, b: 0 }
    } else if k == 2 {
        Rgb { r: 0, g: 0, b: 30 }
    } else if k == 3 {
        Rgb { r: 30, g: 30, b: 30 }
    } else {
        Rgb { r: 0, g: 0, b: 0 }
    }
}

/// Number of colours of the start-up test.
pub const TEST_COLORS: usize = 5;

/// Milliseconds of each colour of the start-up test.
pub const TEST_MS: u16 = 400;

/// The first bit from `k` on that is set in the status and in `only`.
pub open spec fn next_code(k: int, status: u8, only: u8) -> int
    decreases STATUS_BITS - k,
{
    if k >= STATUS_BITS {
        STATUS_BITS as int
    } else if status & only & mask_of(k) != 0 {
        k
    } else {
        next_code(k + 1, status, only)
    }
}

/// A colour dimmed to `pct` percent.
pub open spec fn dimmed_color(c: Rgb, pct: u8) -> Rgb {
    Rgb {
        r: led_color::dimmed(c.r, pct) as u8,
        g: led_color::dimmed(c.g, pct) as u8,
        b: led_color::dimmed(c.b, pct) as u8,
    }
}

/// All channels off.
pub open spec fn dark() -> Rgb {
    Rgb { r: 0, g: 0, b: 0 }
}

impl Led {
    /// Within its tables.
    pub open spec fn wf(self) -> bool {
        match self.phase {
            LedPhase::Test { k } => k < TEST_COLORS,
            LedPhase::TestWait { k } => k < TEST_COLORS,
            LedPhase::Codes { k, .. } => k <= STATUS_BITS,
            LedPhase::Lit { k, left, .. } => k < STATUS_BITS && left <= k,
            LedPhase::Off { k, left, .. } => k < STATUS_BITS && left <= k,
            LedPhase::Unlit { k, left, .. } => k < STATUS_BITS && left <= k,
            LedPhase::Again { k, left, .. } => k < STATUS_BITS && left <= k,
            _ => true,
        }
    }

    /// A new decision: the CO2 display where there is a value that is not stale,
    /// else darkness and the codes of all that is wrong.
    pub open spec fn decided(self, status: u8, co2: Option<u16>) -> (Led, LedAction) {
        match co2 {
            Some(v) if status & SYS_NO_PERIPH == 0 => match led_color::pulse_at(v) {
                None => (Led { phase: LedPhase::Steady, ..self }, LedAction::Fade(co2_color(v), 500)),
                Some(p) => {
                    let half = p.period_ms / 2;
                    (
                        Led {
                            phase: LedPhase::In {
                                dim: dimmed_color(co2_color(v), (100 - p.depth_pct) as u8),
                                half,
                                period: p.period_ms,
                            },
                            ..self
                        },
                        LedAction::Fade(co2_color(v), half),
                    )
                },
            },
            _ => (
                Led {
                    phase: if status != 0 {
                        LedPhase::Codes { k: 0, only: status, overlay: false }
                    } else {
                        LedPhase::DarkWait
                    },
                    since_overlay_ms: 0,
                },
                LedAction::Fade(dark(), 200),
            ),
        }
    }

    /// The next code from bit `k` on, or the end of the round.
    pub open spec fn coded(self, k: int, only: u8, overlay: bool, status: u8, co2: Option<u16>) -> (Led, LedAction) {
        let j = next_code(k, status, only);
        if j < STATUS_BITS {
            let color = spec_blink_color(j, co2);
            (
                Led { phase: LedPhase::Lit { k: j as usize, left: j as u32, color, only, overlay }, ..self },
                LedAction::Show(color),
            )
        } else if overlay {
            (Led { since_overlay_ms: 0, ..self }).decided(status, co2)
        } else {
            (Led { phase: LedPhase::Decide, since_overlay_ms: 0 }, LedAction::Sleep(BLINK_ONLY_GAP_MS))
        }
    }

    /// `took` milliseconds more of CO2 display.
    pub open spec fn shown(self, took: u32) -> u32 {
        if self.since_overlay_ms + took > u32::MAX {
            u32::MAX
        } else {
            (self.since_overlay_ms + took) as u32
        }
    }

    /// The next action and what comes after it, with the status and the CO2
    /// value as they stand.
    pub open spec fn next(self, status: u8, co2: Option<u16>) -> (Led, LedAction) {
        match self.phase {
            LedPhase::Test { k } => (
                Led { phase: LedPhase::TestWait { k }, ..self },
                LedAction::Fade(test_color(k as int), TEST_MS),
            ),
            LedPhase::TestWait { k } => (
                Led {
                    phase: if k + 1 < TEST_COLORS {
                        LedPhase::Test { k: (k + 1) as usize }
                    } else {
                        LedPhase::Decide
                    },
                    ..self
                },
                LedAction::Sleep(TEST_MS as u32),
            ),
            LedPhase::Decide => self.decided(status, co2),
            LedPhase::DarkWait => (Led { phase: LedPhase::Decide, ..self }, LedAction::Sleep(2000)),
            LedPhase::Codes { k, only, overlay } => self.coded(k as int, only, overlay, status, co2),
            LedPhase::Lit { k, left, color, only, overlay } => (
                Led { phase: LedPhase::Off { k, left, color, only, overlay }, ..self },
                LedAction::Sleep(180),
            ),
            LedPhase::Off { k, left, color, only, overlay } => (
                Led { phase: LedPhase::Unlit { k, left, color, only, overlay }, ..self },
                LedAction::Show(dark()),
            ),
            LedPhase::Unlit { k, left, color, only, overlay } => (
                Led { phase: LedPhase::Again { k, left, color, only, overlay }, ..self },
                LedAction::Sleep(220),
            ),
            LedPhase::Again { k, left, color, only, overlay } => if left > 0 {
                (
                    Led { phase: LedPhase::Lit { k, left: (left - 1) as u32, color, only, overlay }, ..self },
                    LedAction::Show(color),
                )
            } else {
                (Led { phase: LedPhase::Codes { k: (k + 1) as usize, only, overlay }, ..self }, LedAction::Sleep(700))
            },
            LedPhase::Steady => (Led { phase: LedPhase::Stepped { took: 2000 }, ..self }, LedAction::Sleep(2000)),
            LedPhase::In { dim, half, period } => (
                Led { phase: LedPhase::Out { dim, half, period }, ..self },
                LedAction::Sleep(half as u32),
            ),
            LedPhase::Out { dim, half, period } => (
                Led { phase: LedPhase::OutWait { half, period }, ..self },
                LedAction::Fade(dim, half),
            ),
            LedPhase::OutWait { half, period } => (
                Led { phase: LedPhase::Stepped { took: period as u32 }, ..self },
                LedAction::Sleep(half as u32),
            ),
            LedPhase::Stepped { took } => {
                let since = self.shown(took);
                if status != 0 && since >= OVERLAY_INTERVAL_MS {
                    (
                        Led { phase: LedPhase::OverlayWait { only: status }, since_overlay_ms: since },
                        LedAction::Fade(dark(), 200),
                    )
                } else {
                    (Led { since_overlay_ms: since, ..self }).decided(status, co2)
                }
            },
            LedPhase::OverlayWait { only } => (
                Led { phase: LedPhase::Codes { k: 0, only, overlay: true }, ..self },
                LedAction::Sleep(300),
            ),
        }
    }

    /// At the first colour of the start-up test.
    pub fn new() -> (l: Led)
        ensures
            l == (Led { phase: LedPhase::Test { k: 0 }, since_overlay_ms: 0 }),
            l.wf(),
    {
        Led { phase: LedPhase::Test { k: 0 }, since_overlay_ms: 0 }
    }

    fn decide(&mut self, status: u8, co2: Option<u16>) -> (a: LedAction)
        ensures
            (*final(self), a) == old(self).decided(status, co2),
            final(self).wf(),
    {
        match co2 {
            Some(v) if status & SYS_NO_PERIPH == 0 => {
                proof {
                    led_color::palette_is_bounded(v);
                }
                let bright = led_color::co2_to_rgb(v);
                match led_color::pulse_params(v) {
                    None => {
                        self.phase = LedPhase::Steady;
                        LedAction::Fade(bright, 500)
                    },
                    Some(p) => {
                        let half: u16 = p.period_ms / 2;
                        proof {
                            let pct = (100 - p.depth_pct) as u8;
                            led_color::dimming_never_brightens(bright.r, pct);
                            led_color::dimming_never_brightens(bright.g, pct);
                            led_color::dimming_never_brightens(bright.b, pct);
                        }
                        self.phase = LedPhase::In {
                            dim: bright.scaled(100 - p.depth_pct),
                            half,
                            period: p.period_ms,
                        };
                        LedAction::Fade(bright, half)
                    },
                }
            },
            _ => {
                self.since_overlay_ms = 0;
                self.phase = if status != 0 {
                    LedPhase::Codes { k: 0, only: status, overlay: false }
                } else {
                    LedPhase::DarkWait
                };
                LedAction::Fade(Rgb::off(), 200)
            },
        }
    }

    fn code(&mut self, k: usize, only: u8, overlay: bool, status: u8, co2: Option<u16>) -> (a: LedAction)
        requires
            k <= STATUS_BITS,
        ensures
            (*final(self), a) == old(self).coded(k as int, only, overlay, status, co2),
            final(self).wf(),
    {
        let mut j: usize = k;
        while j < STATUS_BITS && status & only & mask(j) == 0
            invariant
                k <= j <= STATUS_BITS,
                next_code(k as int, status, only) == next_code(j as int, status, only),
            decreases STATUS_BITS - j,
        {
            j = j + 1;
        }
        if j < STATUS_BITS {
            let color = blink_color(j, co2);
            self.phase = LedPhase::Lit { k: j, left: blinks(j) - 1, color, only, overlay };
            LedAction::Show(color)
        } else if overlay {
            self.since_overlay_ms = 0;
            self.decide(status, co2)
        } else {
            self.since_overlay_ms = 0;
            self.phase = LedPhase::Decide;
            LedAction::Sleep(BLINK_ONLY_GAP_MS)
        }
    }

    /// The next action, with the status and the CO2 value as they stand. To be
    /// called again when the action is done.
    pub fn step(&mut self, status: u8, co2: Option<u16>) -> (a: LedAction)
        requires
            old(self).wf(),
        ensures
            (*final(self), a) == old(self).next(status, co2),
            final(self).wf(),
    {
        match self.phase {
            LedPhase::Test { k } => {
                self.phase = LedPhase::TestWait { k };
                LedAction::Fade(startup_color(k), TEST_MS)
            },
            LedPhase::TestWait { k } => {
                self.phase = if k + 1 < TEST_COLORS {
                    LedPhase::Test { k: k + 1 }
                } else {
                    LedPhase::Decide
                };
                LedAction::Sleep(TEST_MS as u32)
            },
            LedPhase::Decide => self.decide(status, co2),
            LedPhase::DarkWait => {
                self.phase = LedPhase::Decide;
                LedAction::Sleep(2000)
            },
            LedPhase::Codes { k, only, overlay } => self.code(k, only, overlay, status, co2),
            LedPhase::Lit { k, left, color, only, overlay } => {
                self.phase = LedPhase::Off { k, left, color, only, overlay };
                LedAction::Sleep(180)
            },
            LedPhase::Off { k, left, color, only, overlay } => {
                self.phase = LedPhase::Unlit { k, left, color, only, overlay };
                LedAction::Show(Rgb::off())
            },
            LedPhase::Unlit { k, left, color, only, overlay } => {
                self.phase = LedPhase::Again { k, left, color, only, overlay };
                LedAction::Sleep(220)
            },
            LedPhase::Again { k, left, color, only, overlay } => if left > 0 {
                self.phase = LedPhase::Lit { k, left: left - 1, color, only, overlay };
                LedAction::Show(color)
            } else {
                self.phase = LedPhase::Codes { k: k + 1, only, overlay };
                LedAction::Sleep(700)
            },
            LedPhase::Steady => {
                self.phase = LedPhase::Stepped { took: 2000 };
                LedAction::Sleep(2000)
            },
            LedPhase::In { dim, half, period } => {
                self.phase = LedPhase::Out { dim, half, period };
                LedAction::Sleep(half as u32)
            },
            LedPhase::Out { dim, half, period } => {
                self.phase = LedPhase::OutWait { half, period };
                LedAction::Fade(dim, half)
            },
            LedPhase::OutWait { half, period } => {
                self.phase = LedPhase::Stepped { took: period as u32 };
                LedAction::Sleep(half as u32)
            },
            LedPhase::Stepped { took } => {
                self.since_overlay_ms = self.since_overlay_ms.saturating_add(took);
                if status != 0 && self.since_overlay_ms >= OVERLAY_INTERVAL_MS {
                    self.phase = LedPhase::OverlayWait { only: status };
                    LedAction::Fade(Rgb::off(), 200)
                } else {
                    self.decide(status, co2)
                }
            },
            LedPhase::OverlayWait { only } => {
                self.phase = LedPhase::Codes { k: 0, only, overlay: true };
                LedAction::Sleep(300)
            },
        }
    }
}

fn startup_color(k: usize) -> (c: Rgb)
    ensures
        c == test_color(k as int),
{
    if k == 0 {
        Rgb::new(30, 0, 0)
    } else if k == 1 {
        Rgb::new(0, 30, 0)
    } else if k == 2 {
        Rgb::new(0, 0, 30)
    } else if k == 3 {
        Rgb::new(30, 30, 30)
    } else {
        Rgb::off()
    }
}

/// A round of codes shows a bit only while it is set and asked for, lowest bit
/// first, and passes over no such bit.
pub proof fn codes_follow_status(k: int, status: u8, only: u8)
    requires
        0 <= k <= STATUS_BITS,
    ensures
        ({
            let j = next_code(k, status, only);
            &&& k <= j <= STATUS_BITS
            &&& j < STATUS_BITS ==> status & only & mask_of(j) != 0
            &&& forall|i: int| k <= i < j ==> status & only & #[trigger] mask_of(i) == 0
        }),
    decreases STATUS_BITS - k,
{
    if k < STATUS_BITS && status & only & mask_of(k) == 0 {
        codes_follow_status(k + 1, status, only);
    }
}

/// The codes break into the CO2 display only when something is wrong and the
/// interval has passed, and the interval starts anew when the last of them was
/// shown.
pub proof fn overlay_keeps_interval(l: Led, status: u8, co2: Option<u16>)
    ensures
        l.phase is Stepped && l.next(status, co2).0.phase is OverlayWait ==> status != 0 && l.next(
            status,
            co2,
        ).0.since_overlay_ms >= OVERLAY_INTERVAL_MS,
        forall|k: usize, only: u8|
            l.phase == (LedPhase::Codes { k, only, overlay: true }) && #[trigger] next_code(k as int, status, only)
                == STATUS_BITS ==> l.next(status, co2).0.since_overlay_ms == 0,
{
}

/// A missing sensor makes the last CO2 value stale: whatever the indicator was
/// doing, it does not start to show it.
pub proof fn stale_co2_is_not_shown(l: Led, status: u8, co2: Option<u16>)
    requires
        status & SYS_NO_PERIPH != 0,
    ensures
        !(l.next(status, co2).0.phase is Steady),
        !(l.next(status, co2).0.phase is In),
        l.phase is Decide ==> l.next(status, co2).1 == LedAction::Fade(dark(), 200),
{
}

/// The state and the actions of `n` steps under a status and a CO2 value that
/// stay as they are.
pub open spec fn led_play(l: Led, status: u8, co2: Option<u16>, n: nat) -> (Led, Seq<LedAction>)
    decreases n,
{
    if n == 0 {
        (l, Seq::empty())
    } else {
        let (m, a) = l.next(status, co2);
        let (e, rest) = led_play(m, status, co2, (n - 1) as nat);
        (e, seq![a] + rest)
    }
}

proof fn lemma_led_play_add(l: Led, status: u8, co2: Option<u16>, a: nat, b: nat)
    ensures
        ({
            let (m, first) = led_play(l, status, co2, a);
            let (e, second) = led_play(m, status, co2, b);
            led_play(l, status, co2, a + b) == (e, first + second)
        }),
    decreases a,
{
    let (m, first) = led_play(l, status, co2, a);
    let (e, second) = led_play(m, status, co2, b);
    if a == 0 {
        assert(first + second =~= second);
    } else {
        let (x, act) = l.next(status, co2);
        lemma_led_play_add(x, status, co2, (a - 1) as nat, b);
        let (y, part) = led_play(x, status, co2, (a - 1) as nat);
        assert((a + b - 1) as nat == (a - 1) as nat + b);
        assert(seq![act] + (part + second) =~= (seq![act] + part) + second);
    }
}

/// The light of a code from its first blink on, with `left` more to come: each
/// blink is 180 milliseconds of light and 220 of darkness, and 700 more follow the
/// last.
pub open spec fn blinks_script(color: Rgb, left: nat) -> Seq<LedAction>
    decreases left,
{
    let blink = seq![LedAction::Sleep(180), LedAction::Show(Rgb { r: 0, g: 0, b: 0 }), LedAction::Sleep(220)];
    if left == 0 {
        blink.push(LedAction::Sleep(700))
    } else {
        blink.push(LedAction::Show(color)) + blinks_script(color, (left - 1) as nat)
    }
}

/// The light of a round of codes from bit `k` on: every bit that is set in the
/// status and asked for, lowest first, bit `j` with `j + 1` blinks.
pub open spec fn round_script(k: int, status: u8, only: u8, co2: Option<u16>) -> Seq<LedAction>
    decreases 6 - k,
{
    if k >= 6 {
        Seq::empty()
    } else if status & only & (1u8 << k as u8) != 0 {
        seq![LedAction::Show(spec_blink_color(k, co2))] + blinks_script(spec_blink_color(k, co2), k as nat)
            + round_script(k + 1, status, only, co2)
    } else {
        round_script(k + 1, status, only, co2)
    }
}

proof fn lemma_blinks(l: Led, k: usize, left: u32, color: Rgb, only: u8, overlay: bool, status: u8, co2: Option<u16>)
    requires
        l.phase == (LedPhase::Lit { k, left, color, only, overlay }),
        k < 6,
        left <= k,
    ensures
        led_play(l, status, co2, (4 * left + 4) as nat) == (
            Led { phase: LedPhase::Codes { k: (k + 1) as usize, only, overlay }, ..l },
            blinks_script(color, left as nat),
        ),
    decreases left,
{
    reveal_with_fuel(led_play, 5);
    let (m, acts) = led_play(l, status, co2, 4);
    if left == 0 {
        assert(acts =~= blinks_script(color, 0));
    } else {
        let head = seq![
            LedAction::Sleep(180),
            LedAction::Show(dark()),
            LedAction::Sleep(220),
            LedAction::Show(color),
        ];
        assert(acts =~= head);
        lemma_blinks(m, k, (left - 1) as u32, color, only, overlay, status, co2);
        lemma_led_play_add(l, status, co2, 4, (4 * (left - 1) + 4) as nat);
        assert(4 + (4 * (left - 1) + 4) == 4 * left + 4);
        assert(head =~= seq![LedAction::Sleep(180), LedAction::Show(dark()), LedAction::Sleep(220)].push(
            LedAction::Show(color),
        ));
    }
}

proof fn lemma_script_skips(k: int, status: u8, only: u8, co2: Option<u16>)
    requires
        0 <= k <= 6,
    ensures
        ({
            let j = next_code(k, status, only);
            &&& k <= j <= 6
            &&& round_script(k, status, only, co2) == round_script(j, status, only, co2)
            &&& j < 6 ==> status & only & (1u8 << j as u8) != 0
        }),
    decreases 6 - k,
{
    if k < 6 {
        masks_are_bits(k as u8);
        if status & only & mask_of(k) == 0 {
            lemma_script_skips(k + 1, status, only, co2);
        }
    }
}

/// A round of codes shows every bit that is set in the status and asked for, in
/// ascending order, bit `j` with `j + 1` blinks, and then comes to its end: there
/// the indicator goes back to the CO2 display, or waits eight seconds where
/// there is none.
pub proof fn a_round_shows_every_fault(l: Led, k: usize, only: u8, overlay: bool, status: u8, co2: Option<u16>)
    requires
        l.phase == (LedPhase::Codes { k, only, overlay }),
        k <= 6,
    ensures
        ({
            let script = round_script(k as int, status, only, co2);
            let (m, acts) = led_play(l, status, co2, script.len());
            &&& acts == script
            &&& m.since_overlay_ms == l.since_overlay_ms
            &&& m.phase matches LedPhase::Codes { .. }
            &&& overlay ==> m.next(status, co2) == (Led { phase: LedPhase::Decide, since_overlay_ms: 0 }).next(
                status,
                co2,
            )
            &&& !overlay ==> m.next(status, co2) == (
                Led { phase: LedPhase::Decide, since_overlay_ms: 0 },
                LedAction::Sleep(8000),
            )
        }),
    decreases 6 - k,
{
    let script = round_script(k as int, status, only, co2);
    let j = next_code(k as int, status, only);
    lemma_script_skips(k as int, status, only, co2);
    if j < 6 {
        let color = spec_blink_color(j, co2);
        let (m, a) = l.next(status, co2);
        assert(m.phase == (LedPhase::Lit { k: j as usize, left: j as u32, color, only, overlay }));
        lemma_blinks(m, j as usize, j as u32, color, only, overlay, status, co2);
        let code = blinks_script(color, j as nat);
        lemma_blinks_len(color, j as nat);
        let n = (4 * j + 4) as nat;
        let e = Led { phase: LedPhase::Codes { k: (j + 1) as usize, only, overlay }, ..l };
        assert(led_play(m, status, co2, n) == (e, code));
        let rest = round_script(j + 1, status, only, co2);
        a_round_shows_every_fault(e, (j + 1) as usize, only, overlay, status, co2);
        lemma_led_play_add(m, status, co2, n, rest.len());
        let show = seq![LedAction::Show(color)];
        assert(script == show + code + rest);
        assert(script.len() == 1 + (n + rest.len()));
        assert(show + (code + rest) =~= show + code + rest);
    } else {
        assert(script.len() == 0);
    }
}

proof fn lemma_blinks_len(color: Rgb, left: nat)
    ensures
        blinks_script(color, left).len() == 4 * left + 4,
    decreases left,
{
    if left > 0 {
        lemma_blinks_len(color, (left - 1) as nat);
    }
}

/// The status is looked at anew before each code: a fault that is gone by then
/// is not shown, and one that was not asked for is not either. The blinks of a
/// code that has begun do not depend on it.
pub proof fn codes_look_at_the_status(l: Led, status: u8, co2: Option<u16>, other: u8, value: Option<u16>)
    ensures
        l.phase matches LedPhase::Codes { k, only, .. } ==> (l.next(status, co2).0.phase matches LedPhase::Lit {
            k: j,
            left,
            ..
        } ==> (l.wf() ==> k <= j < 6 && left == j && status & only & (1u8 << j as u8) != 0)),
        l.phase is Lit || l.phase is Off || l.phase is Unlit || l.phase is Again ==> l.next(status, co2) == l.next(
            other,
            value,
        ),
{
    if let LedPhase::Codes { k, only, overlay } = l.phase {
        if k <= 6 {
            lemma_script_skips(k as int, status, only, co2);
        }
    }
}

/// The colours of the codes, in percent: orange for a full buffer, violet for a
/// missing sensor, yellow for a missing network, white after a panic, cyan after
/// a stall; a missing server takes the present CO2 colour, or blue.
pub proof fn codes_have_their_colours(co2: Option<u16>, v: u16)
    ensures
        spec_blink_color(0, co2) == (Rgb { r: 40, g: 20, b: 0 }),
        spec_blink_color(1, None) == (Rgb { r: 0, g: 0, b: 40 }),
        spec_blink_color(1, Some(v)).r == led_color::red_at(v),
        spec_blink_color(1, Some(v)).g == led_color::green_at(v),
        spec_blink_color(1, Some(v)).b == 0,
        spec_blink_color(2, co2) == (Rgb { r: 40, g: 0, b: 40 }),
        spec_blink_color(3, co2) == (Rgb { r: 40, g: 40, b: 0 }),
        spec_blink_color(4, co2) == (Rgb { r: 40, g: 40, b: 40 }),
        spec_blink_color(5, co2) == (Rgb { r: 0, g: 40, b: 40 }),
{
    led_color::palette_is_bounded(v);
}

/// The start-up test: red, green, blue, white and dark, 400 milliseconds each.
pub proof fn the_test_takes_its_course(l: Led, status: u8, co2: Option<u16>)
    requires
        l.phase == (LedPhase::Test { k: 0 }),
    ensures
        led_play(l, status, co2, 10).1 == seq![
            LedAction::Fade(Rgb { r: 30, g: 0, b: 0 }, 400),
            LedAction::Sleep(400),
            LedAction::Fade(Rgb { r: 0, g: 30, b: 0 }, 400),
            LedAction::Sleep(400),
            LedAction::Fade(Rgb { r: 0, g: 0, b: 30 }, 400),
            LedAction::Sleep(400),
            LedAction::Fade(Rgb { r: 30, g: 30, b: 30 }, 400),
            LedAction::Sleep(400),
            LedAction::Fade(Rgb { r: 0, g: 0, b: 0 }, 400),
            LedAction::Sleep(400),
        ],
        led_play(l, status, co2, 10).0 == (Led { phase: LedPhase::Decide, ..l }),
{
    reveal_with_fuel(led_play, 11);
}

/// With a CO2 value and both sensors the indicator shows its colour: for two
/// seconds where the air is good, and else for one breath, bright and then dimmed
/// by the depth of the pulse, half a period each. The time counts toward the next
/// round of codes.
pub proof fn co2_is_shown(l: Led, status: u8, v: u16)
    requires
        l.phase is Decide,
        status & 4 == 0,
    ensures
        ({
            let bright = Rgb { r: led_color::red_at(v) as u8, g: led_color::green_at(v) as u8, b: 0 };
            match led_color::pulse_at(v) {
                None => led_play(l, status, Some(v), 2) == (
                    Led { phase: LedPhase::Stepped { took: 2000 }, ..l },
                    seq![LedAction::Fade(bright, 500), LedAction::Sleep(2000)],
                ),
                Some(p) => {
                    let half = p.period_ms / 2;
                    let left = 100 - p.depth_pct;
                    let dim = Rgb {
                        r: (bright.r * left / 100) as u8,
                        g: (bright.g * left / 100) as u8,
                        b: 0,
                    };
                    led_play(l, status, Some(v), 4) == (
                        Led { phase: LedPhase::Stepped { took: p.period_ms as u32 }, ..l },
                        seq![
                            LedAction::Fade(bright, half),
                            LedAction::Sleep(half as u32),
                            LedAction::Fade(dim, half),
                            LedAction::Sleep(half as u32),
                        ],
                    )
                },
            }
        }),
{
    reveal_with_fuel(led_play, 5);
    let acts = led_play(l, status, Some(v), if led_color::pulse_at(v) is None {
        2
    } else {
        4
    }).1;
    let bright = Rgb { r: led_color::red_at(v) as u8, g: led_color::green_at(v) as u8, b: 0 };
    match led_color::pulse_at(v) {
        None => {
            assert(acts =~= seq![LedAction::Fade(bright, 500), LedAction::Sleep(2000)]);
        },
        Some(p) => {
            let half = p.period_ms / 2;
            let left = 100 - p.depth_pct;
            let dim = Rgb { r: (bright.r * left / 100) as u8, g: (bright.g * left / 100) as u8, b: 0 };
            assert(0 * left == 0);
            assert(acts =~= seq![
                LedAction::Fade(bright, half),
                LedAction::Sleep(half as u32),
                LedAction::Fade(dim, half),
                LedAction::Sleep(half as u32),
            ]);
        },
    }
}

/// Without a CO2 value, or with a sensor missing, the indicator is dark but for
/// the codes of what is wrong; with nothing wrong it looks again after two
/// seconds.
pub proof fn without_co2_only_faults_are_shown(l: Led, status: u8, co2: Option<u16>)
    requires
        l.phase is Decide,
        co2 is None || status & 4 != 0,
    ensures
        l.next(status, co2).1 == LedAction::Fade(Rgb { r: 0, g: 0, b: 0 }, 200),
        status != 0 ==> l.next(status, co2).0 == (Led {
            phase: LedPhase::Codes { k: 0, only: status, overlay: false },
            since_overlay_ms: 0,
        }),
        status == 0 ==> led_play(l, status, co2, 2) == (
            Led { phase: LedPhase::Decide, since_overlay_ms: 0 },
            seq![LedAction::Fade(Rgb { r: 0, g: 0, b: 0 }, 200), LedAction::Sleep(2000)],
        ),
{
    reveal_with_fuel(led_play, 3);
    if status == 0 {
        assert(0u8 & 4 == 0) by (bit_vector);
        assert(led_play(l, status, co2, 2).1 =~= seq![
            LedAction::Fade(Rgb { r: 0, g: 0, b: 0 }, 200),
            LedAction::Sleep(2000),
        ]);
    }
}

/// After a CO2 step the codes come exactly if something is wrong and at least a
/// minute was shown since they last came, of all that is wrong then; else the
/// display goes on as from a new decision, with the time of the step counted.
pub proof fn codes_come_once_a_minute(l: Led, took: u32, status: u8, co2: Option<u16>)
    requires
        l.phase == (LedPhase::Stepped { took }),
        l.since_overlay_ms + took <= u32::MAX,
    ensures
        ({
            let since = (l.since_overlay_ms + took) as u32;
            if status != 0 && since >= 60_000 {
                led_play(l, status, co2, 2) == (
                    Led { phase: LedPhase::Codes { k: 0, only: status, overlay: true }, since_overlay_ms: since },
                    seq![LedAction::Fade(Rgb { r: 0, g: 0, b: 0 }, 200), LedAction::Sleep(300)],
                )
            } else {
                l.next(status, co2) == (Led { phase: LedPhase::Decide, since_overlay_ms: since }).next(status, co2)
            }
        }),
{
    reveal_with_fuel(led_play, 3);
    if status != 0 && l.since_overlay_ms + took >= 60_000 {
        assert(led_play(l, status, co2, 2).1 =~= seq![
            LedAction::Fade(Rgb { r: 0, g: 0, b: 0 }, 200),
            LedAction::Sleep(300),
        ]);
    }
}

/// The changed bits are listed lowest first, each of them and no other.
pub proof fn changes_are_listed_in_order(k: int, changed: u8, j: usize)
    requires
        0 <= k <= 6,
    ensures
        bits_from(k, changed).contains(j) <==> k <= j < 6 && changed & (1u8 << j as u8) != 0,
        forall|a: int, b: int|
            0 <= a < b < bits_from(k, changed).len() ==> #[trigger] bits_from(k, changed)[a] < #[trigger] bits_from(
                k,
                changed,
            )[b],
        forall|a: int| 0 <= a < bits_from(k, changed).len() ==> k <= #[trigger] bits_from(k, changed)[a] < 6,
    decreases 6 - k,
{
    if k < 6 {
        masks_are_bits(k as u8);
        changes_are_listed_in_order(k + 1, changed, j);
        let rest = bits_from(k + 1, changed);
        if changed & mask_of(k) != 0 {
            let all = bits_from(k, changed);
            assert(all =~= seq![k as usize] + rest);
            assert(all[0] == k);
            if rest.contains(j) {
                let i = choose|i: int| 0 <= i < rest.len() && rest[i] == j;
                assert(all[i + 1] == j);
            }
            assert forall|a: int, b: int| 0 <= a < b < all.len() implies #[trigger] all[a] < #[trigger] all[b] by {
                assert(all[b] == rest[b - 1]);
                if a > 0 {
                    assert(all[a] == rest[a - 1]);
                }
            }
            assert forall|a: int| 0 <= a < all.len() implies k <= #[trigger] all[a] < 6 by {
                if a > 0 {
                    assert(all[a] == rest[a - 1]);
                }
            }
            if all.contains(j) && j != k {
                let i = choose|i: int| 0 <= i < all.len() && all[i] == j;
                assert(rest[i - 1] == j);
            }
        }
    }
}

} // verus!
