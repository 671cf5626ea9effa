use meteo_core::led_color::{co2_to_rgb, pulse_params, PulseSpec, Rgb, CO2_MAX_LEVEL};

fn all_co2() -> impl Iterator<Item = u16> {
    0..=u16::MAX
}

#[test]
fn co2_colour_stays_in_palette() {
    for co2 in all_co2() {
        let c = co2_to_rgb(co2);
        assert!(c.r <= CO2_MAX_LEVEL && c.g <= CO2_MAX_LEVEL, "co2={co2}: {c:?}");
        assert_eq!(c.b, 0, "co2={co2}: CO2 palette has no blue");
    }
    assert_eq!(co2_to_rgb(0), Rgb::new(0, CO2_MAX_LEVEL, 0));
    assert_eq!(co2_to_rgb(1500), Rgb::new(CO2_MAX_LEVEL, 0, 0));
    assert_eq!(co2_to_rgb(u16::MAX), Rgb::new(CO2_MAX_LEVEL, 0, 0));
}

#[test]
fn co2_colour_is_continuous_and_monotonic() {
    let mut prev = co2_to_rgb(0);
    for co2 in 1..=u16::MAX {
        let cur = co2_to_rgb(co2);
        assert!(
            cur.r.abs_diff(prev.r) <= 1,
            "red jump at {co2}: {prev:?} -> {cur:?}"
        );
        assert!(
            cur.g.abs_diff(prev.g) <= 1,
            "green jump at {co2}: {prev:?} -> {cur:?}"
        );
        assert!(cur.r >= prev.r, "red decreased at {co2}");
        assert!(cur.g <= prev.g, "green increased at {co2}");
        prev = cur;
    }
}

#[test]
fn pulse_escalates_monotonically() {
    let mut prev: Option<PulseSpec> = None;
    for co2 in all_co2() {
        let p = pulse_params(co2);
        assert_eq!(p.is_some(), co2 >= 1000, "co2={co2}");
        if let Some(spec) = p {
            assert!(spec.depth_pct <= 100, "co2={co2}: {spec:?}");
            assert!(spec.period_ms / 2 > 0, "co2={co2}: {spec:?}");
            if let Some(before) = prev {
                assert!(spec.period_ms <= before.period_ms, "slower pulse at {co2}");
                assert!(spec.depth_pct >= before.depth_pct, "shallower pulse at {co2}");
            }
        }
        prev = p;
    }
}

#[test]
fn scaled_never_brightens() {
    for c in 0..=u8::MAX {
        let rgb = Rgb::new(c, c, c);
        assert_eq!(rgb.scaled(100), rgb);
        assert_eq!(rgb.scaled(0), Rgb::off());
        for pct in 0..=100 {
            assert!(rgb.scaled(pct).r <= c, "c={c} pct={pct}");
        }
    }
}

/// The palette is the linear blend of its corner colours, cut to whole
/// percents, in single precision.
#[test]
fn palette_is_a_linear_blend() {
    let lerp = |a: f32, b: f32, t: f32| (a + (b - a) * t) as u8;
    let t = |co2: u16, lo: u16, hi: u16| f32::from(co2 - lo) / f32::from(hi - lo);
    let m = f32::from(CO2_MAX_LEVEL);
    for co2 in all_co2() {
        let expect = match co2 {
            0..=400 => Rgb::new(0, CO2_MAX_LEVEL, 0),
            401..=700 => Rgb::new(lerp(0.0, m, t(co2, 400, 700)), CO2_MAX_LEVEL, 0),
            701..=1000 => Rgb::new(CO2_MAX_LEVEL, lerp(m, m * 0.5, t(co2, 700, 1000)), 0),
            1001..=1500 => Rgb::new(CO2_MAX_LEVEL, lerp(m * 0.5, 0.0, t(co2, 1000, 1500)), 0),
            _ => Rgb::new(CO2_MAX_LEVEL, 0, 0),
        };
        assert_eq!(co2_to_rgb(co2), expect, "co2={co2}");
    }
}

#[test]
fn pulse_steps() {
    let pulse = |period_ms, depth_pct| Some(PulseSpec { period_ms, depth_pct });
    assert_eq!(pulse_params(999), None);
    assert_eq!(pulse_params(1000), pulse(4000, 35));
    assert_eq!(pulse_params(1400), pulse(2200, 55));
    assert_eq!(pulse_params(2000), pulse(1400, 75));
    assert_eq!(pulse_params(3000), pulse(900, 90));
}
