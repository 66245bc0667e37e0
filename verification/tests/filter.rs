use font_tuner::config::Profile;
use font_tuner::filter::{Tables, ONE};

fn srgb_to_linear(x: f32) -> f32 {
    if x <= 10.0 / 255.0 {
        x / 12.92
    } else {
        ((x + 0.055) / 1.055).powf(2.4)
    }
}

fn fixed(x: f32) -> u64 {
    (f64::from(x) * ONE as f64) as u64
}

/// The tables for a gamma, a weight, a contrast and a gamma mode.
fn build(gamma: f32, weight: f32, contrast: f32, mode: i32) -> Tables {
    let mut encode = Vec::new();
    let mut curve = Vec::new();
    for byte in 0..=255u8 {
        let x = f32::from(byte) / 255.0;
        encode.push(fixed(match mode {
            m if m < 0 => x,
            1 => srgb_to_linear(x),
            2 => (srgb_to_linear(x) + x) / 2.0,
            _ => x.powf(gamma),
        }));
        let t = x.powf(1.0 / weight);
        let a = if t < 0.5 { (t * 2.0).powf(contrast) / 2.0 } else { 1.0 - ((1.0 - t) * 2.0).powf(contrast) / 2.0 };
        curve.push(fixed(a.clamp(0.0, 1.0)));
    }
    Tables::new(encode, curve).expect("tables")
}

fn tables_for(p: &Profile) -> Tables {
    build(p.gamma.parse().unwrap(), p.weight.parse().unwrap(), p.contrast.parse().unwrap(), p.gamma_mode)
}

#[test]
fn endpoints_and_monotone() {
    let t = build(1.25, 1.0, 1.0, 0);
    assert_eq!(t.blend(255, 0, 0), 255);
    assert_eq!(t.blend(255, 0, 255), 0);
    let mut prev = 256i32;
    for c in 0..=255u8 {
        let v = i32::from(t.blend(255, 0, c));
        assert!(v <= prev);
        prev = v;
    }
}

#[test]
fn greyscale_regression_g125() {
    let t = build(1.25, 1.0, 1.0, 0);
    for &(cov, expect) in &[(0u8, 255u8), (32, 229), (64, 202), (128, 146), (192, 83), (255, 0)] {
        let got = i32::from(t.blend(255, 0, cov));
        assert!((got - i32::from(expect)).abs() <= 1, "cov={cov}: got {got}, expected {expect}");
    }
}

#[test]
fn all_gamma_modes_build_and_blend() {
    for &mode in &[-1i32, 0, 1, 2, 5] {
        let t = build(1.20, 1.0, 1.0, mode);
        assert_eq!(t.blend(255, 0, 255), 0, "mode={mode} full coverage");
        assert_eq!(t.blend(255, 0, 0), 255, "mode={mode} zero coverage keeps bg");
        let mut prev = 256i32;
        for c in 0..=255u8 {
            let v = i32::from(t.blend(255, 0, c));
            assert!(v <= prev, "mode={mode} non-monotone at cov={c}");
            prev = v;
        }
    }
}

#[test]
fn weight_and_contrast_curve() {
    let t = build(1.25, 1.6, 0.7, 0);
    assert_eq!(t.blend(200, 10, 0), 200, "zero coverage returns bg unchanged");
    assert_eq!(t.blend(255, 0, 255), 0);
    let mid = t.blend(255, 0, 128);
    assert!(mid > 0, "mid={mid}");
    assert!(mid < 255, "mid={mid}");
}

#[test]
fn tables_for_each_preset_blends_endpoints() {
    for p in [
        Profile::clean_greyscale(),
        Profile::clean_sharp(),
        Profile::accurate(),
        Profile::clean_dark_greyscale(),
        Profile::clean_sharp_dark(),
    ] {
        let t = tables_for(&p);
        assert_eq!(t.blend(255, 0, 255), 0);
        assert_eq!(t.blend(255, 0, 0), 255);
    }
}

/// A ramp: byte b is light b / 256, and coverage c is alpha c / 256, so that
/// every mix is an exact fraction.
fn ramp() -> Tables {
    let step = ONE / 256;
    Tables::new((0..256u64).map(|b| b * step).collect(), (0..256u64).map(|c| c * step).collect()).unwrap()
}

#[test]
fn a_mix_is_decoded_to_the_nearest_byte() {
    let t = ramp();
    // 100 * 128/256 + 0: exactly byte 50.
    assert_eq!(t.blend(0, 100, 128), 50);
    // 101 * 128/256 = 50.5: of two as near the smaller.
    assert_eq!(t.blend(0, 101, 128), 50);
    // 103 * 129/256 = 51.9.
    assert_eq!(t.blend(0, 103, 129), 52);
    assert_eq!(t.blend(200, 10, 0), 200);
}

#[test]
fn tables_that_do_not_grow_are_refused() {
    let flat: Vec<u64> = vec![0; 256];
    assert!(Tables::new(flat.clone(), flat.clone()).is_some());
    let mut falling = flat.clone();
    falling[0] = 1;
    assert!(Tables::new(falling, flat.clone()).is_none());
    assert!(Tables::new(flat[..255].to_vec(), flat.clone()).is_none());
    let mut bright = flat.clone();
    bright[255] = ONE + 1;
    assert!(Tables::new(bright.clone(), flat.clone()).is_none());
    assert!(Tables::new(flat, bright).is_none());
}

#[test]
fn blends_stay_between_ink_and_background() {
    let t = build(1.25, 1.2, 0.9, 0);
    for bg in (0..=255u8).step_by(15) {
        for fg in (0..=255u8).step_by(15) {
            for cov in (0..=255u8).step_by(5) {
                let v = t.blend(bg, fg, cov);
                assert!(bg.min(fg) <= v && v <= bg.max(fg));
            }
        }
    }
}

#[test]
fn a_mask_follows_the_blend() {
    let t = build(1.25, 1.0, 1.0, 0);
    for light in [false, true] {
        assert_eq!(t.mask_alpha(0, light), 0);
        assert_eq!(t.mask_alpha(255, light), 255);
        let mut prev = 0;
        for cov in 0..=255u8 {
            let a = t.mask_alpha(cov, light);
            assert!(a >= prev);
            assert_eq!(a, if light { t.blend(0, 255, cov) } else { 255 - t.blend(255, 0, cov) });
            prev = a;
        }
    }
}
