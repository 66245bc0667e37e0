use font_tuner::config::{Aa, Profile, DW_ONE};
use font_tuner::custom::{
    command, decimals, em_px, font_line, from_hundredths, hundredths, hundredths_text, ini_text, px, read_controls, row_top, samples, set_controls, tops, Command, Controls, Sample,
    GAMMA_MAX, GAMMA_MIN, ID_APPLY, ID_CLOSE, ID_COPY, ID_EMBOLDEN, ID_FONT, ID_GAMMA, ID_GAMMA_MODE, ID_HINTING,
};
use font_tuner::gdi::Metrics;

fn number(s: &str) -> f32 {
    s.parse().unwrap()
}

/// A profile's numeral as the library takes numbers.
fn fixed(s: &str) -> i64 {
    (f64::from(number(s)) * DW_ONE as f64) as i64
}

fn file_of(p: &Profile) -> String {
    ini_text(p, fixed(&p.gamma), fixed(&p.contrast), fixed(&p.weight))
}

#[test]
fn ini_round_trips_through_the_core_parser() {
    let mut p = Profile::accurate();
    p.gamma_mode = 2;
    p.embolden = 8;
    p.contrast = "1.35".to_string();
    let q = Profile::from_ini_str(&file_of(&p));
    assert_eq!(q.hinting, p.hinting);
    assert_eq!(q.aa, p.aa);
    assert_eq!(q.lcd_filter, p.lcd_filter);
    assert_eq!(q.gamma_mode, 2);
    assert_eq!(q.embolden, 8);
    assert!((number(&q.gamma) - number(&p.gamma)).abs() < 1e-6);
    assert!((number(&q.contrast) - 1.35).abs() < 1e-6);
    assert!((number(&q.weight) - number(&p.weight)).abs() < 1e-6);
}

#[test]
fn slider_units_round_trip() {
    for n in [GAMMA_MIN, 100, 125, GAMMA_MAX] {
        assert_eq!(hundredths(from_hundredths(n)), n);
    }
}

#[test]
fn numbers_have_slider_positions() {
    let at = |v: f64| hundredths((v * DW_ONE as f64) as i64);
    assert_eq!((at(1.25), at(0.994), at(0.996), at(-0.5)), (125, 99, 100, -50));
    assert_eq!((hundredths(i64::MAX), hundredths(i64::MIN)), (i32::MAX, i32::MIN));
    assert_eq!(from_hundredths(250), DW_ONE * 5 / 2);
    for n in [i32::MIN, -1, 0, 33, i32::MAX] {
        assert_eq!(hundredths(from_hundredths(n)), n);
    }
    // The text says the same number.
    assert_eq!(at(f64::from(number(&hundredths_text(133)))), 133);
}

#[test]
fn the_file_is_written_line_by_line() {
    let mut p = Profile::clean_greyscale();
    p.embolden = -3;
    let lines: Vec<String> = file_of(&p).split("\r\n").map(str::to_string).collect();
    assert_eq!(lines[1], "[General]");
    assert_eq!(lines[2], "Name=Custom");
    assert_eq!(lines[3], "HintingMode=0");
    assert_eq!(lines[4], "AntiAliasMode=0");
    assert_eq!(&lines[7..10], ["GammaValue=1.25", "Contrast=1.00", "RenderWeight=1.00"]);
    assert_eq!(lines[10], "NormalWeight=-3");
    assert_eq!(lines[11], "", "the last line is ended too");
    assert_eq!(lines.len(), 12);
}

#[test]
fn numbers_have_two_decimals() {
    assert_eq!(hundredths_text(125), "1.25");
    assert_eq!(hundredths_text(100), "1.00");
    assert_eq!(hundredths_text(7), "0.07");
    assert_eq!(hundredths_text(-205), "-2.05");
    assert_eq!(hundredths_text(i32::MIN), "-21474836.48");
    // As single-precision numbers are written: a half goes to the even side.
    for v in [0.0f32, 1.0, 1.3, 1.004, 1.006, 0.125, 0.375, 2.675, -1.25, -0.001, 33.333, 1234.567] {
        assert_eq!(decimals((f64::from(v) * DW_ONE as f64) as i64), format!("{v:.2}"));
    }
}

#[test]
fn controls_show_and_read_a_profile() {
    let mut p = Profile::accurate();
    p.gamma_mode = -1;
    p.embolden = 100;
    let c = set_controls(&p, 1000, 100, 10);
    assert_eq!(c, Controls { hinting: 2, aa: 3, lcd_filter: 2, gamma_mode: 3, gamma: 300, contrast: 100, weight: 50, embolden: 48 });
    let mut q = Profile::clean_greyscale();
    read_controls(&mut q, &c);
    assert_eq!((q.hinting, q.aa, q.lcd_filter, q.gamma_mode, q.embolden), (2, Aa::LightLcdRgb, 2, -1, 48));
    assert_eq!((q.gamma.as_str(), q.contrast.as_str(), q.weight.as_str()), ("3.00", "1.00", "0.50"));
    assert_eq!(set_controls(&q, 300, 100, 50), c);
}

#[test]
fn values_off_the_lists_show_the_first_entry() {
    let mut p = Profile::clean_greyscale();
    p.hinting = 7;
    p.lcd_filter = -1;
    p.gamma_mode = 9;
    let c = set_controls(&p, 100, 100, 100);
    assert_eq!((c.hinting, c.lcd_filter, c.gamma_mode), (0, 0, 0));
}

#[test]
fn commands_come_from_their_controls() {
    let sent = |id: usize, code: usize| command(id | code << 16);
    assert_eq!(sent(ID_HINTING, 1), Command::ReadControls);
    assert_eq!(sent(ID_GAMMA_MODE, 1), Command::ReadControls);
    assert_eq!(sent(ID_HINTING, 5), Command::Nothing);
    assert_eq!(sent(ID_GAMMA, 1), Command::Nothing);
    assert_eq!(sent(ID_EMBOLDEN, 0), Command::Nothing);
    assert_eq!(sent(ID_FONT, 0), Command::ChooseFont);
    assert_eq!(sent(ID_COPY, 0), Command::CopyCurrent);
    assert_eq!(sent(ID_APPLY, 0), Command::Apply);
    assert_eq!(sent(ID_CLOSE, 0), Command::Close);
    assert_eq!(sent(ID_CLOSE, 1), Command::Nothing);
}

#[test]
fn the_dialog_is_laid_out_by_rows() {
    assert_eq!((row_top(0), row_top(7)), (12, 222));
    let t = tops();
    assert_eq!((t.font, t.light, t.dark, t.buttons, t.height), (252, 286, 356, 430, 472));
    assert_eq!((px(96, 30), px(144, 30), px(120, 31), px(192, -5)), (30, 45, 38, -10));
}

#[test]
fn samples_fit_the_preview() {
    let tm = |height: i32, internal_leading: i32| Metrics { height, ascent: 0, descent: 0, internal_leading };
    assert_eq!((em_px(&tm(16, 3)), em_px(&tm(3, 3))), (13, 12));
    let (a, b) = samples(13, 96, 64);
    assert_eq!(a, Sample { px: 13, x: 6, baseline: 19 });
    assert_eq!(b, Some(Sample { px: 19, x: 6, baseline: 44 }));
    let (a, b) = samples(3, 96, 20);
    assert_eq!(a.px, 6);
    assert_eq!(b, None, "27 + 2 does not fit in 20");
    assert_eq!(font_line("Meiryo", 13), "Meiryo  13px");
}
