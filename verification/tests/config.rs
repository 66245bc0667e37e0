use font_tuner::config::{dw_values, Aa, DwParams, Profile, DW_ONE};
use font_tuner::text;

/// The number that a setting's numeral stands for.
fn number(s: &str) -> f32 {
    s.parse().unwrap()
}

/// What DirectWrite is told of a profile: gamma, contrast, ClearType level.
fn told(p: &Profile) -> (f32, f32, f32) {
    let fixed = |s: &str| (f64::from(number(s)) * DW_ONE as f64) as i64;
    let given = |s: &Option<String>| s.as_deref().map(fixed);
    let v = dw_values(fixed(&p.gamma), given(&p.dw.gamma), given(&p.dw.contrast), given(&p.dw.cleartype_level));
    let float = |v: i64| (v as f64 / DW_ONE as f64) as f32;
    (float(v.gamma), float(v.contrast), float(v.cleartype_level))
}

fn near(a: f32, b: f32) -> bool {
    (a - b).abs() < 1e-6
}

#[test]
fn from_ini_parses_accurate() {
    let ini = "\
; Accurate
[General]
HintingMode=2
AntiAliasMode=4
GammaValue=1.3
Contrast=1.0
RenderWeight=1.0
LcdFilter=2
[DirectWrite]
GammaValue=1.4
Contrast=0.0
";
    let p = Profile::from_ini_str(ini);
    assert_eq!(p.hinting, 2);
    assert_eq!(p.aa, Aa::LightLcdRgb);
    assert_eq!(p.lcd_filter, 2);
    assert!(near(number(&p.gamma), 1.3), "first (General) GammaValue wins over DirectWrite");
    assert!(near(number(&p.contrast), 1.0));
    let (gamma, contrast, level) = told(&p);
    assert!(near(gamma, 1.4), "[DirectWrite] GammaValue lands in dw");
    assert!(near(contrast, 0.0625), "Contrast=0.0 is clamped");
    assert!(near(level, 1.0), "absent key keeps the default");
    assert_eq!(p.dw.rendering_mode, 5);
}

#[test]
fn from_ini_parses_gamma_mode() {
    let p = Profile::from_ini_str("[General]\nGammaMode=1\nNormalWeight=8\n");
    assert_eq!(p.gamma_mode, 1);
    assert_eq!(p.embolden, 8);
    // Shipped profiles say GammaMode=0 (plain power gamma), the default.
    assert_eq!(Profile::from_ini_str("[General]\nGammaMode=0\n").gamma_mode, 0);
    assert_eq!(Profile::from_ini_str("[General]\n").gamma_mode, 0);
}

#[test]
fn clipbox_fix_from_experimental_section_any_case() {
    assert!(Profile::from_ini_str("").clipbox_fix, "the default is on");
    assert!(!Profile::from_ini_str("[Experimental]\nclipboxfix=0\n").clipbox_fix);
    assert!(Profile::from_ini_str("[Experimental]\nClipBoxFix=1\n").clipbox_fix);
    // a per-process section must not override the plain one
    assert!(!Profile::from_ini_str("[Experimental]\nClipboxfix=0\n[Experimental@idea64.exe]\nclipboxfix=1\n").clipbox_fix);
    // and a key outside [Experimental] is ignored
    assert!(Profile::from_ini_str("ClipBoxFix=0\n").clipbox_fix);
}

#[test]
fn dw_params_derive_from_general_gamma_when_section_absent() {
    // 1.25^2 = 1.5625 > 1.3 -> /2
    let p = Profile::from_ini_str("GammaValue=1.25\n");
    assert!(near(told(&p).0, 1.5625 / 2.0));
    // 1.1^2 = 1.21 <= 1.3 -> 0.7
    let p = Profile::from_ini_str("GammaValue=1.1\n");
    assert!(near(told(&p).0, 0.7));
    // a [DirectWrite] GammaValue must not leak into the general gamma
    let p = Profile::from_ini_str("[DirectWrite]\nGammaValue=0.9\nRenderingMode=2\n[General]\nGammaValue=1.3\n");
    assert!(near(number(&p.gamma), 1.3));
    assert!(near(told(&p).0, 0.9));
    assert_eq!(p.dw.rendering_mode, 2);

    // [DirectWrite] GammaValue=0 (as the greyscale profiles ship) means
    // "don't override": derive from the general gamma, never a literal 0
    // (DirectWrite needs gamma > 0).
    let p = Profile::from_ini_str("[General]\nGammaValue=1.25\n[DirectWrite]\nGammaValue=0.0\n");
    assert!(near(told(&p).0, 1.5625 / 2.0), "gamma 0 -> derived, got {}", told(&p).0);
}

#[test]
fn directwrite_is_told_what_it_takes() {
    let one = DW_ONE;
    let v = dw_values(one, Some(100 * one), Some(100 * one), Some(100 * one));
    assert_eq!((v.gamma, v.contrast, v.cleartype_level), (20 * one, 10 * one, one));
    let v = dw_values(one, Some(1), Some(-one), Some(-one));
    assert_eq!((v.gamma, v.contrast, v.cleartype_level), (one / 16, one / 16, 0));
    let v = dw_values(i64::MIN, Some(-one), None, None);
    assert_eq!((v.gamma, v.contrast, v.cleartype_level), (20 * one, one, one));
    assert_eq!(DwParams::derived_from(2 * one).gamma, 2 * one);
    assert_eq!(DwParams::derived_from(i64::MIN).gamma, i64::MAX);
    assert_eq!(DwParams::derived_from(0).gamma, 7 * one / 10);
}

#[test]
fn from_ini_greyscale_defaults() {
    let p = Profile::from_ini_str("AntiAliasMode=0\nHintingMode=0\nGammaValue=1.25\n");
    assert_eq!(p.aa, Aa::Grey);
    assert_eq!(p.hinting, 0);
    assert!(near(number(&p.gamma), 1.25));
}

#[test]
fn aa_mode_and_is_lcd_all_variants() {
    assert_eq!(Aa::Grey.mode(), 0);
    assert_eq!(Aa::LcdRgb.mode(), 2);
    assert_eq!(Aa::LcdBgr.mode(), 3);
    assert_eq!(Aa::LightLcdRgb.mode(), 4);
    assert_eq!(Aa::LightLcdBgr.mode(), 5);
    assert!(!Aa::Grey.is_lcd());
    for aa in [Aa::LcdRgb, Aa::LcdBgr, Aa::LightLcdRgb, Aa::LightLcdBgr] {
        assert!(aa.is_lcd());
    }
}

#[test]
fn a_mode_number_names_its_mode() {
    for aa in [Aa::Grey, Aa::LcdRgb, Aa::LcdBgr, Aa::LightLcdRgb, Aa::LightLcdBgr] {
        assert_eq!(Aa::from_mode(aa.mode()), Some(aa));
        assert_eq!(aa.is_light(), aa.mode() >= 4);
    }
    assert_eq!(Aa::from_mode(1), None);
    assert_eq!(Aa::from_mode(6), None);
    assert_eq!(Aa::from_mode(-1), None);
}

#[test]
fn all_presets_construct() {
    assert_eq!(Profile::clean_greyscale().aa, Aa::Grey);
    assert_eq!(Profile::clean_sharp().aa, Aa::LcdRgb);
    assert_eq!(Profile::accurate().aa, Aa::LightLcdRgb);
    assert_eq!(Profile::clean_dark_greyscale().aa, Aa::Grey);
    assert_eq!(Profile::clean_sharp_dark().aa, Aa::LcdRgb);
    assert_eq!(Profile::accurate().lcd_filter, 2);
    assert!(near(number(&Profile::clean_dark_greyscale().contrast), 0.9));
}

#[test]
fn antialias_mode_bgr_and_light_bgr_and_invalid() {
    assert_eq!(Profile::from_ini_str("AntiAliasMode=3\n").aa, Aa::LcdBgr);
    assert_eq!(Profile::from_ini_str("AntiAliasMode=5\n").aa, Aa::LightLcdBgr);
    // unknown value keeps the default (Grey)
    assert_eq!(Profile::from_ini_str("AntiAliasMode=9\n").aa, Aa::Grey);
}

#[test]
fn contrast_weight_normalweight_and_comments() {
    let p = Profile::from_ini_str("; a comment line\nContrast=0.8\nRenderWeight=1.4\nNormalWeight=32\n");
    assert!(near(number(&p.contrast), 0.8));
    assert!(near(number(&p.weight), 1.4));
    assert_eq!(p.embolden, 32);
}

#[test]
fn malformed_values_keep_defaults() {
    let base = Profile::clean_greyscale();
    let p = Profile::from_ini_str(
        "HintingMode=x\nAntiAliasMode=y\nGammaValue=z\nContrast=q\n\
         RenderWeight=w\nLcdFilter=n\nNormalWeight=m\nNoEquectionHere\nUnknownKey=1\n",
    );
    assert_eq!(p.hinting, base.hinting);
    assert_eq!(p.aa, base.aa);
    assert!(near(number(&p.gamma), number(&base.gamma)));
    assert!(near(number(&p.contrast), number(&base.contrast)));
    assert!(near(number(&p.weight), number(&base.weight)));
    assert_eq!(p.lcd_filter, base.lcd_filter);
    assert_eq!(p.embolden, base.embolden);
}

#[test]
fn the_first_entry_with_a_key_decides() {
    let p = Profile::from_ini_str("HintingMode=1\nHintingMode=2\n");
    assert_eq!(p.hinting, 1);
    // Even where it is no number, in the general section.
    let p = Profile::from_ini_str("HintingMode=x\nHintingMode=2\n");
    assert_eq!(p.hinting, 0);
    // The other sections pass over what is no number.
    let p = Profile::from_ini_str("[DirectWrite]\nRenderingMode=x\nrenderingmode=3\nGammaValue=q\nGammaValue=2\n");
    assert_eq!(p.dw.rendering_mode, 3);
    assert_eq!(p.dw.gamma.as_deref(), Some("2"));
}

#[test]
fn an_empty_text_is_clean_greyscale() {
    let p = Profile::from_ini_str("");
    let base = Profile::clean_greyscale();
    assert_eq!(p.gamma, base.gamma);
    assert_eq!(p.weight, base.weight);
    assert_eq!(p.contrast, base.contrast);
    assert_eq!(p.gamma_mode, base.gamma_mode);
    assert_eq!(p.aa, base.aa);
    assert_eq!(p.hinting, base.hinting);
    assert_eq!(p.lcd_filter, base.lcd_filter);
    assert_eq!(p.embolden, base.embolden);
    assert_eq!(p.dw.rendering_mode, base.dw.rendering_mode);
    assert_eq!(p.clipbox_fix, base.clipbox_fix);
}

#[test]
fn the_rendering_mode_is_clamped() {
    assert_eq!(Profile::from_ini_str("[DirectWrite]\nRenderingMode=99\n").dw.rendering_mode, 6);
    assert_eq!(Profile::from_ini_str("[DirectWrite]\nRenderingMode=-3\n").dw.rendering_mode, 0);
}

#[test]
fn a_section_for_one_program_is_not_read() {
    let p = Profile::from_ini_str("[General@a.exe]\nHintingMode=2\n[ freetype ]\nHintingMode=1\n");
    assert_eq!(p.hinting, 1);
}

#[test]
fn real_numbers_are_what_the_float_parser_takes() {
    for s in [
        "1", "1.", ".5", "1.25", "-1.5", "+2", "1e3", "1E-3", "1.5e+10", "inf", "-Infinity", "NaN", "+nan", "", ".", "+", "-", "e1",
        "1e", "1e+", "1.2.3", "0x10", "1_000", "1f", "in", "infinit", " 1", "1 ", "--1", "1,5", "١", "1e1.5",
    ] {
        let chars: Vec<char> = s.chars().collect();
        assert_eq!(text::is_real(&chars), s.parse::<f32>().is_ok(), "{s:?}");
        assert_eq!(text::parse_i32(&chars), s.parse::<i32>().ok(), "{s:?}");
    }
}

#[test]
fn integers_are_what_the_integer_parser_takes() {
    for s in ["2147483647", "2147483648", "-2147483648", "-2147483649", "99999999999999999999", "+7", "-0", "007"] {
        let chars: Vec<char> = s.chars().collect();
        assert_eq!(text::parse_i32(&chars), s.parse::<i32>().ok(), "{s:?}");
        assert_eq!(text::parse_unsigned(&chars, u64::from(u32::MAX)), s.parse::<u32>().ok().map(u64::from), "{s:?}");
    }
}
