use font_tuner::config::{Aa, Profile};
use font_tuner::faces::{Ft, MAX_FACES, MAX_FACE_BYTES, UNKEYED};
use font_tuner::ft::{self, embolden_strength, flags, glyph_of, prepare, Bitmap, Glyph, GlyphStyle, Matrix, PIXEL_MODE_GRAY, PIXEL_MODE_LCD};
use font_tuner::glyphs::{GlyphKey, Glyphs, GLYPH_BYTES, MAX_GLYPH_BYTES};
use std::sync::Arc;

const FT_LOAD_NO_HINTING: i32 = 1 << 1;
const FT_LOAD_FORCE_AUTOHINT: i32 = 1 << 5;
const FT_LOAD_TARGET_NORMAL: i32 = 0;
const FT_LOAD_TARGET_LIGHT: i32 = 1 << 16;
const FT_LOAD_TARGET_LCD: i32 = 3 << 16;
const FT_RENDER_MODE_NORMAL: i32 = 0;
const FT_RENDER_MODE_LCD: i32 = 3;

#[test]
fn load_target_per_aa_mode_matches_upstream() {
    let mut p = Profile::clean_greyscale();
    let (f, r) = flags(&p);
    assert_eq!(f & (0xF << 16), FT_LOAD_TARGET_NORMAL);
    assert_eq!(r, FT_RENDER_MODE_NORMAL);
    p.aa = Aa::LcdRgb;
    let (f, r) = flags(&p);
    assert_eq!(f & (0xF << 16), FT_LOAD_TARGET_LCD);
    assert_eq!(r, FT_RENDER_MODE_LCD);
    for aa in [Aa::LightLcdRgb, Aa::LightLcdBgr] {
        p.aa = aa;
        let (f, r) = flags(&p);
        assert_eq!(f & (0xF << 16), FT_LOAD_TARGET_LIGHT, "{aa:?}");
        assert_eq!(r, FT_RENDER_MODE_LCD);
    }
    p.hinting = 1;
    assert_ne!(flags(&p).0 & FT_LOAD_NO_HINTING, 0);
    p.hinting = 2;
    assert_ne!(flags(&p).0 & FT_LOAD_FORCE_AUTOHINT, 0);
}

#[test]
fn the_filter_is_set_for_lcd_runs_only() {
    let mut p = Profile::accurate();
    assert_eq!(prepare(&p), Some(2));
    p.aa = Aa::Grey;
    assert_eq!(prepare(&p), None);
}

/// A glyph of one byte.
fn dot(cov: u8) -> Glyph {
    Glyph { width: 1, rows: 1, pitch: 1, pixel_mode: PIXEL_MODE_GRAY, left: 0, top: 0, advance_px: 1, buffer: vec![cov] }
}

/// Faces stay open under their keys and come back without reopening; past
/// `MAX_FACES` the least recently used one is closed.
#[test]
fn faces_are_kept_by_key() {
    let mut ft = Ft::new();
    ft.adopt(1, 101, vec![]);
    ft.adopt(2, 102, vec![]);
    assert!(ft.activate(1), "still open");
    assert!(!ft.activate(99), "never opened");
    let mut gone = Vec::new();
    for k in 10..10 + MAX_FACES as u64 {
        gone.extend(ft.adopt(k, k as usize, vec![]));
    }
    assert!(!ft.activate(2), "the least recently used face was closed");
    assert_eq!(gone, [102, 101], "in the order of their last use");
    ft.close(10);
    assert!(!ft.activate(10));
    assert!(ft.activate(11));
}

#[test]
fn closing_hands_back_the_face() {
    let mut ft = Ft::new();
    assert_eq!(ft.active_face(), None);
    assert_eq!(ft.adopt(1, 101, vec![]), Vec::<usize>::new());
    assert_eq!(ft.adopt(2, 102, vec![]), Vec::<usize>::new());
    assert_eq!(ft.active_face(), Some(102));
    assert!(ft.activate(1));
    assert_eq!(ft.active_face(), Some(101));
    assert_eq!(ft.close(2), Some(102));
    assert_eq!(ft.active_face(), Some(101));
    assert_eq!(ft.close(2), None);
    assert_eq!(ft.close(1), Some(101));
    assert_eq!(ft.active_face(), None);
    assert_eq!(ft.plain_key(36, 20, &Profile::clean_greyscale()), None);
}

#[test]
fn everything_can_be_closed() {
    let mut ft = Ft::new();
    ft.adopt(1, 101, vec![]);
    ft.adopt(2, 102, vec![]);
    ft.activate(1);
    assert_eq!(ft.close_all(), [102, 101]);
    assert_eq!(ft.active_face(), None);
    assert!(!ft.activate(1));
    assert!(ft.close_all().is_empty());
}

#[test]
fn reopening_a_key_closes_what_it_had() {
    let mut ft = Ft::new();
    ft.adopt(7, 101, vec![]);
    assert_eq!(ft.adopt(7, 102, vec![]), [101]);
    assert_eq!(ft.active_face(), Some(102));
}

#[test]
fn large_fonts_push_out_the_others() {
    let mut ft = Ft::new();
    ft.adopt(1, 101, vec![0; 10]);
    ft.adopt(2, 102, vec![]);
    assert_eq!(ft.adopt(3, 103, vec![0; MAX_FACE_BYTES]), [101]);
    assert!(ft.activate(2));
    assert!(ft.activate(3));
    // The face in use stays, whatever its size.
    let gone = ft.adopt(4, 104, vec![0; MAX_FACE_BYTES + 1]);
    assert_eq!(gone, [102, 103]);
    assert_eq!(ft.active_face(), Some(104));
    assert!(ft.activate(4));
}

#[test]
fn unkeyed_faces_get_keys_of_their_own() {
    let mut ft = Ft::new();
    let a = ft.unkeyed();
    let b = ft.unkeyed();
    assert!(a >= UNKEYED && b >= UNKEYED && a != b);
}

/// A glyph is rasterised once per face / size / style / settings: the
/// second request returns the cached bitmap itself.
#[test]
fn glyphs_are_cached() {
    let mut ft = Ft::new();
    ft.adopt(1, 101, vec![]);
    let p = Profile::clean_greyscale();
    let key = ft.plain_key(36, 20, &p).unwrap();
    let a = ft.cached(key, || Some(dot(1))).expect("glyph");
    let b = ft.cached(key, || Some(dot(2))).expect("glyph");
    assert!(Arc::ptr_eq(&a, &b), "cached");
    let other = ft.plain_key(36, 21, &p).unwrap();
    let c = ft.cached(other, || Some(dot(3))).expect("glyph");
    assert!(!Arc::ptr_eq(&a, &c), "another size is another glyph");
    let plain = GlyphStyle::at(100 * 64);
    let bold = GlyphStyle { bold: true, ..GlyphStyle::at(100 * 64) };
    let k1 = ft.styled_key(36, &plain, &p).unwrap();
    let k2 = ft.styled_key(36, &bold, &p).unwrap();
    let s1 = ft.cached(k1, || Some(dot(4))).expect("glyph");
    let s2 = ft.cached(k2, || Some(dot(5))).expect("glyph");
    assert!(!Arc::ptr_eq(&s1, &s2), "a style is part of the key");
    // At 100px the synthetic bold adds 2.5px (em/40): enough to show.
    assert_eq!(bold.bold_strength(), (160, 106));
}

/// Closing a face, or opening another under its key, forgets the glyphs
/// cached under that key: the next face there may be another font.
#[test]
fn a_reused_key_does_not_serve_the_old_glyphs() {
    let mut ft = Ft::new();
    ft.adopt(7, 101, vec![]);
    let p = Profile::clean_greyscale();
    let key = ft.plain_key(36, 20, &p).unwrap();
    let first = ft.cached(key, || Some(dot(1))).expect("glyph");
    ft.close(7);
    ft.adopt(7, 102, vec![]);
    let key = ft.plain_key(36, 20, &p).unwrap();
    let other = ft.cached(key, || Some(dot(2))).expect("glyph");
    assert!(!Arc::ptr_eq(&first, &other), "rendered again, not served from the closed face");
    assert_eq!(other.buffer, [2]);
    let again = ft.cached(key, || Some(dot(3))).expect("glyph");
    assert_eq!(again.buffer, [2]);
    ft.adopt(7, 103, vec![]);
    let reopened = ft.cached(key, || Some(dot(4))).expect("glyph");
    assert!(!Arc::ptr_eq(&again, &reopened));
    assert_eq!(reopened.buffer, [4]);
}

#[test]
fn keys_hold_what_a_glyph_depends_on() {
    let mut ft = Ft::new();
    ft.adopt(1, 101, vec![]);
    let p = Profile::clean_greyscale();
    let key = ft.plain_key(36, 20, &p).unwrap();
    let mut heavier = Profile::clean_greyscale();
    heavier.embolden = 8;
    assert_ne!(ft.plain_key(36, 20, &heavier).unwrap(), key);
    assert_ne!(ft.plain_key(37, 20, &p).unwrap(), key);
    assert_ne!(ft.styled_key(36, &GlyphStyle::at(20 * 64), &p).unwrap(), key, "a whole pixel size is another request");
    ft.adopt(2, 102, vec![]);
    assert_ne!(ft.plain_key(36, 20, &p).unwrap(), key);
    let mut lcd = Profile::clean_greyscale();
    lcd.aa = Aa::LcdRgb;
    assert_ne!(ft.plain_key(36, 20, &lcd).unwrap(), key);
}

fn key(gi: u32) -> GlyphKey {
    GlyphKey { face: 1, gi, size: 20, style: 0, load_flags: 0, render_mode: 0, lcd_filter: 0, embolden: 0 }
}

#[test]
fn a_failed_glyph_is_not_kept() {
    let mut g = Glyphs::new();
    assert!(g.cached(key(1), || None).is_none());
    assert!(g.get(&key(1)).is_none());
    assert!(g.cached(key(1), || Some(dot(1))).is_some());
    assert_eq!(g.get(&key(1)).unwrap().buffer, [1]);
}

#[test]
fn a_full_cache_starts_over() {
    let mut g = Glyphs::new();
    let big = MAX_GLYPH_BYTES - GLYPH_BYTES - 10;
    let large = |n: usize| Glyph { width: n as i32, pitch: n as i32, buffer: vec![0; n], ..dot(0) };
    g.cached(key(1), || Some(large(big)));
    assert!(g.get(&key(1)).is_some());
    g.cached(key(2), || Some(dot(2)));
    assert!(g.get(&key(1)).is_none(), "over the limit everything goes");
    assert!(g.get(&key(2)).is_some(), "but for the new glyph");
}

#[test]
fn forgetting_a_face_keeps_the_others() {
    let mut g = Glyphs::new();
    let other = GlyphKey { face: 2, ..key(1) };
    g.cached(key(1), || Some(dot(1)));
    g.cached(other, || Some(dot(2)));
    g.forget(1);
    assert!(g.get(&key(1)).is_none());
    assert_eq!(g.get(&other).unwrap().buffer, [2]);
}

#[test]
fn styles_have_a_matrix() {
    let plain = GlyphStyle::at(640);
    assert_eq!(plain.matrix(), Matrix { xx: ft::UNIT, xy: 0, yx: 0, yy: ft::UNIT });
    let oblique = GlyphStyle { oblique: true, ..plain };
    assert_eq!(oblique.matrix(), Matrix { xx: ft::UNIT, xy: ft::OBLIQUE_SHEAR, yx: 0, yy: ft::UNIT });
    let sideways = GlyphStyle { sideways: true, ..plain };
    assert_eq!(sideways.matrix(), Matrix { xx: 0, xy: -ft::UNIT, yx: ft::UNIT, yy: 0 }, "counter-clockwise");
    let both = GlyphStyle { sideways: true, oblique: true, ..plain };
    assert_eq!(both.matrix(), Matrix { xx: 0, xy: -ft::UNIT, yx: ft::UNIT, yy: ft::OBLIQUE_SHEAR });
    assert_eq!(plain.bits(), 0);
    assert_eq!(GlyphStyle { sideways: true, bold: true, oblique: true, ..plain }.bits(), 7);
    assert_eq!(plain.bold_strength(), (0, 0));
    assert_eq!(embolden_strength(8, (160, 106)), Some((168, 114)));
    assert_eq!(embolden_strength(0, (0, 0)), None);
}

#[test]
fn bitmaps_are_turned_top_down() {
    let raw = [1, 2, 3, 4, 5, 6];
    let down = Bitmap { width: 2, rows: 2, pitch: 3, pixel_mode: PIXEL_MODE_GRAY, raw: &raw };
    let g = glyph_of(Some(down), 0, -1, 7, 640);
    assert_eq!((g.width, g.rows, g.pitch, g.left, g.top, g.advance_px), (2, 2, 3, -1, 7, 10));
    assert_eq!(g.buffer, raw);
    assert!(g.is_ok());
    assert_eq!(g.byte_at(1, 1), 5);
    let up = Bitmap { width: 2, rows: 2, pitch: -3, pixel_mode: PIXEL_MODE_LCD, raw: &raw };
    let g = glyph_of(Some(up), 0, 0, 0, -1);
    assert_eq!(g.buffer, [4, 5, 6, 1, 2, 3]);
    assert_eq!((g.pitch, g.pixel_mode, g.advance_px), (3, PIXEL_MODE_LCD, -1));
    let none = glyph_of(None, PIXEL_MODE_GRAY, 0, 0, 320);
    assert_eq!((none.width, none.rows, none.advance_px, none.buffer.len()), (0, 0, 5, 0));
    let bad = Glyph { width: 9, rows: 9, ..dot(1) };
    assert!(!bad.is_ok());
}
