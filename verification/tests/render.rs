use font_tuner::canvas::Canvas;
use font_tuner::config::Aa;
use font_tuner::coverage::glyph_run_coverage_lcd;
use font_tuner::filter::{Tables, ONE};
use font_tuner::ft::{self, Glyph, PIXEL_MODE_GRAY, PIXEL_MODE_LCD};
use font_tuner::layout::Layout;
use font_tuner::render::{draw_glyphs_onto, is_placeable, render_glyphs, render_placed, union, Ink, Placed};
use std::sync::Arc;

#[test]
fn layout_adds_character_extra_on_top_of_dx() {
    let dx = [20, 20, 20, 20, 20];
    let plain = Layout::from_dx(Some(&dx));
    assert_eq!(plain.advance(0, 99), (20, 0), "lpDx overrides the font advance");
    assert_eq!(plain.dx_width(5), Some(100));

    let spaced = Layout { dx: Some(&dx), extra: 10, pdy: false };
    assert_eq!(spaced.advance(0, 99), (30, 0));
    assert_eq!(spaced.dx_width(5), Some(150));

    // No lpDx: the font's own advance, still widened by the spacing.
    let no_dx = Layout { dx: None, extra: 6, pdy: false };
    assert_eq!(no_dx.advance(3, 12), (18, 0));
    assert_eq!(no_dx.dx_width(5), None, "the caller measures it instead");

    // A short lpDx falls back to the glyph's advance past its end.
    let short = Layout { dx: Some(&dx[..2]), extra: 0, pdy: false };
    assert_eq!(short.advance(5, 7), (7, 0));
    assert_eq!(short.dx_width(5), Some(40), "only the entries that exist");
}

#[test]
fn pdy_pairs_move_the_pen_up_the_page() {
    let pairs = [0, 24, 0, 24, 0, 24];
    let vertical = Layout { dx: Some(&pairs), extra: 0, pdy: true };
    assert_eq!(vertical.advance(0, 99), (0, -24));
    assert_eq!(vertical.advance(2, 99), (0, -24));
    assert_eq!(vertical.dx_width(3), Some(0), "no horizontal travel");
    assert_eq!(vertical.dy_travel(3), Some((-72, 0)), "three steps upwards");

    // The same array without the flag is six plain advances.
    let flat = Layout::from_dx(Some(&pairs));
    assert_eq!(flat.advance(1, 99), (24, 0));
    assert_eq!(flat.dy_travel(3), None);
}

#[test]
fn canvas_buffer_ops_are_pure() {
    // new / filled / fill_rect (in- and out-of-bounds clamp) / clip toggles.
    let mut c = Canvas::new(4, 3);
    assert_eq!(c.rgb, vec![255u8; 4 * 3 * 3]);
    let mut c2 = Canvas::filled(4, 3, [1, 2, 3]);
    assert_eq!(&c2.rgb[0..3], &[1, 2, 3]);
    c2.fill_rect((-2, -2, 100, 100), [9, 9, 9]); // clamps to the canvas
    assert!(c2.rgb.iter().all(|&v| v == 9));
    c.set_clip(Some((1, 1, 3, 3)));
    assert!(c.in_bounds(1, 1));
    assert!(!c.in_bounds(0, 0)); // outside clip
    assert!(!c.in_bounds(3, 3)); // clip is exclusive on r/b
    c.set_clip(None);
    assert!(c.in_bounds(0, 0));
    assert!(!c.in_bounds(-1, 0)); // x < 0
    assert!(!c.in_bounds(4, 0)); // x >= w
    assert!(!c.in_bounds(0, -1)); // y < 0
    assert!(!c.in_bounds(0, 3)); // y >= h

    // BGRA round-trip: from_bgra_topdown then blit_to_bgra_topdown is identity.
    let bgra: Vec<u8> = (0..4 * 3 * 4).map(|i| i as u8).collect();
    let cv = Canvas::from_bgra_topdown(4, 3, &bgra);
    let mut out = vec![0u8; 4 * 3 * 4];
    cv.blit_to_bgra_topdown(&mut out);
    for i in 0..4 * 3 {
        assert_eq!(out[i * 4], bgra[i * 4]); // B
        assert_eq!(out[i * 4 + 1], bgra[i * 4 + 1]); // G
        assert_eq!(out[i * 4 + 2], bgra[i * 4 + 2]); // R
        assert_eq!(out[i * 4 + 3], 255); // A forced opaque
    }
}

#[test]
fn is_bgr_matches_lcd_order() {
    assert!(ft::is_bgr(Aa::LcdBgr));
    assert!(ft::is_bgr(Aa::LightLcdBgr));
    assert!(!ft::is_bgr(Aa::LcdRgb));
    assert!(!ft::is_bgr(Aa::Grey));
}

#[test]
fn filling_stays_inside_the_rectangle() {
    let mut c = Canvas::filled(4, 2, [0, 0, 0]);
    c.set_clip(Some((0, 0, 1, 1)));
    c.fill_rect((1, 0, 3, 1), [7, 8, 9]);
    let row = |c: &Canvas, y: usize| c.rgb[y * 12..y * 12 + 12].to_vec();
    assert_eq!(row(&c, 0), [0, 0, 0, 7, 8, 9, 7, 8, 9, 0, 0, 0], "the clip does not hold for a fill");
    assert_eq!(row(&c, 1), [0; 12]);
    c.fill_rect((3, 1, 1, 0), [1, 1, 1]);
    assert_eq!(row(&c, 1), [0; 12], "an empty rectangle");
}

#[test]
fn widths_and_travel_are_bounds_of_the_pen() {
    let pairs = [5, -10, 5, 30, 5, -40];
    let l = Layout { dx: Some(&pairs), extra: 2, pdy: true };
    assert_eq!(l.dx_width(3), Some(21));
    assert_eq!(l.dy_travel(3), Some((-20, 20)));
    let (mut x, mut y, mut least, mut most) = (0, 0, 0, 0);
    for i in 0..3 {
        let (ax, ay) = l.advance(i, 99);
        x += ax;
        y += ay;
        least = least.min(y);
        most = most.max(y);
    }
    assert_eq!((x, least, most), (21, -20, 20));
}

/// Byte b is light b / 256 and coverage c is alpha c / 256.
fn ramp() -> Tables {
    let step = ONE / 256;
    let line: Vec<u64> = (0..256u64).map(|b| b * step).collect();
    Tables::new(line.clone(), line).unwrap()
}

fn grey(width: i32, rows: i32, left: i32, top: i32, advance_px: i32, buffer: &[u8]) -> Option<Arc<Glyph>> {
    Some(Arc::new(Glyph { width, rows, pitch: width, pixel_mode: PIXEL_MODE_GRAY, left, top, advance_px, buffer: buffer.to_vec() }))
}

fn lcd(cells: i32, rows: i32, left: i32, top: i32, advance_px: i32, buffer: &[u8]) -> Option<Arc<Glyph>> {
    Some(Arc::new(Glyph {
        width: cells * 3,
        rows,
        pitch: cells * 3,
        pixel_mode: PIXEL_MODE_LCD,
        left,
        top,
        advance_px,
        buffer: buffer.to_vec(),
    }))
}

/// The red channel of a row.
fn reds(c: &Canvas, y: usize) -> Vec<u8> {
    (0..c.w).map(|x| c.rgb[(y * c.w + x) * 3]).collect()
}

#[test]
fn a_run_advances_its_pen() {
    let t = ramp();
    let run = [grey(1, 1, 0, 1, 2, &[128]), None, grey(1, 2, 1, 1, 2, &[128, 64])];
    let c = render_glyphs(&t, Aa::Grey, Ink { fg: [200, 100, 0] }, [0, 0, 0], &run, (1, 1), (6, 2));
    // The missing glyph leaves the pen at 3; the second one stands at 3 + 1.
    assert_eq!(reds(&c, 0), [0, 100, 0, 0, 100, 0]);
    assert_eq!(reds(&c, 1), [0, 0, 0, 0, 50, 0]);
    assert_eq!(&c.rgb[3..6], &[100, 50, 0]);
}

#[test]
fn explicit_steps_replace_the_advances() {
    let t = ramp();
    let run = [grey(1, 1, 0, 0, 2, &[128]), grey(1, 1, 0, 0, 2, &[128])];
    let mut c = Canvas::filled(6, 3, [0, 0, 0]);
    let pairs = [3, 1, 0, 0];
    let layout = Layout { dx: Some(&pairs), extra: 1, pdy: true };
    draw_glyphs_onto(&mut c, &t, Aa::Grey, Ink { fg: [200; 3] }, &run, (1, 2), layout);
    assert_eq!(reds(&c, 2), [0, 100, 0, 0, 0, 0]);
    assert_eq!(reds(&c, 1), [0, 0, 0, 0, 0, 100], "four to the right, one up");
    assert_eq!(reds(&c, 0), [0; 6]);
}

#[test]
fn drawing_stays_in_the_clip() {
    let t = ramp();
    let run = [grey(4, 2, -1, 1, 2, &[128; 8])];
    let mut c = Canvas::filled(4, 3, [0, 0, 0]);
    c.set_clip(Some((1, 0, 2, 2)));
    draw_glyphs_onto(&mut c, &t, Aa::Grey, Ink { fg: [200; 3] }, &run, (1, 1), Layout::from_dx(None));
    assert_eq!(reds(&c, 0), [0, 100, 0, 0]);
    assert_eq!(reds(&c, 1), [0, 100, 0, 0]);
    assert_eq!(reds(&c, 2), [0; 4]);
    // And in the canvas.
    c.set_clip(None);
    draw_glyphs_onto(&mut c, &t, Aa::Grey, Ink { fg: [200; 3] }, &run, (-1, 3), Layout::from_dx(None));
    assert_eq!(reds(&c, 2), [100, 100, 0, 0]);
}

#[test]
fn subpixels_cover_the_channels_in_order() {
    let t = ramp();
    let run = [lcd(2, 1, 0, 0, 2, &[0, 64, 128, 0, 0, 0])];
    let ink = Ink { fg: [200, 200, 200] };
    let c = render_glyphs(&t, Aa::LcdRgb, ink, [0, 0, 0], &run, (0, 0), (2, 1));
    assert_eq!(c.rgb, [100, 50, 0, 0, 0, 0]);
    let c = render_glyphs(&t, Aa::LightLcdBgr, ink, [0, 0, 0], &run, (0, 0), (2, 1));
    assert_eq!(c.rgb, [0, 50, 100, 0, 0, 0]);
    // A bitmap of the other kind is not drawn.
    let c = render_glyphs(&t, Aa::Grey, ink, [0, 0, 0], &run, (0, 0), (2, 1));
    assert_eq!(c.rgb, [0; 6]);
}

#[test]
fn the_default_ink_is_black() {
    assert_eq!(Ink::default().fg, [0, 0, 0]);
}

#[test]
fn a_placed_run_knows_its_bounds() {
    let places = [Placed { gi: 1, x: 10, y: 20 }, Placed { gi: 2, x: 15, y: 20 }, Placed { gi: 3, x: 90, y: 90 }, Placed { gi: 4, x: 0, y: 0 }];
    let empty = grey(0, 0, 0, 0, 5, &[]);
    let run = vec![grey(2, 2, -1, 3, 5, &[128; 4]), lcd(1, 1, 2, 0, 5, &[9, 12, 30]), empty, None];
    let r = render_placed(&places, run);
    assert_eq!(r.glyphs.len(), 2);
    assert_eq!(r.bounds, Some((9, 17, 18, 21)));
    let none = render_placed(&[], vec![]);
    assert_eq!(none.bounds, None);
}

#[test]
fn a_placed_run_is_drawn_from_its_origin() {
    let t = ramp();
    let places = [Placed { gi: 1, x: 10, y: 20 }];
    let r = render_placed(&places, vec![grey(1, 1, 0, 0, 5, &[128])]);
    let mut c = Canvas::filled(3, 2, [0, 0, 0]);
    r.draw_onto(&mut c, (9, 19), &t, Aa::Grey, Ink { fg: [200; 3] });
    assert_eq!(reds(&c, 0), [0; 3]);
    assert_eq!(reds(&c, 1), [0, 100, 0]);
}

#[test]
fn coverage_keeps_the_most() {
    let places = [Placed { gi: 1, x: 0, y: 0 }, Placed { gi: 2, x: 1, y: 0 }];
    let r = render_placed(&places, vec![grey(2, 1, 0, 0, 5, &[10, 200]), grey(2, 1, 0, 0, 5, &[100, 30])]);
    assert_eq!(r.coverage((0, 0, 4, 1), 1, false), [10, 200, 30, 0]);
    assert_eq!(r.coverage((1, -1, 3, 1), 1, false), [0, 0, 200, 30]);
    assert_eq!(r.coverage((0, 0, 2, 1), 3, false), [10, 10, 10, 200, 200, 200]);
    assert_eq!(r.coverage((3, 0, 3, 1), 3, false), Vec::<u8>::new());
    assert_eq!(r.coverage((5, 0, 2, 1), 3, false), Vec::<u8>::new());
}

#[test]
fn coverage_of_lcd_glyphs() {
    let r = render_placed(&[Placed { gi: 1, x: 0, y: 0 }], vec![lcd(1, 1, 0, 0, 5, &[9, 12, 30])]);
    assert_eq!(r.coverage((0, 0, 1, 1), 3, false), [9, 12, 30]);
    assert_eq!(r.coverage((0, 0, 1, 1), 3, true), [30, 12, 9]);
    assert_eq!(r.coverage((0, 0, 1, 1), 1, false), [17], "the mean of the three");
    let run = [lcd(1, 1, 0, 0, 1, &[9, 12, 30]), grey(1, 1, 0, 0, 1, &[77]), lcd(1, 1, 0, 0, 1, &[1, 2, 3])];
    assert_eq!(glyph_run_coverage_lcd(&run, (0, 0), 3, 1), [9, 12, 30, 0, 0, 0, 1, 2, 3]);
}

#[test]
fn glyphs_past_the_numbered_pixels_are_not_placed() {
    let g = grey(2, 2, 0, 0, 5, &[1; 4]).unwrap();
    assert!(is_placeable(&g, &Placed { gi: 1, x: 0, y: 0 }));
    assert!(!is_placeable(&g, &Placed { gi: 1, x: i32::MAX - 1, y: 0 }));
    assert!(is_placeable(&g, &Placed { gi: 1, x: i32::MAX - 2, y: 0 }));
    assert!(!is_placeable(&g, &Placed { gi: 1, x: 0, y: i32::MAX }));
}

#[test]
fn a_union_is_the_least_rectangle_around_both() {
    let (a, b) = ((1, 5, 4, 6), (2, 3, 9, 4));
    assert_eq!(union(None, b), b);
    assert_eq!(union(Some(a), b), (1, 3, 9, 6));
    assert_eq!(union(Some(b), a), (1, 3, 9, 6));
    assert_eq!(union(Some(a), a), a);
}
