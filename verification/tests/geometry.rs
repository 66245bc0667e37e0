use font_tuner::ft::GlyphStyle;
use font_tuner::geometry::{lay_out, Mapping, Metrics, Offset, Run, Transform, FAR, ONE};
use font_tuner::render::Placed;

fn fixed(v: f64) -> i64 {
    (v * ONE as f64) as i64
}

const IDENTITY: Transform = Transform { m11: ONE, m12: 0, m21: 0, m22: ONE, dx: 0, dy: 0 };

fn plain() -> Mapping {
    Mapping::new(&IDENTITY, ONE).unwrap()
}

const M: Metrics = Metrics { advance_width: 500, advance_height: 1000, vertical_origin_y: 800 };

/// Three glyphs of an em of 10 DIPs; 1000 units are an em.
fn run<'a>(design: &'a [Metrics]) -> Run<'a> {
    Run {
        glyphs: &[7, 8, 9],
        advances: None,
        offsets: None,
        em: 10 * ONE,
        bidi_level: 0,
        sideways: false,
        simulations: 0,
        units_per_em: 1000,
        design,
        gdi: None,
    }
}

fn places(r: &Run, baseline: (f64, f64), map: &Mapping) -> Vec<(i32, i32)> {
    let g = lay_out(r, (fixed(baseline.0), fixed(baseline.1)), map).unwrap();
    g.glyphs.iter().map(|p: &Placed| (p.x, p.y)).collect()
}

#[test]
fn the_pen_moves_by_the_fonts_advances() {
    let g = lay_out(&run(&[M; 3]), (fixed(100.0), fixed(20.0)), &plain()).unwrap();
    assert_eq!(g.glyphs, [Placed { gi: 7, x: 100, y: 20 }, Placed { gi: 8, x: 105, y: 20 }, Placed { gi: 9, x: 110, y: 20 }]);
    assert_eq!(g.style, GlyphStyle::at(640));
    assert_eq!(g.origin, (100, 20));
}

#[test]
fn given_advances_and_gdi_metrics_replace_them() {
    let advances = [fixed(6.5), fixed(6.5), 0];
    let r = Run { advances: Some(&advances), ..run(&[M; 3]) };
    assert_eq!(places(&r, (0.0, 0.0), &plain()), [(0, 0), (7, 0), (13, 0)], "a half goes away from zero");
    let gdi = [Metrics { advance_width: 600, ..M }; 3];
    let r = Run { gdi: Some(&gdi), ..run(&[M; 3]) };
    assert_eq!(places(&r, (0.0, 0.0), &plain()), [(0, 0), (6, 0), (12, 0)]);
}

#[test]
fn offsets_move_along_and_up() {
    let offsets = [Offset { along: 0, up: 0 }, Offset { along: fixed(2.0), up: fixed(3.0) }, Offset { along: 0, up: 0 }];
    let r = Run { offsets: Some(&offsets), ..run(&[M; 3]) };
    assert_eq!(places(&r, (0.0, 0.0), &plain()), [(0, 0), (7, -3), (10, 0)]);
    let r = Run { bidi_level: 1, ..r };
    assert_eq!(places(&r, (0.0, 0.0), &plain()), [(-5, 0), (-12, -3), (-15, 0)]);
}

/// With 12-DIP advances a right-to-left run ends at the origin minus the last
/// glyph's own width, not minus another 12.
#[test]
fn right_to_left_glyphs_sit_by_their_own_advance() {
    let advances = [fixed(12.0); 3];
    let r = Run { advances: Some(&advances), bidi_level: 3, ..run(&[M; 3]) };
    assert_eq!(places(&r, (0.0, 0.0), &plain()), [(-5, 0), (-17, 0), (-29, 0)]);
}

#[test]
fn sideways_glyphs_hang_on_their_vertical_origin() {
    let r = Run { sideways: true, simulations: 3, ..run(&[M; 3]) };
    // The origin is 8 to the right and 2.5 down.
    assert_eq!(places(&r, (0.0, 0.0), &plain()), [(8, 3), (18, 3), (28, 3)]);
    let style = lay_out(&r, (0, 0), &plain()).unwrap().style;
    assert_eq!(style, GlyphStyle { size_26_6: 640, sideways: true, bold: true, oblique: true });
}

#[test]
fn points_are_scaled_and_moved() {
    let m = Transform { m11: 2 * ONE, m22: 2 * ONE, dx: 3 * ONE, dy: -ONE, ..IDENTITY };
    let map = Mapping::new(&m, fixed(1.5)).unwrap();
    let one = i128::from(ONE) * i128::from(ONE);
    assert_eq!(map, Mapping { scale: 3 * one, dx: one * 9 / 2, dy: -one * 3 / 2 });
    let g = lay_out(&run(&[M; 3]), (fixed(10.0), fixed(10.0)), &map).unwrap();
    assert_eq!((g.glyphs[0].x, g.glyphs[0].y), (35, 29));
    assert_eq!((g.glyphs[1].x, g.glyphs[1].y), (50, 29), "34.5 and 49.5 go away from zero");
    assert_eq!(g.style.size_26_6, 10 * 3 * 64);
}

#[test]
fn only_uniform_scales_are_taken() {
    let off = |f: fn(&mut Transform)| {
        let mut m = IDENTITY;
        f(&mut m);
        Mapping::new(&m, ONE)
    };
    assert!(off(|m| m.m12 = ONE / 65535).is_some(), "the nudge against grid fitting");
    assert!(off(|m| m.m12 = ONE / 1000).is_none());
    assert!(off(|m| m.m21 = -ONE / 1000).is_none());
    assert!(off(|m| m.m11 = -ONE).is_none());
    assert!(off(|m| m.m22 = 2 * ONE).is_none());
    assert!(off(|m| m.m22 = ONE + ONE / 100_000).is_some());
    assert!(Mapping::new(&IDENTITY, 0).is_none());
}

/// Every length has a pixel, and what is far away is clamped.
#[test]
fn far_points_stay_in_reach() {
    let g = lay_out(&run(&[M; 3]), (fixed(9e6), fixed(-9e6)), &plain()).unwrap();
    assert_eq!((g.glyphs[0].x, g.glyphs[0].y), (FAR, -FAR));
    let g = lay_out(&run(&[M; 3]), (i64::MAX, i64::MIN), &plain()).unwrap();
    assert_eq!(g.origin, (FAR, -FAR));
    assert!(g.glyphs.iter().all(|p| (p.x, p.y) == (FAR, -FAR)));
    let advances = [i64::MAX, i64::MAX, 0];
    let r = Run { advances: Some(&advances), ..run(&[M; 3]) };
    assert_eq!(places(&r, (0.0, 0.0), &plain()), [(0, 0), (FAR, 0), (FAR, 0)]);
    // Going there and back ends where it started, exactly.
    let advances = [i64::MAX, -i64::MAX, 0];
    let r = Run { advances: Some(&advances), ..run(&[M; 3]) };
    assert_eq!(places(&r, (7.0, 0.0), &plain()), [(7, 0), (FAR, 0), (7, 0)]);
    // A translation that takes a far run back.
    let map = Mapping::new(&Transform { dx: -i64::MAX, ..IDENTITY }, i64::MAX).unwrap();
    let g = lay_out(&run(&[M; 3]), (i64::MAX, 0), &map).unwrap();
    assert_eq!((g.origin, g.glyphs[1].x), ((0, 0), FAR));
    let r = Run { em: i64::MAX, ..run(&[M; 3]) };
    assert_eq!(lay_out(&r, (0, 0), &map).unwrap().style.size_26_6, i64::MAX);
}

/// Advances are added up before anything is rounded.
#[test]
fn advances_do_not_lose_their_fractions() {
    let m = |advance_width| Metrics { advance_width, ..M };
    let design = [m(100), m(25), m(0)];
    let r = Run { em: 12 * ONE, ..run(&design) };
    assert_eq!(places(&r, (0.0, 0.0), &plain()), [(0, 0), (1, 0), (2, 0)], "1.5 is nearer to 2 by the rule for halves");
}

#[test]
fn runs_without_a_size_are_left_alone() {
    assert!(lay_out(&Run { em: 0, ..run(&[M; 3]) }, (0, 0), &plain()).is_none());
    assert!(lay_out(&Run { units_per_em: 0, ..run(&[M; 3]) }, (0, 0), &plain()).is_none());
    let none = Run { glyphs: &[], design: &[], ..run(&[]) };
    assert!(lay_out(&none, (0, 0), &plain()).unwrap().glyphs.is_empty());
}

/// The same layout in floating point, on a run of odd numbers.
#[test]
fn the_layout_agrees_with_floating_point() {
    let design: Vec<Metrics> = (0..40).map(|i| Metrics { advance_width: 371 + 37 * i, advance_height: 1000, vertical_origin_y: 880 }).collect();
    let glyphs: Vec<u16> = (0..40).collect();
    let em = 13.37;
    let r = Run { glyphs: &glyphs, design: &design, em: fixed(em), units_per_em: 2048, ..run(&[]) };
    let map = Mapping::new(&Transform { dx: fixed(0.3), ..IDENTITY }, fixed(1.25)).unwrap();
    let got = places(&r, (3.7, 5.1), &map);
    let mut pen = 0.0;
    for (i, m) in design.iter().enumerate() {
        let x: f64 = 1.25 * (3.7 + pen + 0.3);
        assert_eq!(got[i].0, x.round() as i32);
        pen += f64::from(m.advance_width) * em / 2048.0;
    }
}
