use font_tuner::config::{Aa, Profile};
use font_tuner::dwrite::{
    aa_for_texture, black_box, channels, create_first, create_later, fills_buffer, hand_back, is_empty, modes, part_in_bitmap, texture_bounds, Analyses,
    Analysis, Attempt, Handing, Modes, Need, AA_CLEARTYPE, AA_GREYSCALE, ANALYSES_CAP, D2D_AA_DEFAULT, D2D_AA_GREYSCALE, GEOMETRY_BGR,
    GEOMETRY_FLAT, GEOMETRY_RGB, GRID_FIT_DEFAULT, GRID_FIT_DISABLED, GRID_FIT_ENABLED, MODE_ALIASED, MODE_NATURAL_SYMMETRIC, MODE_OUTLINE,
    TEXTURE_ALIASED_1X1, TEXTURE_CLEARTYPE_3X1,
};
use font_tuner::ft::GlyphStyle;
use font_tuner::render::RenderedRun;

#[test]
fn modes_follow_the_profile() {
    let m = modes(&Profile::clean_greyscale());
    assert_eq!((m.geometry, m.mode, m.dw_mode), (GEOMETRY_FLAT, 5, 5));
    assert_eq!((m.grid_fit, m.dw_aa, m.aa_mode), (GRID_FIT_DEFAULT, AA_GREYSCALE, D2D_AA_GREYSCALE));
    assert!(!m.grid_fit_disabled);
    let mut p = Profile::accurate();
    p.dw.rendering_mode = MODE_OUTLINE;
    let m = modes(&p);
    assert_eq!((m.geometry, m.mode, m.dw_mode), (GEOMETRY_RGB, MODE_OUTLINE, MODE_NATURAL_SYMMETRIC));
    assert_eq!((m.grid_fit, m.dw_aa, m.aa_mode), (GRID_FIT_ENABLED, AA_CLEARTYPE, D2D_AA_DEFAULT));
    p.aa = Aa::LightLcdBgr;
    p.hinting = 1;
    let m = modes(&p);
    assert_eq!((m.geometry, m.grid_fit, m.grid_fit_disabled), (GEOMETRY_BGR, GRID_FIT_DISABLED, true));
}

fn unhinted() -> Modes {
    let mut p = Profile::clean_sharp();
    p.hinting = 1;
    modes(&p)
}

fn attempt(newer: bool, tilted: bool, mode: i32, grid: i32, aa: i32) -> Attempt {
    Attempt { newer, tilted, mode, grid, aa }
}

#[test]
fn analyses_are_tried_the_profiles_way_first() {
    let m = unhinted();
    assert_eq!(
        create_first(4, true, Some(m)),
        [
            attempt(true, false, 4, GRID_FIT_DEFAULT, AA_CLEARTYPE),
            attempt(false, true, 5, GRID_FIT_DEFAULT, AA_CLEARTYPE),
            attempt(false, false, 4, GRID_FIT_DEFAULT, AA_CLEARTYPE),
        ]
    );
    assert_eq!(create_first(4, false, None), [attempt(false, false, 4, GRID_FIT_DEFAULT, AA_CLEARTYPE)]);
    assert_eq!(
        create_later(4, 7, AA_GREYSCALE, true, Some(m)),
        [
            attempt(true, false, 4, 7, AA_CLEARTYPE),
            attempt(false, false, 5, GRID_FIT_DISABLED, AA_CLEARTYPE),
            attempt(false, true, 4, 7, AA_CLEARTYPE),
            attempt(false, false, 4, 7, AA_GREYSCALE),
        ]
    );
    assert_eq!(create_later(4, 7, AA_GREYSCALE, true, None), [attempt(true, false, 4, 7, AA_GREYSCALE), attempt(false, false, 4, 7, AA_GREYSCALE)]);
}

#[test]
fn aliased_runs_stay_aliased() {
    let m = unhinted();
    assert_eq!(create_first(MODE_ALIASED, true, Some(m)), [attempt(false, false, MODE_ALIASED, GRID_FIT_DEFAULT, AA_CLEARTYPE)]);
    assert!(create_later(MODE_ALIASED, 7, AA_GREYSCALE, true, Some(m)).iter().all(|a| a.mode == MODE_ALIASED));
}

#[test]
fn runs_are_handed_back_with_fewer_changes() {
    let way = |tilted: bool, profile: bool| Handing { tilted, profile };
    assert_eq!(hand_back(Some(unhinted())), [way(true, true), way(false, true), way(false, false)]);
    assert_eq!(hand_back(Some(modes(&Profile::accurate()))), [way(false, true), way(false, false)]);
    assert_eq!(hand_back(None), [way(false, false), way(false, false)]);
}

#[test]
fn ink_is_cut_to_the_bitmap() {
    assert_eq!(part_in_bitmap((-3, 2, 10, 20), 8, 9), Some((0, 2, 8, 9)));
    assert_eq!(part_in_bitmap((8, 0, 10, 5), 8, 9), None);
    assert_eq!(part_in_bitmap((0, -5, 3, 0), 8, 9), None);
    assert_eq!(black_box(Some((1, 2, 3, 4)), (7, 8)), (1, 2, 3, 4));
    assert_eq!(black_box(None, (7, 8)), (7, 8, 7, 8));
}

#[test]
fn textures_have_their_sizes() {
    assert_eq!((channels(TEXTURE_CLEARTYPE_3X1), channels(TEXTURE_ALIASED_1X1), channels(9)), (3, 1, 0));
    assert!(fills_buffer((1, 1, 4, 3), 3, 18));
    assert!(!fills_buffer((1, 1, 4, 3), 3, 17));
    assert!(!fills_buffer((1, 1, 4, 3), 0, 0));
    assert!(fills_buffer((4, 1, 1, 3), 1, 0));
    assert!(!fills_buffer((i32::MIN, i32::MIN, i32::MAX, i32::MAX), 3, usize::MAX));
    assert_eq!(aa_for_texture(TEXTURE_ALIASED_1X1, Aa::LcdBgr), Aa::Grey);
    assert_eq!(aa_for_texture(TEXTURE_CLEARTYPE_3X1, Aa::LcdBgr), Aa::LcdBgr);
    assert_eq!(aa_for_texture(TEXTURE_CLEARTYPE_3X1, Aa::Grey), Aa::LcdRgb);
}

#[test]
fn bounds_are_ours_where_there_is_ink() {
    let theirs = (1, 1, 5, 5);
    assert_eq!(texture_bounds(theirs, true, Some(Some((2, 2, 3, 3)))), (2, 2, 3, 3));
    assert_eq!(texture_bounds(theirs, true, None), theirs);
    assert_eq!(texture_bounds(theirs, false, Some(Some((2, 2, 3, 3)))), theirs);
    let empty = (5, 5, 5, 5);
    assert!(is_empty(empty) && is_empty((5, 5, 4, 9)) && !is_empty(theirs));
    assert_eq!(texture_bounds(empty, true, Some(Some((2, 2, 3, 3)))), empty);
}

fn analysis(face: u64) -> Analysis {
    Analysis { face, glyphs: vec![], style: GlyphStyle::at(640), rendered: None }
}

fn nothing() -> RenderedRun {
    RenderedRun { glyphs: vec![], bounds: None }
}

#[test]
fn analyses_are_rendered_once_for_a_texture() {
    let mut a = Analyses::new();
    assert_eq!(a.need(1, true), Need::NotOurs);
    a.adopt(1, Some(analysis(7)));
    assert_eq!(a.need(1, true), Need::Render);
    a.store(1, true, nothing());
    assert_eq!(a.need(1, true), Need::Ready);
    assert_eq!(a.need(1, false), Need::Render, "the other texture is another rendering");
    a.store(1, false, nothing());
    assert_eq!(a.need(1, true), Need::Render);
    a.adopt(1, Some(analysis(8)));
    assert_eq!(a.need(1, false), Need::Render, "a new analysis at the address");
    assert_eq!(a.entries[a.place(1).unwrap()].analysis.face, 8);
}

#[test]
fn a_stale_analysis_is_never_used() {
    let mut a = Analyses::new();
    a.adopt(1, Some(analysis(7)));
    a.adopt(1, None);
    assert_eq!(a.need(1, true), Need::NotOurs);
    a.adopt(1, Some(analysis(7)));
    a.forget(1);
    assert_eq!(a.place(1), None);
    a.store(1, true, nothing());
    assert_eq!(a.need(1, true), Need::NotOurs);
}

#[test]
fn the_oldest_analysis_is_dropped() {
    let mut a = Analyses::new();
    for key in 0..ANALYSES_CAP as u64 {
        a.adopt(key, Some(analysis(key)));
    }
    a.adopt(0, Some(analysis(5)));
    assert_eq!(a.entries.len(), ANALYSES_CAP, "a known key takes no more room");
    a.adopt(1000, Some(analysis(1000)));
    assert_eq!(a.entries.len(), ANALYSES_CAP);
    assert_eq!(a.place(0), None);
    assert!(a.place(1).is_some() && a.place(1000).is_some());
}
