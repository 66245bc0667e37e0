use font_tuner::gdi::{
    anchor, baseline, clamp_edge, em_px, face_name, font_key, font_source, place, plan, rgb, Draw, Metrics, ETO_CLIPPED, ETO_OPAQUE,
    ETO_PDY, TA_BASELINE, TA_BOTTOM, TA_CENTER, TA_LEFT, TA_RIGHT, TA_TOP, TA_UPDATECP,
};
use font_tuner::gdi_metrics::{is_metrics_only, pad_metrics, pad_px, GlyphBox};
use font_tuner::xform::Mapping;

const TM: Metrics = Metrics { height: 18, ascent: 14, descent: 4, internal_leading: 3 };
const ONE_TO_ONE: Mapping = Mapping { sx: 1024, sy: 1024 };

fn draw() -> Draw<'static> {
    Draw {
        options: 0,
        rect: None,
        count: 5,
        dx: None,
        align: TA_LEFT,
        opaque: false,
        extra: 0,
        origin: (160, 100),
        origin_px: (160, 100),
        tm: TM,
        extent: (74, 18),
    }
}

#[test]
fn text_align_places_the_run_like_gdi() {
    assert_eq!(place(TA_LEFT, 160, 74), 160);
    assert_eq!(place(TA_RIGHT, 160, 74), 86);
    assert_eq!(place(TA_CENTER, 160, 74), 123);
    // TA_CENTER sets both bits of the field, so a plain `&` test would
    // also match TA_RIGHT; the mask must be compared for equality.
    assert_ne!(place(TA_CENTER, 160, 74), place(TA_RIGHT, 160, 74));
}

#[test]
fn vertical_align_matches_gdi() {
    assert_eq!(baseline(TA_TOP, 100, 14, 4), 114);
    assert_eq!(baseline(TA_BASELINE, 100, 14, 4), 100);
    assert_eq!(baseline(TA_BOTTOM, 100, 14, 4), 96);
}

#[test]
fn em_px_is_height_minus_internal_leading() {
    assert_eq!(em_px(&Metrics { height: 16, ascent: 0, descent: 0, internal_leading: 3 }), 13);
    assert_eq!(em_px(&Metrics { height: 12, ascent: 0, descent: 0, internal_leading: 0 }), 12);
    assert_eq!(em_px(&Metrics { height: 0, ascent: 0, descent: 0, internal_leading: 0 }), 16);
}

#[test]
fn a_plain_draw_covers_the_text() {
    let p = plan(&draw(), &ONE_TO_ONE).unwrap();
    assert_eq!(p.at, (160, 100));
    assert_eq!(p.size, (74 + 6, 18 + 4));
    assert_eq!(p.pen, (0, 14));
    assert_eq!(p.px, 15);
    assert_eq!((p.fill, p.clip, p.text_box, p.next), (None, None, None, None));
    assert!(p.dx.is_none());
}

#[test]
fn the_rectangle_is_filled_clipped_and_covered() {
    let d = Draw { options: ETO_OPAQUE | ETO_CLIPPED, rect: Some((150, 90, 300, 200)), ..draw() };
    let p = plan(&d, &ONE_TO_ONE).unwrap();
    assert_eq!(p.at, (150, 90));
    assert_eq!(p.size, (150, 110));
    assert_eq!(p.fill, Some((0, 0, 150, 110)));
    assert_eq!(p.clip, Some((0, 0, 150, 110)));
    assert_eq!(p.pen, (10, 24));
    let p = plan(&Draw { options: 0, ..d }, &ONE_TO_ONE).unwrap();
    assert_eq!((p.fill, p.clip), (None, None));
    assert_eq!(p.size, (150, 110), "the region still holds the rectangle");
}

#[test]
fn a_run_without_extent_is_left_to_gdi() {
    assert!(plan(&Draw { extent: (0, 18), ..draw() }, &ONE_TO_ONE).is_none());
    assert!(plan(&Draw { extent: (-4, 18), ..draw() }, &ONE_TO_ONE).is_none());
    assert!(plan(&Draw { origin_px: (i32::MAX, 0), rect: Some((i32::MIN, 0, 0, 0)), ..draw() }, &ONE_TO_ONE).is_none());
}

#[test]
fn the_current_position_moves_past_the_run() {
    let next = |align: u32| plan(&Draw { align: align | TA_UPDATECP, ..draw() }, &ONE_TO_ONE).unwrap().next;
    assert_eq!(next(TA_LEFT), Some((234, 100)));
    assert_eq!(next(TA_RIGHT), Some((86, 100)));
    assert_eq!(next(TA_CENTER), Some((160, 100)));
    assert_eq!(anchor(TA_UPDATECP, Some((3, 4)), 1, 2), (3, 4));
    assert_eq!(anchor(TA_UPDATECP, None, 1, 2), (1, 2));
    assert_eq!(anchor(0, Some((3, 4)), 1, 2), (1, 2));
}

#[test]
fn a_scaled_draw_converts_its_steps() {
    let dx = [3, 3, 3, 3];
    let d = Draw { count: 4, dx: Some(&dx), ..draw() };
    let m = Mapping { sx: 1536, sy: 1536 };
    let p = plan(&d, &m).unwrap();
    assert_eq!(p.dx, Some(vec![5, 4, 5, 4]));
    assert_eq!(p.size, (18 + 6, 27 + 4));
    assert!(plan(&d, &ONE_TO_ONE).unwrap().dx.is_none(), "the draw's own steps do");
}

#[test]
fn a_vertical_run_gets_room_above_and_below() {
    let dx = [0, 24, 0, 24, 0, -100];
    let d = Draw { options: ETO_PDY, count: 3, dx: Some(&dx), ..draw() };
    let p = plan(&d, &ONE_TO_ONE).unwrap();
    assert_eq!(p.at.1, 100 - 48);
    assert_eq!(p.size.1, 48 + 18 + 4 + 52);
    assert_eq!(p.pen.1, 14 + 48);
}

#[test]
fn an_opaque_background_is_behind_the_text() {
    let p = plan(&Draw { opaque: true, ..draw() }, &ONE_TO_ONE).unwrap();
    assert_eq!(p.text_box, Some((0, 0, 74, 18)));
}

#[test]
fn small_things() {
    assert_eq!(rgb(0x00c8_501e), [0x1e, 0x50, 0xc8]);
    assert_eq!((clamp_edge(-3), clamp_edge(0), clamp_edge(5), clamp_edge(100_000)), (1, 1, 5, 8192));
    assert_eq!(font_source(0, 7), Some((0, 7)));
    assert_eq!(font_source(u32::MAX, 7), Some((0, 7)));
    assert_eq!(font_source(9, 7), Some((0x6663_7474, 9)));
    assert_eq!(font_source(u32::MAX, u32::MAX), None);
    assert_eq!(font_source(0, 0), None);
    let mut field: Vec<u16> = "Meiryo".encode_utf16().collect();
    assert_eq!(face_name(&field), "", "a field without an end holds no name");
    field.push(0);
    field.push(0x41);
    assert_eq!(face_name(&field), "Meiryo");
    assert_eq!(font_key("Meiryo", 12345), "gdi:Meiryo:12345");
}

#[test]
fn metrics_are_padded_within_the_font() {
    assert_eq!((pad_px(96), pad_px(120), pad_px(144), pad_px(10)), (1, 1, 2, 1));
    assert!(is_metrics_only(0, 0, true));
    assert!(is_metrics_only(0, 10, false));
    assert!(!is_metrics_only(0, 10, true));
    assert!(!is_metrics_only(2, 0, false));
    // The origin goes up by the padding, and the box grows by it.
    let tm = Metrics { height: 30, ascent: 20, descent: 10, internal_leading: 0 };
    let pad = |origin_y, box_y, n| {
        let p = pad_metrics(&GlyphBox { origin_y, box_y }, &tm, n);
        (p.origin_y, p.box_y)
    };
    assert_eq!(pad(10, 12, 1), (11, 13));
    assert_eq!(pad(10, 12, 3), (13, 15));
    // The origin goes no higher than the ascent; the box grows all the same.
    assert_eq!(pad(20, 12, 1), (20, 13));
    assert_eq!(pad(19, 20, 3), (20, 23));
    assert_eq!(pad(25, 12, 2), (25, 14));
    // It ends no lower than the font's height, or than it did.
    assert_eq!(pad(20, 29, 3), (20, 30));
    assert_eq!(pad(19, 29, 3), (20, 30));
    assert_eq!(pad(19, 35, 3), (20, 36));
    assert_eq!(pad(10, u32::MAX, 3), (13, i32::MAX as u32));
}
