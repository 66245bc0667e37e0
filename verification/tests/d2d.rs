use font_tuner::config::Aa;
use font_tuner::d2d::{
    created, device_slots, factory_slots, is_light, layout_kind, layout_options, mask, mask_size, pixels_per_dip, self_drawn, target_slots, LayoutKind, LayoutOptions, Patches,
    Visit, Walk,
};
use font_tuner::filter::{Tables, ONE};
use font_tuner::ft::{Glyph, PIXEL_MODE_GRAY};
use font_tuner::geometry;
use font_tuner::render::{render_placed, Placed};
use std::sync::Arc;

#[test]
fn slots_are_those_of_the_supported_interfaces() {
    let none = [false; 7];
    let some = [true, true, false, false, false, false, true];
    assert_eq!(factory_slots(&none), [13, 14, 16]);
    assert_eq!(factory_slots(&some), [13, 14, 16, 17, 27, 32]);
    assert_eq!(device_slots(&none), Vec::<usize>::new());
    assert_eq!(device_slots(&[true; 7]), [4, 11, 12, 15, 16, 19, 20]);
    assert_eq!(target_slots(false), [12, 27, 28, 29, 34, 36]);
    assert_eq!(target_slots(true), [12, 27, 28, 29, 34, 36, 82]);
}

#[test]
fn a_slot_is_patched_once() {
    let mut p = Patches::new();
    assert!(p.to_patch(0x1000, 27));
    assert!(p.patch_once(0x1000, 27, 0xaaaa));
    assert!(!p.patch_once(0x1000, 27, 0xbbbb));
    assert!(p.patch_once(0x1000, 28, 0xcccc));
    assert!(p.patch_once(0x2000, 27, 0xdddd));
    assert_eq!(p.original(0x1000, 27), Some(0xaaaa), "the first one stays");
    assert_eq!(p.original(0x2000, 27), Some(0xdddd));
    assert_eq!(p.original(0x2000, 28), None);
    assert_eq!(p.any_original(0x1000, &[5, 28, 27]), Some(0xcccc));
    assert_eq!(p.any_original(0x3000, &[27, 28]), None);
}

#[test]
fn only_created_objects_are_looked_at() {
    assert_eq!(created(true, Some(5)), Some(5));
    assert_eq!(created(false, Some(5)), None);
    assert_eq!(created(true, Some(0)), None);
    assert_eq!(created(true, None), None);
    assert!(self_drawn(false, Some(Aa::Grey)));
    assert!(!self_drawn(true, Some(Aa::Grey)));
    assert!(!self_drawn(false, Some(Aa::LcdRgb)));
    assert!(!self_drawn(false, None));
}

#[test]
fn options_are_bits() {
    assert_eq!(layout_options(0), LayoutOptions { snap_off: false, clip: false, colour: false });
    assert_eq!(layout_options(5), LayoutOptions { snap_off: true, clip: false, colour: true });
    assert_eq!(layout_options(2), LayoutOptions { snap_off: false, clip: true, colour: false });
    assert_eq!(layout_kind(0), LayoutKind::Natural);
    assert_eq!(layout_kind(1), LayoutKind::Gdi { natural: false });
    assert_eq!(layout_kind(2), LayoutKind::Gdi { natural: true });
}

#[test]
fn a_walk_looks_for_colour_before_it_draws() {
    let mut scan = Walk::new(true);
    assert_eq!(scan.glyph_run(), Visit::AskForColour);
    scan.answered(false);
    assert!(!scan.has_colour());
    assert_eq!(scan.other(), Visit::Skip);
    assert_eq!(scan.glyph_run(), Visit::AskForColour);
    scan.answered(true);
    assert_eq!(scan.glyph_run(), Visit::Skip, "one colour glyph is enough");
    assert!(scan.has_colour());
    assert!(!scan.handled(false));
    let mut draw = Walk::new(false);
    assert!(!draw.handled(false));
    assert_eq!(draw.glyph_run(), Visit::Draw);
    assert_eq!(draw.other(), Visit::Draw);
    assert!(draw.handled(false), "what was drawn is not drawn again");
    assert!(!draw.has_colour());
}

#[test]
fn masks_have_a_size() {
    assert_eq!(mask_size((-2, 1, 3, 5)), Some((5, 4)));
    assert_eq!(mask_size((3, 1, 2, 5)), None);
    assert_eq!(mask_size((i32::MIN, 0, i32::MAX, 0)), Some((u32::MAX, 0)));
}

#[test]
fn a_mask_holds_opacities() {
    let line: Vec<u64> = (0..256u64).map(|b| b * (ONE / 255)).collect();
    let t = Tables::new(line.clone(), line).unwrap();
    let g = Glyph { width: 2, rows: 1, pitch: 2, pixel_mode: PIXEL_MODE_GRAY, left: 0, top: 0, advance_px: 2, buffer: vec![0, 100] };
    let run = render_placed(&[Placed { gi: 1, x: 5, y: 6 }], vec![Some(Arc::new(g))]);
    for light in [false, true] {
        let (rect, m) = mask(&run, &t, light).unwrap();
        assert_eq!(rect, (5, 6, 7, 7));
        assert_eq!(m, [0, t.mask_alpha(100, light)]);
    }
    assert!(mask(&render_placed(&[], vec![]), &t, true).is_none());
}

#[test]
fn ink_is_light_by_its_luminance() {
    let one = geometry::ONE;
    assert!(is_light(one, one, one));
    assert!(!is_light(0, 0, 0));
    assert!(!is_light(one / 2, one / 2, one / 2), "half is not above half");
    assert!(is_light(0, one, 0));
    assert!(!is_light(one, 0, one));
}

#[test]
fn a_target_has_one_resolution() {
    let dpi = |v: i64| v * geometry::ONE;
    assert_eq!(pixels_per_dip(false, dpi(96), dpi(96)), Some(geometry::ONE));
    assert_eq!(pixels_per_dip(false, dpi(144), dpi(144)), Some(geometry::ONE * 3 / 2));
    assert_eq!(pixels_per_dip(false, dpi(96), dpi(144)), None);
    assert_eq!(pixels_per_dip(false, dpi(144), dpi(96)), None);
    assert_eq!(pixels_per_dip(true, dpi(96), dpi(144)), Some(geometry::ONE));
}
