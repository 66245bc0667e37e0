use font_tuner::probe::{bmp, composited, covered_part, ink, inverted, report_line, spread, Bounds};

#[test]
fn ink_is_measured() {
    let mut px = vec![255u8; 4 * 3 * 4];
    assert_eq!(ink(&px, 4, 3), None);
    assert_eq!(report_line(&px, &None), "ink=(none)");
    // Pixel (1, 1) is dark, (2, 2) less so.
    px[(4 + 1) * 4..(4 + 1) * 4 + 3].copy_from_slice(&[0x10, 0x20, 0x30]);
    px[(8 + 2) * 4..(8 + 2) * 4 + 3].copy_from_slice(&[100, 100, 100]);
    let r = ink(&px, 4, 3).unwrap();
    assert_eq!(r.bounds, Bounds { left: 1, right: 2, top: 1, bottom: 2 });
    assert_eq!((r.darkest, r.count), (5, 2));
    assert_eq!(r.mean, ((765 - 96) + (765 - 300)) / 2);
    assert_eq!(report_line(&px, &Some(r)), "ink=x=1..2 y=1..2 darkest=#302010 mean=567 px=2");
}

#[test]
fn whatever_is_darker_than_white_is_ink() {
    let mut px = vec![255u8; 480 * 200 * 4];
    px[3852..3855].copy_from_slice(&[250, 250, 250]);
    let r = ink(&px, 480, 200);
    assert_eq!(report_line(&px, &r), "ink=x=3..3 y=2..2 darkest=#fafafa mean=15 px=1");
    let mut px = vec![255u8; 4];
    assert!(ink(&px, 1, 1).is_none());
    px[0] = 254;
    assert_eq!(ink(&px, 1, 1).map(|r| (r.mean, r.count)), Some((1, 1)));
}

#[test]
fn bitmaps_are_written_bottom_up() {
    let px = [1, 2, 3, 0, 4, 5, 6, 0];
    let b = bmp(&px, 1, 2);
    assert_eq!(b.len(), 54 + 8);
    assert_eq!(&b[..6], &[0x42, 0x4d, 62, 0, 0, 0]);
    assert_eq!((b[10], b[14], b[18], b[22], b[26], b[28]), (54, 40, 1, 2, 1, 24));
    assert_eq!(&b[54..], &[4, 5, 6, 0, 1, 2, 3, 0]);
}

#[test]
fn covered_parts_and_spread() {
    let mut buf = vec![60u8; 3 * 2 * 3];
    assert_eq!(covered_part(&buf, 3, 2, 3), None);
    buf[(3 + 1) * 3 + 2] = 61;
    assert_eq!(covered_part(&buf, 3, 2, 3), Some(Bounds { left: 1, right: 1, top: 1, bottom: 1 }));
    assert_eq!(spread(&buf), 1);
    assert_eq!(spread(&[10, 40, 20, 7, 7, 7, 0]), 30);
    assert_eq!(spread(&[]), 0);
    assert_eq!(inverted(&[0, 255, 100]), [255, 0, 155]);
}

#[test]
fn coverage_darkens_the_pixels() {
    let px = vec![200u8; 3 * 2 * 4];
    let out = composited(&px, 3, 2, &[255, 0, 51], (1, 1, 2, 2));
    let at = (3 + 1) * 4;
    assert_eq!(&out[at..at + 4], &[160, 200, 0, 200]);
    assert_eq!(out.iter().filter(|&&b| b != 200).count(), 2);
    // A part past the edges is left out.
    let out = composited(&px, 3, 2, &[255; 12], (-1, -1, 1, 1));
    assert_eq!(out.iter().filter(|&&b| b == 0).count(), 3);
}
