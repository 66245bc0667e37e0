use font_tuner::xform::{Mapping, PROBE};

fn fake(sx: f64, sy: f64) -> Mapping {
    let at = |s: f64| (s * f64::from(PROBE)) as i64;
    Mapping { sx: at(sx), sy: at(sy) }
}

#[test]
fn device_dx_keeps_the_axes_apart_in_pdy_mode() {
    let m = fake(2.0, 3.0);
    assert_eq!(m.device_dx(&[10, 4, 10, 4], true), Some(vec![20, 12, 20, 12]));
    // Without the flag the same array is four x advances.
    assert_eq!(m.device_dx(&[10, 4, 10, 4], false), Some(vec![20, 8, 20, 8]));
}

#[test]
fn identity_is_recognised_and_lengths_pass_through() {
    let m = fake(1.0, 1.0);
    assert!(m.is_identity());
    assert_eq!(m.len_x(17), 17);
    assert_eq!(m.len_y(13), 13);
}

#[test]
fn lengths_scale_and_round() {
    let m = fake(2.0, 2.0);
    assert!(!m.is_identity());
    assert_eq!(m.len_x(17), 34);
    assert_eq!(m.len_y(13), 26);
    // 1.5x: halves round away from zero, as LPtoDP rounds coordinates.
    let m = fake(1.5, 1.5);
    assert_eq!(m.len_x(3), 5); // 4.5
    assert_eq!(m.len_x(10), 15);
}

#[test]
fn device_dx_steps_through_cumulative_positions() {
    let m = fake(1.5, 1.5);
    let out = m.device_dx(&[3, 3, 3, 3], false).unwrap();
    assert_eq!(out, vec![5, 4, 5, 4]);
    assert_eq!(out.iter().sum::<i32>(), 18, "= round(12 * 1.5), no drift");
}

#[test]
fn lengths_scale_alike_on_both_sides_of_zero() {
    let m = fake(1.5, 1.25);
    for v in -50..50 {
        assert_eq!(m.len_x(-v), -m.len_x(v));
        assert_eq!(m.len_y(-v), -m.len_y(v));
        assert!(m.len_x(v) <= m.len_x(v + 1));
    }
    assert_eq!(m.len_x(i32::MAX), i32::MAX, "a length past 32 bits is cut off");
}

#[test]
fn only_an_upright_mapping_is_taken() {
    assert_eq!(Mapping::probed((5, 5), (5 + 2048, 5), (5, 5 + 1024)), Some(Mapping { sx: 2048, sy: 1024 }));
    assert_eq!(Mapping::probed((0, 0), (1024, 1), (0, 1024)), None);
    assert_eq!(Mapping::probed((0, 0), (1024, 0), (1, 1024)), None);
    assert_eq!(Mapping::probed((0, 0), (-1024, 0), (0, 1024)), None);
    assert_eq!(Mapping::probed((0, 0), (1024, 0), (0, 0)), None);
}
