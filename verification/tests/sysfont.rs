use font_tuner::sysfont::{backup, current_face, face_of, restore, saves_backup, set_face, FONTS};

#[test]
fn a_face_reads_back() {
    for face in FONTS {
        assert_eq!(face_of(&set_face(face)), face);
    }
    let long = "x".repeat(40);
    assert_eq!(face_of(&set_face(&long)), "x".repeat(31), "the field ends in a zero");
}

#[test]
fn the_current_face_is_the_captions() {
    assert_eq!(current_face(Some(&set_face("Meiryo"))), Some("Meiryo".to_string()));
    assert_eq!(current_face(None), None);
}

#[test]
fn the_first_settings_are_saved_once() {
    assert!(saves_backup(Some(false)));
    assert!(!saves_backup(Some(true)));
    assert!(!saves_backup(None), "where it cannot be told");
}

#[test]
fn a_backup_restores_what_was_saved() {
    let metrics = [6, 0, 0, 0, 9, 8];
    let icon = [1, 2, 3];
    let b = backup(&metrics, &icon);
    assert_eq!(b, [6, 0, 0, 0, 9, 8, 1, 2, 3]);
    assert_eq!(restore(Some(&b), 6, 3), Some((metrics.to_vec(), icon.to_vec())));
    assert_eq!(restore(Some(&b), 6, 4), None, "too short");
    assert_eq!(restore(Some(&[0xff; 10]), 5, 1), Some((vec![5, 0, 0, 0, 0xff], vec![0xff])), "the size is set");
}

#[test]
fn two_changes_are_undone_by_one_restore() {
    let fonts = [[6u8, 0, 0, 0, 1, 2], [6, 0, 0, 0, 3, 4]];
    let mut file: Option<Vec<u8>> = None;
    for metrics in &fonts {
        if saves_backup(Some(file.is_some())) {
            file = Some(backup(metrics, &[9]));
        }
    }
    assert_eq!(restore(file.as_deref(), 6, 1), Some((fonts[0].to_vec(), vec![9])));
    assert_eq!(restore(None, 6, 1), None, "nothing is left to restore");
}
