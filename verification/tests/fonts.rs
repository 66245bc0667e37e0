use font_tuner::config::Profile;
use font_tuner::faces::{Ft, UNKEYED};
use font_tuner::fonts::{hash_of, key_for, DwFaces, Known, Step, MAX_DW_FACES};
use font_tuner::ft::{Glyph, PIXEL_MODE_GRAY};
use std::collections::hash_map::DefaultHasher;
use std::hash::Hasher;

#[test]
fn keys_are_hashes_without_their_last_bit() {
    let mut h = DefaultHasher::new();
    h.write(b"ab");
    h.write(b"c");
    assert_eq!(hash_of(&[b"ab".to_vec(), b"c".to_vec()]), h.finish() >> 1);
    assert!(hash_of(&[]) < UNKEYED);
}

#[test]
fn a_path_names_a_face_in_any_case() {
    let (a, by_path) = key_for(1, Some((r"C:\Windows\Fonts\Meiryo.ttc", 0)), 7);
    assert!(by_path);
    assert_eq!(key_for(2, Some((r"c:\windows\fonts\MEIRYO.TTC", 0)), 8), (a, true));
    assert_ne!(key_for(1, Some((r"C:\Windows\Fonts\Meiryo.ttc", 1)), 7).0, a);
    let (m, by_path) = key_for(1, None, 7);
    assert!(!by_path);
    assert_eq!(key_for(1, Some(("C:\\フォント.ttf", 0)), 7), (m, false), "a path that is not ASCII is not opened");
    assert_ne!(key_for(2, None, 7).0, m);
    assert_ne!(key_for(1, None, 8).0, m);
}

#[test]
fn a_path_is_opened_once() {
    let mut ft = Ft::new();
    let mut faces = DwFaces::new();
    let local = Some((r"C:\a.ttf", 0));
    let (step, gone) = faces.start(&mut ft, 1, local, 0);
    assert_eq!(gone, None);
    let Step::Open(p) = step else { panic!("{step:?}") };
    assert!(!p.known && !p.face.memory);
    assert_eq!(p.face.key, key_for(1, local, 0).0);
    ft.adopt(p.face.key, 101, vec![]);
    assert_eq!(faces.opened(&mut ft, p, true), (true, None));
    assert_eq!(faces.start(&mut ft, 1, local, 0), (Step::Done(true), None));
    // Another object of the same file finds it open.
    assert_eq!(faces.start(&mut ft, 2, local, 0), (Step::Done(true), None));
    assert_eq!(faces.list.len(), 2);
    assert_eq!(ft.active_face(), Some(101));
    // Closed meanwhile: it is opened again, and stays known.
    ft.close(p.face.key);
    let (step, _) = faces.start(&mut ft, 1, local, 0);
    let Step::Open(again) = step else { panic!("{step:?}") };
    assert!(again.known);
    assert_eq!(faces.opened(&mut ft, again, false), (false, None));
    assert_eq!(faces.list.len(), 2);
}

#[test]
fn a_file_in_memory_is_read_first() {
    let mut ft = Ft::new();
    let mut faces = DwFaces::new();
    let (step, _) = faces.start(&mut ft, 1, None, 0);
    let Step::Read(p) = step else { panic!("{step:?}") };
    assert!(p.face.memory);
    assert_eq!(faces.read(&mut ft, p, false), (Step::Done(false), None));
    assert!(faces.list.is_empty());
    assert_eq!(faces.read(&mut ft, p, true), (Step::Open(p), None));
    assert_eq!(faces.opened(&mut ft, p, false), (false, None));
    assert!(faces.list.is_empty(), "a face that did not open is not remembered");
}

#[test]
fn a_forgotten_object_leaves_no_face() {
    let mut ft = Ft::new();
    let mut faces = DwFaces::new();
    let p = Profile::clean_greyscale();
    let mut glyph = None;
    for object in 0..MAX_DW_FACES as u64 {
        let (step, _) = faces.start(&mut ft, object, None, 0);
        let Step::Read(pending) = step else { panic!("{step:?}") };
        assert_eq!(faces.read(&mut ft, pending, true).0, Step::Open(pending));
        if object == 0 {
            ft.adopt(pending.face.key, 100, vec![]);
            let key = ft.plain_key(36, 20, &p).unwrap();
            let dot = Glyph { width: 1, rows: 1, pitch: 1, pixel_mode: PIXEL_MODE_GRAY, left: 0, top: 0, advance_px: 1, buffer: vec![1] };
            ft.cached(key, || Some(dot));
            glyph = Some(key);
        }
        assert_eq!(faces.opened(&mut ft, pending, true), (true, None));
    }
    let (step, _) = faces.start(&mut ft, 99, None, 0);
    let Step::Read(pending) = step else { panic!("{step:?}") };
    assert_eq!(faces.opened(&mut ft, pending, true), (true, Some(100)), "the first object's face is closed");
    assert_eq!(faces.list.len(), MAX_DW_FACES);
    assert!(faces.list.iter().all(|k: &Known| k.object != 0));
    assert!(ft.cached(glyph.unwrap(), || None).is_none(), "and its glyphs are gone");
}
