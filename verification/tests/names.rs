use font_tuner::bootstrap::{core_path, path_step, PathStep, CORE};
use font_tuner::families::{choose_face, face_has_family, family_of, lowered, FaceNames, SfntName};
use font_tuner::process::{all_but, find_pid, first_thread, seconds, Process, Thread};
use font_tuner::text;
use font_tuner::utf16::{decode, decode_lossy, encode, ended_to_string, nul_position, wide, wide_to_string};
use font_tuner::version::{numbers, resource, workspace_version};

fn chars(s: &str) -> Vec<char> {
    s.chars().collect()
}

#[test]
fn utf16_is_what_std_says() {
    for s in ["", "Meiryo", "メイリオ", "a𝄞b", "\u{10ffff}\u{d7ff}\u{e000}"] {
        let units: Vec<u16> = s.encode_utf16().collect();
        assert_eq!(encode(s), units);
        assert_eq!(decode_lossy(&units), s);
        assert_eq!(wide(s), units.iter().copied().chain([0]).collect::<Vec<u16>>());
    }
    for units in [vec![0xd800], vec![0xdc00, 0x41], vec![0x41, 0xd834, 0xd834, 0xdd1e], vec![0xdbff, 0x42]] {
        assert_eq!(decode_lossy(&units), String::from_utf16_lossy(&units));
    }
    assert_eq!(decode(&[0xd800, 0x41], None), ['A'], "a lone surrogate can be left out");
}

#[test]
fn fields_end_at_the_first_zero() {
    assert_eq!(nul_position(&[1, 2, 0, 0]), 2);
    assert_eq!(nul_position(&[1, 2]), 2);
    assert_eq!(wide_to_string(&[0x41, 0x42, 0, 0x43]), "AB");
    assert_eq!(wide_to_string(&[0x41, 0x42]), "AB");
    assert_eq!(ended_to_string(&[0x41, 0x42, 0, 0x43]), "AB");
    assert_eq!(ended_to_string(&[0x41, 0x42]), "", "without a zero there is no text");
}

#[test]
fn texts_are_put_together() {
    let mut s = String::from("n=");
    text::push_number(&mut s, 120);
    text::push_signed(&mut s, -7);
    assert_eq!(s, "n=120-7");
    assert_eq!(text::string_of(&['a', 'ん']), "aん");
    let mut low = String::new();
    text::push_signed(&mut low, i64::MIN);
    assert_eq!(low, i64::MIN.to_string());
}

#[test]
fn letters_are_lowered_by_unicode() {
    for s in ["ABC", "ÄÖ", "İ", "ゴシック", "Σ"] {
        let each: String = s.chars().flat_map(char::to_lowercase).collect();
        assert_eq!(text::string_of(&lowered(&chars(s))), each);
    }
    assert_ne!(lowered(&chars("É")), chars("É"));
}

fn entry(platform_id: u16, name_id: u16, name: &str) -> Option<SfntName> {
    let string: Vec<u8> = name.encode_utf16().flat_map(u16::to_be_bytes).collect();
    Some(SfntName { platform_id, name_id, string: Some(string) })
}

fn face(family: &str, localized: &str) -> Option<FaceNames> {
    Some(FaceNames { family_name: Some(family.as_bytes().to_vec()), names: vec![None, entry(3, 4, "Full Name"), entry(3, 1, localized)] })
}

/// A collection's face is found by its localized name, not only by the plain
/// one.
#[test]
fn a_face_is_chosen_by_localized_name() {
    let faces = [face("BIZ UDGothic", "BIZ UDゴシック"), face("BIZ UDPGothic", "BIZ UDPゴシック")];
    assert_eq!(choose_face(&faces, "BIZ UDPゴシック"), 1);
    assert_eq!(choose_face(&faces, "BIZ UDGothic"), 0);
    assert_eq!(choose_face(&faces, "biz udpgothic"), 1, "in any case");
    assert_eq!(choose_face(&faces, "Nope"), 0);
    assert_eq!(choose_face(&faces, ""), 0);
    assert_eq!(choose_face(&[None, None, face("X", "Y")], "y"), 2);
    assert_eq!(choose_face(&[], "y"), 0);
}

#[test]
fn only_family_names_count() {
    let f = FaceNames { family_name: None, names: vec![entry(3, 4, "Full"), entry(1, 1, "Mac"), entry(3, 16, "Typographic"), entry(3, 21, "WWS")] };
    assert!(!face_has_family(&f, "Full"));
    assert!(!face_has_family(&f, "Mac"));
    assert!(face_has_family(&f, "typographic"));
    assert!(face_has_family(&f, "wws"));
    assert_eq!(family_of(&SfntName { platform_id: 3, name_id: 1, string: None }), None);
    assert_eq!(family_of(&SfntName { platform_id: 3, name_id: 1, string: Some(vec![0, 0x41, 0x42]) }), Some(vec!['A']), "an odd byte is left over");
}

#[test]
fn the_workspace_has_a_version() {
    let toml = "[package]\nversion = \"9.9.9\"\n[workspace.package]\nedition = \"2021\"\nversion = \"1.2.3\"\n";
    assert_eq!(workspace_version(toml).as_deref(), Some("1.2.3"));
    assert_eq!(workspace_version("[package]\nversion = \"9.9.9\"\n"), None);
    assert_eq!(numbers("1.2.3"), (1, 2, 3));
    assert_eq!(numbers("1.2-beta.99999999999"), (1, 0, 0));
    assert_eq!(numbers(""), (0, 0, 0));
    let rc = resource("1.2.3", "font-tuner.exe", "Font-tuner", 1);
    assert!(rc.starts_with("1 VERSIONINFO\nFILEVERSION 1,2,3,0\nPRODUCTVERSION 1,2,3,0\n"));
    assert!(rc.contains("FILETYPE 1\n"));
    assert!(rc.contains("VALUE \"FileDescription\", \"Font-tuner\"\n"));
    assert!(rc.contains("VALUE \"InternalName\", \"font-tuner.exe\"\n"));
    assert!(rc.ends_with("END\n"));
}

#[test]
fn the_core_is_beside_the_program() {
    let units = |s: &str| s.encode_utf16().collect::<Vec<u16>>();
    let mut want = units(r"C:\Program Files\Font-tuner\");
    want.extend(units(CORE));
    want.push(0);
    assert_eq!(core_path(&units(r"C:\Program Files\Font-tuner\font-tuner.exe")), Some(want));
    assert_eq!(core_path(&units("font-tuner.exe")), None);
    assert_eq!(path_step(0, 260), PathStep::Fail);
    assert_eq!(path_step(12, 260), PathStep::Done(12));
    assert_eq!(path_step(260, 260), PathStep::Grow(520));
    assert_eq!(path_step(0x8000, 0x8000), PathStep::Fail);
}

#[test]
fn programs_are_found_by_name() {
    let program = |pid: u32, name: &str| Process { pid, exe: name.encode_utf16().chain([0, 0x41]).collect() };
    let list = [program(4, "system"), program(8, "Notepad.exe"), program(9, "notepad.exe")];
    assert_eq!(find_pid(&list, "notepad.EXE"), Some(8));
    assert_eq!(find_pid(&list, "nope.exe"), None);
    let threads = [Thread { owner: 4, tid: 1 }, Thread { owner: 8, tid: 2 }, Thread { owner: 8, tid: 3 }, Thread { owner: 8, tid: 5 }];
    assert_eq!(first_thread(&threads, 8), Some(2));
    assert_eq!(first_thread(&threads, 9), None);
    assert_eq!(all_but(&threads, 8, 3), [2, 5]);
    assert_eq!((seconds(None), seconds(Some("20")), seconds(Some("x")), seconds(Some("-1"))), (15, 20, 15, 15));
}
