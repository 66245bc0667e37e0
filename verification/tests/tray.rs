use font_tuner::lang::{self, Strings};
use font_tuner::tray::{about, 
    current, font_menu, guard, handle_command, hook_message, icon_for, label, main_menu, message, picks_icon, profile_menu, profiles, selection,
    taskbar_is_light, tip, Command, HookError, Item, Message, ICON_DARK, ICON_LIGHT, ID_CUSTOM, ID_CUSTOM_EDIT, ID_ENABLED, ID_EXIT,
    ID_PROFILE_BASE, ID_RELOAD, ID_RESTART, ID_SYSFONT_BASE, ID_SYSFONT_DEFAULT, ID_VERSION, WM_CONTEXTMENU, WM_DESTROY, WM_LBUTTONUP,
    WM_RBUTTONUP, WM_SETTINGCHANGE, WM_TRAY,
};

fn strings() -> Strings {
    lang::current(0x409)
}

fn owned(names: &[&str]) -> Vec<String> {
    names.iter().map(|n| n.to_string()).collect()
}

#[test]
fn profiles_are_listed_in_menu_order() {
    let files = owned(&["zebra.ini", "Clean Sharp.ini", "readme.txt", "accurate.INI", "Alpha.ini", "Clean Greyscale.ini", "ini", "Clean Dark Greyscale.ini"]);
    assert_eq!(
        profiles(&files),
        ["Clean Greyscale.ini", "Clean Dark Greyscale.ini", "accurate.INI", "Clean Sharp.ini", "Alpha.ini", "zebra.ini"]
    );
    assert!(profiles(&[]).is_empty());
}

#[test]
fn names_of_one_place_keep_their_order() {
    assert_eq!(profiles(&owned(&["b.ini", "A.ini", "a.INI"])), ["A.ini", "a.INI", "b.ini"]);
}

#[test]
fn the_current_profile_is_a_file_name() {
    let units = |s: &str| s.encode_utf16().collect::<Vec<u16>>();
    assert_eq!(current(&units(r"ini\Accurate.ini")), "Accurate.ini");
    assert_eq!(current(&units("ini/sub\\x.ini")), "x.ini");
    assert_eq!(current(&units("x.ini")), "x.ini");
    assert_eq!(current(&[]), "");
    assert_eq!(selection("Accurate.ini"), r"ini\Accurate.ini");
    assert_eq!(label("Accurate.ini"), "Accurate");
    assert_eq!(label("a.ini.ini"), "a");
    assert_eq!(label("A.INI"), "A.INI");
}

/// A command's identifier, text, check mark and greying.
fn parts(i: &Item) -> Option<(usize, String, bool, bool)> {
    match i {
        Item::Command { id, text, checked, greyed } => Some((*id, text.clone(), *checked, *greyed)),
        _ => None,
    }
}

#[test]
fn the_profile_menu_checks_the_one_in_use() {
    let s = strings();
    let m = profile_menu(&owned(&["Accurate.ini", "b.ini"]), "accurate.ini", false, &s);
    assert_eq!(m.len(), 5);
    assert_eq!(parts(&m[0]), Some((ID_PROFILE_BASE, "Accurate".to_string(), true, false)));
    assert_eq!(parts(&m[1]), Some((ID_PROFILE_BASE + 1, "b".to_string(), false, false)));
    assert!(matches!(m[2], Item::Separator));
    assert_eq!(parts(&m[3]), Some((ID_CUSTOM, s.custom.to_string(), false, true)));
    assert_eq!(parts(&m[4]), Some((ID_CUSTOM_EDIT, s.custom_edit.to_string(), false, false)));
    let m = profile_menu(&[], "custom.INI", true, &s);
    assert_eq!(parts(&m[1]), Some((ID_CUSTOM, s.custom.to_string(), true, false)));
}

#[test]
fn the_font_menu_checks_the_face_in_use() {
    let s = strings();
    let m = font_menu("Noto Sans JP", &s);
    assert_eq!(m.len(), 6);
    assert_eq!(parts(&m[0]), Some((ID_SYSFONT_DEFAULT, s.sysfont_default.to_string(), false, false)));
    assert!(matches!(m[1], Item::Separator));
    assert_eq!(parts(&m[4]), Some((ID_SYSFONT_BASE + 2, "Noto Sans JP".to_string(), true, false)));
    assert_eq!(m.iter().filter_map(parts).filter(|p| p.2).count(), 1);
}

#[test]
fn the_main_menu_has_every_command() {
    let s = strings();
    let m = main_menu(true, "1.2.3", &s);
    assert_eq!(parts(&m[0]), Some((ID_ENABLED, s.enabled.to_string(), true, false)));
    assert!(matches!(&m[1], Item::Profiles { text } if text == s.profile));
    assert_eq!(parts(&m[2]), Some((ID_RELOAD, s.reload.to_string(), false, false)));
    assert!(matches!(&m[3], Item::Fonts { text } if text == s.sysfont));
    assert!(matches!(m[4], Item::Separator));
    assert_eq!(parts(&m[5]), Some((ID_VERSION, format!("{} 1.2.3", s.version), false, false)));
    assert_eq!(parts(&m[6]), Some((ID_RESTART, s.restart.to_string(), false, false)));
    assert_eq!(parts(&m[7]), Some((ID_EXIT, s.exit.to_string(), false, false)));
    assert_eq!(m.len(), 8);
}

#[test]
fn items_give_their_commands() {
    let given = |id: usize| handle_command(id, 3);
    assert_eq!(given(ID_ENABLED), Command::Toggle);
    assert_eq!(given(ID_EXIT), Command::Exit);
    assert_eq!(given(ID_RELOAD), Command::Reload);
    assert_eq!(given(ID_VERSION), Command::About);
    assert_eq!(given(ID_CUSTOM), Command::UseCustom);
    assert_eq!(given(ID_CUSTOM_EDIT), Command::EditCustom);
    assert_eq!(given(ID_RESTART), Command::Restart);
    assert_eq!(given(ID_SYSFONT_DEFAULT), Command::RestoreFont);
    assert_eq!(given(ID_SYSFONT_BASE + 3), Command::Font(3));
    assert_eq!(given(ID_SYSFONT_BASE + 4), Command::Nothing);
    assert_eq!(given(ID_PROFILE_BASE + 2), Command::Profile(2));
    assert_eq!(given(ID_PROFILE_BASE + 3), Command::Nothing);
    assert_eq!(given(0), Command::Nothing);
}

#[test]
fn the_hook_is_guarded() {
    assert!(guard(Some(0x1000), vec![]).is_ok());
    let s = strings();
    let stale = guard(Some(0x1000), owned(&["a.exe", "b.exe"])).unwrap_err();
    assert!(matches!(&stale, HookError::Stale(v) if v.len() == 2));
    assert_eq!(hook_message(&stale, &s), format!("{}\n\na.exe, b.exe", s.err_stale));
    let layout = guard(Some(0x2000), owned(&["a.exe"])).unwrap_err();
    assert!(matches!(layout, HookError::Layout));
    assert_eq!(hook_message(&layout, &s), s.err_rva);
    // A core that cannot be read, or has no such export.
    let install = guard(None, owned(&["a.exe"])).unwrap_err();
    assert!(matches!(install, HookError::Install));
    assert_eq!(hook_message(&install, &s), s.err_hook);
}

#[test]
fn the_icon_follows_the_taskbar() {
    assert!(taskbar_is_light(Some(1)));
    assert!(!taskbar_is_light(Some(0)));
    assert!(!taskbar_is_light(None));
    assert_ne!(ICON_LIGHT, ICON_DARK);
    assert_ne!(icon_for(true), icon_for(false));
    assert!(picks_icon(true, false, true));
    assert!(!picks_icon(true, true, true));
    assert!(picks_icon(true, true, false));
}

#[test]
fn the_tip_fits_its_field() {
    let s = strings();
    let on: Vec<u16> = s.tip_on.encode_utf16().chain([0]).collect();
    assert_eq!(tip(true, &s), on);
    assert_ne!(tip(false, &s), on);
}

#[test]
fn messages_are_told_apart() {
    for event in [WM_RBUTTONUP, WM_LBUTTONUP, WM_CONTEXTMENU] {
        assert_eq!(message(WM_TRAY, event, 0xc123), Message::OpenMenu);
    }
    assert_eq!(message(WM_TRAY, 0x200, 0xc123), Message::Ignored);
    assert_eq!(message(WM_SETTINGCHANGE, 0, 0xc123), Message::Theme);
    assert_eq!(message(WM_DESTROY, 0, 0xc123), Message::Destroyed);
    assert_eq!(message(0xc123, 0, 0xc123), Message::NewTaskbar);
    assert_eq!(message(0, 0, 0), Message::Other);
}

#[test]
fn japanese_systems_get_japanese_texts() {
    assert_eq!(lang::current(0x411).exit, lang::current(0x11).exit);
    assert_ne!(lang::current(0x411).exit, lang::current(0x409).exit);
    assert_eq!(lang::current(0x409).exit, lang::current(0x407).exit);
}

#[test]
fn about_names_version_licence_source_and_credit() {
    assert_eq!(
        about("1.2.3", "https://example.org/s", "RenderCore64"),
        "Font-tuner 1.2.3\nLicense: GPL-3.0-only\nSource: https://example.org/s\n\n\
         Rendering core: RenderCore64, statically linked with\nthe FreeType library.\n\
         Portions of this software are copyright \u{a9} The FreeType\nProject (www.freetype.org). All rights reserved."
    );
}
