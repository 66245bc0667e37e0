use font_tuner::profile::{parse_alternative_file, reload_requested};

#[test]
fn alternative_file_reads_the_tray_written_key() {
    let ini = "[General]\r\nAlternativeFile=ini\\Clean Greyscale.ini\r\n\r\n[Font-tuner]\r\nAutoRun=1\r\n";
    assert_eq!(parse_alternative_file(ini), Some("ini\\Clean Greyscale.ini"));
}

#[test]
fn alternative_file_ignores_case_blanks_and_comments() {
    let ini = "; AlternativeFile=ini\\commented-out.ini\n\
               # AlternativeFile=ini\\also-not-this.ini\n\
               \x20 alternativefile  =   ini\\Accurate.ini   \n";
    assert_eq!(parse_alternative_file(ini), Some("ini\\Accurate.ini"));
}

#[test]
fn alternative_file_keeps_a_value_containing_equals() {
    // A path may contain '=', so only the first '=' separates key from value.
    let ini = "AlternativeFile=ini\\odd=name.ini\n";
    assert_eq!(parse_alternative_file(ini), Some("ini\\odd=name.ini"));
}

#[test]
fn alternative_file_absent_or_empty_means_use_the_default() {
    assert_eq!(parse_alternative_file(""), None);
    assert_eq!(parse_alternative_file("[General]\nRedrawDelay=5000\n"), None);
    assert_eq!(parse_alternative_file("AlternativeFile=\n"), None);
    assert_eq!(parse_alternative_file("AlternativeFile=   \n"), None);
}

#[test]
fn alternative_file_takes_the_first_of_duplicates() {
    let ini = "AlternativeFile=ini\\first.ini\nAlternativeFile=ini\\second.ini\n";
    assert_eq!(parse_alternative_file(ini), Some("ini\\first.ini"));
}

#[test]
fn alternative_file_first_empty_value_hides_the_rest() {
    assert_eq!(parse_alternative_file("AlternativeFile=\nAlternativeFile=ini\\second.ini\n"), None);
}

#[test]
fn alternative_file_may_hold_any_characters() {
    assert_eq!(parse_alternative_file("\u{3000}ALTERNATIVEFILE\u{a0}=\u{2003}C:\\設定\\日本語.ini\u{3000}"), Some("C:\\設定\\日本語.ini"));
}

#[test]
fn reload_is_requested_once_per_delivered_message() {
    assert!(reload_requested(0, 1, Some(0xc123), 0xc123));
    assert!(!reload_requested(0, 0, Some(0xc123), 0xc123));
    assert!(!reload_requested(-1, 1, Some(0xc123), 0xc123));
    assert!(!reload_requested(0, 1, Some(0xc124), 0xc123));
    assert!(!reload_requested(0, 1, None, 0xc123));
    assert!(!reload_requested(0, 1, Some(0), 0));
}
