//! The dialog for a profile of one's own: what its controls stand for, the
//! file that it writes, and how it is laid out.

use vstd::prelude::*;

use crate::config;
use crate::config::{Aa, Profile, Settings};
use crate::gdi::Metrics;
use crate::numbers;
use crate::text;

verus! {

/// File name of the custom profile (under `%APPDATA%\Font-tuner\`).
pub const FILE_NAME: &'static str = "Custom.ini";

// ---- the file ----

/// Lines, each with a carriage return and a line feed behind it.
pub open spec fn joined(ls: Seq<Seq<char>>) -> Seq<char>
    decreases ls.len(),
{
    if ls.len() == 0 {
        seq![]
    } else {
        ls[0] + seq!['\r', '\n'] + joined(ls.skip(1))
    }
}

/// A line that gives `key` a value.
pub open spec fn entry_line(key: Seq<char>, value: Seq<char>) -> Seq<char> {
    key + seq!['='] + value
}

/// The lines of a file with these settings.
pub open spec fn ini_lines(s: Settings) -> Seq<Seq<char>> {
    seq![
        "; Font-tuner custom profile (written by the tray's Custom dialog)"@,
        "[General]"@,
        entry_line("Name"@, "Custom"@),
        entry_line("HintingMode"@, text::signed_numeral(s.hinting)),
        entry_line("AntiAliasMode"@, text::signed_numeral(s.aa.number() as int)),
        entry_line("LcdFilter"@, text::signed_numeral(s.lcd_filter)),
        entry_line("GammaMode"@, text::signed_numeral(s.gamma_mode)),
        entry_line("GammaValue"@, s.gamma),
        entry_line("Contrast"@, s.contrast),
        entry_line("RenderWeight"@, s.weight),
        entry_line("NormalWeight"@, text::signed_numeral(s.embolden)),
    ]
}

/// The text of a file with these settings.
pub open spec fn ini(s: Settings) -> Seq<char> {
    joined(ini_lines(s))
}

/// What is written for a profile, whose real numbers are `gamma`, `contrast`
/// and `weight` in units of `1 / DW_ONE`: those with two decimals.
pub open spec fn as_written(s: Settings, gamma: int, contrast: int, weight: int) -> Settings {
    Settings {
        gamma: rounded_text(gamma),
        contrast: rounded_text(contrast),
        weight: rounded_text(weight),
        ..s
    }
}

proof fn joined_grows(ls: Seq<Seq<char>>, l: Seq<char>)
    ensures
        joined(ls.push(l)) == joined(ls) + l + seq!['\r', '\n'],
    decreases ls.len(),
{
    if ls.len() == 0 {
        assert(ls.push(l).skip(1) =~= seq![]);
        assert(joined(ls.push(l).skip(1)) =~= seq![]);
        assert(joined(ls.push(l)) =~= joined(ls) + l + seq!['\r', '\n']);
    } else {
        joined_grows(ls.skip(1), l);
        assert(ls.push(l).skip(1) =~= ls.skip(1).push(l));
        assert(joined(ls.push(l)) =~= joined(ls) + l + seq!['\r', '\n']);
    }
}

/// Texts without line feeds are the lines of what they are joined to.
proof fn lines_of_joined(ls: Seq<Seq<char>>)
    requires
        forall|i: int, j: int| 0 <= i < ls.len() && 0 <= j < ls[i].len() ==> #[trigger] ls[i][j] != '\n',
    ensures
        text::lines(joined(ls)) == ls,
    decreases ls.len(),
{
    if ls.len() == 0 {
        assert(text::lines(joined(ls)) =~= ls);
    } else {
        let rest = ls.skip(1);
        assert forall|i: int, j: int| 0 <= i < rest.len() && 0 <= j < rest[i].len() implies #[trigger] rest[i][j]
            != '\n' by {
            assert(rest[i] == ls[i + 1]);
            assert(ls[i + 1][j] != '\n');
        }
        lines_of_joined(rest);
        text::first_line(ls[0], joined(rest));
        assert(seq![ls[0]] + rest =~= ls);
    }
}

fn add_line(out: &mut String, line: &str, Ghost(done): Ghost<Seq<Seq<char>>>)
    requires
        old(out)@ == joined(done),
    ensures
        final(out)@ == joined(done.push(line@)),
{
    out.append(line);
    out.append("\r\n");
    proof {
        reveal_strlit("\r\n");
        joined_grows(done, line@);
        assert(out@ =~= joined(done) + line@ + seq!['\r', '\n']);
    }
}

fn add_entry(out: &mut String, key: &str, value: &str, Ghost(done): Ghost<Seq<Seq<char>>>)
    requires
        old(out)@ == joined(done),
    ensures
        final(out)@ == joined(done.push(entry_line(key@, value@))),
{
    let mut line: String = key.to_owned();
    line.append("=");
    line.append(value);
    proof {
        reveal_strlit("=");
        assert(line@ =~= entry_line(key@, value@));
    }
    add_line(out, line.as_str(), Ghost(done));
}

fn number(n: i32) -> (r: String)
    ensures
        r@ == text::signed_numeral(n as int),
{
    let mut s: String = "".to_owned();
    text::push_signed(&mut s, n as i64);
    proof {
        reveal_strlit("");
        assert(s@ =~= text::signed_numeral(n as int));
    }
    s
}

/// The text of the custom profile's file: the keys that `Profile::from_ini_str`
/// reads. The profile's real numbers, in units of `1 / DW_ONE`, are written
/// with two decimals.
pub fn ini_text(p: &Profile, gamma: i64, contrast: i64, weight: i64) -> (r: String)
    ensures
        r@ == ini(as_written(p@, gamma as int, contrast as int, weight as int)),
{
    let ghost ls = ini_lines(as_written(p@, gamma as int, contrast as int, weight as int));
    let mut out: String = "".to_owned();
    proof {
        reveal_strlit("");
        assert(out@ =~= joined(ls.take(0)));
    }
    add_line(
        &mut out,
        "; Font-tuner custom profile (written by the tray's Custom dialog)",
        Ghost(ls.take(0)),
    );
    assert(ls.take(0).push(ls[0]) =~= ls.take(1));
    add_line(&mut out, "[General]", Ghost(ls.take(1)));
    assert(ls.take(1).push(ls[1]) =~= ls.take(2));
    add_entry(&mut out, "Name", "Custom", Ghost(ls.take(2)));
    assert(ls.take(2).push(ls[2]) =~= ls.take(3));
    add_entry(&mut out, "HintingMode", number(p.hinting).as_str(), Ghost(ls.take(3)));
    assert(ls.take(3).push(ls[3]) =~= ls.take(4));
    add_entry(&mut out, "AntiAliasMode", number(p.aa.mode()).as_str(), Ghost(ls.take(4)));
    assert(ls.take(4).push(ls[4]) =~= ls.take(5));
    add_entry(&mut out, "LcdFilter", number(p.lcd_filter).as_str(), Ghost(ls.take(5)));
    assert(ls.take(5).push(ls[5]) =~= ls.take(6));
    add_entry(&mut out, "GammaMode", number(p.gamma_mode).as_str(), Ghost(ls.take(6)));
    assert(ls.take(6).push(ls[6]) =~= ls.take(7));
    add_entry(&mut out, "GammaValue", decimals(gamma).as_str(), Ghost(ls.take(7)));
    assert(ls.take(7).push(ls[7]) =~= ls.take(8));
    add_entry(&mut out, "Contrast", decimals(contrast).as_str(), Ghost(ls.take(8)));
    assert(ls.take(8).push(ls[8]) =~= ls.take(9));
    add_entry(&mut out, "RenderWeight", decimals(weight).as_str(), Ghost(ls.take(9)));
    assert(ls.take(9).push(ls[9]) =~= ls.take(10));
    add_entry(&mut out, "NormalWeight", number(p.embolden).as_str(), Ghost(ls.take(10)));
    assert(ls.take(10).push(ls[10]) =~= ls);
    out
}

/// A key that can be read: it does not look like something else.
spec fn good_key(k: Seq<char>) -> bool {
    &&& k.len() > 0
    &&& text::plain(k)
    &&& k[0] != ';'
    &&& k[0] != '['
    &&& forall|i: int| 0 <= i < k.len() ==> #[trigger] k[i] != '='
}

spec fn good_value(v: Seq<char>) -> bool {
    v.len() > 0 && text::plain(v)
}

proof fn entry_lines_are_read(k: Seq<char>, v: Seq<char>)
    requires
        good_key(k),
        good_value(v),
    ensures
        ({
            let l = entry_line(k, v);
            &&& text::trim(l) == l
            &&& config::entry(l)
            &&& config::entry_key(l) == k
            &&& config::entry_value(l) == v
            &&& forall|i: int| 0 <= i < l.len() ==> l[i] != '\n'
        }),
{
    let l = entry_line(k, v);
    assert forall|i: int| 0 <= i < l.len() implies l[i] == '=' || !text::white(l[i]) by {
        if i < k.len() {
            assert(l[i] == k[i]);
        } else if i > k.len() {
            assert(l[i] == v[i - k.len() - 1]);
        }
    }
    assert(l[0] == k[0]);
    assert(l.last() == v.last());
    text::trim_keeps(l);
    assert forall|i: int| 0 <= i < k.len() implies l[i] != '=' by {
        assert(l[i] == k[i]);
    }
    text::find_unique(l, '=', k.len() as int);
    assert(l.take(k.len() as int) =~= k);
    assert(l.skip(k.len() as int + 1) =~= v);
    text::trim_keeps(k);
    text::trim_keeps(v);
}

/// The key and the value of each entry of the file, by its line.
spec fn key_at(i: int) -> Seq<char> {
    if i == 2 {
        "Name"@
    } else if i == 3 {
        "HintingMode"@
    } else if i == 4 {
        "AntiAliasMode"@
    } else if i == 5 {
        "LcdFilter"@
    } else if i == 6 {
        "GammaMode"@
    } else if i == 7 {
        "GammaValue"@
    } else if i == 8 {
        "Contrast"@
    } else if i == 9 {
        "RenderWeight"@
    } else {
        "NormalWeight"@
    }
}

spec fn value_at(s: Settings, i: int) -> Seq<char> {
    if i == 2 {
        "Custom"@
    } else if i == 3 {
        text::signed_numeral(s.hinting)
    } else if i == 4 {
        text::signed_numeral(s.aa.number() as int)
    } else if i == 5 {
        text::signed_numeral(s.lcd_filter)
    } else if i == 6 {
        text::signed_numeral(s.gamma_mode)
    } else if i == 7 {
        s.gamma
    } else if i == 8 {
        s.contrast
    } else if i == 9 {
        s.weight
    } else {
        text::signed_numeral(s.embolden)
    }
}

proof fn keys_are_good(i: int)
    ensures
        good_key(key_at(i)),
{
    reveal_strlit("Name");
    reveal_strlit("HintingMode");
    reveal_strlit("AntiAliasMode");
    reveal_strlit("LcdFilter");
    reveal_strlit("GammaMode");
    reveal_strlit("GammaValue");
    reveal_strlit("Contrast");
    reveal_strlit("RenderWeight");
    reveal_strlit("NormalWeight");
}

proof fn keys_differ(i: int, j: int)
    requires
        2 <= i < j <= 10,
    ensures
        key_at(i) != key_at(j),
{
    reveal_strlit("Name");
    reveal_strlit("HintingMode");
    reveal_strlit("AntiAliasMode");
    reveal_strlit("LcdFilter");
    reveal_strlit("GammaMode");
    reveal_strlit("GammaValue");
    reveal_strlit("Contrast");
    reveal_strlit("RenderWeight");
    reveal_strlit("NormalWeight");
    assert("LcdFilter"@[0] != "GammaMode"@[0]);
    assert("RenderWeight"@[0] != "NormalWeight"@[0]);
    assert("Name"@.len() == 4 && "HintingMode"@.len() == 11 && "AntiAliasMode"@.len() == 13);
    assert("LcdFilter"@.len() == 9 && "GammaMode"@.len() == 9 && "GammaValue"@.len() == 10);
    assert("Contrast"@.len() == 8 && "RenderWeight"@.len() == 12 && "NormalWeight"@.len() == 12);
    if key_at(i) == key_at(j) {
        assert(key_at(i).len() == key_at(j).len());
    }
}

/// A profile whose real numbers are real numbers.
pub open spec fn numbers_ok(s: Settings) -> bool {
    &&& text::real_number(s.gamma)
    &&& text::real_number(s.weight)
    &&& text::real_number(s.contrast)
}

proof fn values_are_good(s: Settings, i: int)
    requires
        numbers_ok(s),
    ensures
        good_value(value_at(s, i)),
{
    reveal_strlit("Custom");
    text::real_numbers_are_plain(s.gamma);
    text::real_numbers_are_plain(s.weight);
    text::real_numbers_are_plain(s.contrast);
    text::numerals_are_plain(s.hinting);
    text::numerals_are_plain(s.aa.number() as int);
    text::numerals_are_plain(s.lcd_filter);
    text::numerals_are_plain(s.gamma_mode);
    text::numerals_are_plain(s.embolden);
}

proof fn first_lines_are_no_entries(s: Settings)
    ensures
        ({
            let ls = ini_lines(s);
            &&& text::trim(ls[0]) == ls[0]
            &&& text::trim(ls[1]) == ls[1]
            &&& config::comment(ls[0])
            &&& config::header(ls[1])
            &&& config::named_section(ls[1]) == config::Section::General
            &&& forall|i: int| 0 <= i < ls[0].len() ==> ls[0][i] != '\n'
            &&& forall|i: int| 0 <= i < ls[1].len() ==> ls[1][i] != '\n'
        }),
{
    let ls = ini_lines(s);
    reveal_strlit("; Font-tuner custom profile (written by the tray's Custom dialog)");
    reveal_strlit("[General]");
    text::trim_keeps(ls[0]);
    text::trim_keeps(ls[1]);
    let l = ls[1];
    reveal_strlit("General");
    reveal_strlit("DirectWrite");
    reveal_strlit("Experimental");
    assert(l =~= seq!['['] + "General"@ + seq![']']);
    let inner = seq!['['] + "General"@;
    assert(l.drop_last() =~= inner);
    assert(text::strip_end(inner, ']') == inner);
    assert(text::strip_end(l, ']') == inner);
    assert(inner.skip(1) =~= "General"@);
    assert(text::strip_start("General"@, '[') == "General"@);
    assert(text::strip_start(inner, '[') == "General"@);
    text::trim_keeps("General"@);
}

proof fn the_lines_are_read(s: Settings)
    requires
        numbers_ok(s),
    ensures
        text::lines(ini(s)) == ini_lines(s),
        forall|i: int| #![trigger ini_lines(s)[i]]
            2 <= i < 11 ==> {
                let l = text::trim(ini_lines(s)[i]);
                config::entry(l) && config::entry_key(l) == key_at(i) && config::entry_value(l) == value_at(s, i)
            },
        forall|i: int| 0 <= i <= 11 ==> #[trigger] config::section_at(ini_lines(s), i) == config::Section::General,
{
    let ls = ini_lines(s);
    first_lines_are_no_entries(s);
    assert forall|i: int| #![trigger ls[i]] 2 <= i < 11 implies {
        let l = text::trim(ls[i]);
        &&& ls[i] == entry_line(key_at(i), value_at(s, i))
        &&& config::entry(l)
        &&& config::entry_key(l) == key_at(i)
        &&& config::entry_value(l) == value_at(s, i)
        &&& forall|j: int| 0 <= j < ls[i].len() ==> ls[i][j] != '\n'
    } by {
        keys_are_good(i);
        values_are_good(s, i);
        entry_lines_are_read(key_at(i), value_at(s, i));
    }
    assert forall|i: int, j: int| 0 <= i < ls.len() && 0 <= j < ls[i].len() implies #[trigger] ls[i][j] != '\n' by {
        if i >= 2 {
            assert(ls[i] == entry_line(key_at(i), value_at(s, i)));
        }
    }
    lines_of_joined(ls);
    assert forall|i: int| 0 <= i <= 11 implies #[trigger] config::section_at(ls, i) == config::Section::General by {
        sections_are_general(s, i);
    }
}

proof fn sections_are_general(s: Settings, n: int)
    requires
        numbers_ok(s),
        0 <= n <= 11,
    ensures
        config::section_at(ini_lines(s), n) == config::Section::General,
    decreases n,
{
    if n > 0 {
        first_lines_are_no_entries(s);
        sections_are_general(s, n - 1);
        if n > 2 {
            keys_are_good(n - 1);
            values_are_good(s, n - 1);
            entry_lines_are_read(key_at(n - 1), value_at(s, n - 1));
            assert(ini_lines(s)[n - 1] == entry_line(key_at(n - 1), value_at(s, n - 1)));
        }
    }
}

proof fn the_entry_is_found(s: Settings, i: int)
    requires
        numbers_ok(s),
        2 <= i < 11,
    ensures
        config::general(ini(s), key_at(i)) == Some(value_at(s, i)),
{
    let ls = ini_lines(s);
    the_lines_are_read(s);
    first_lines_are_no_entries(s);
    let sec = config::Section::General;
    let any = config::ValueKind::Any;
    assert(ls[i] == ini_lines(s)[i]);
    assert(config::section_at(ls, i) == sec);
    assert(config::wanted(ls, i, sec, key_at(i), false, any));
    assert forall|j: int| 0 <= j < i implies !#[trigger] config::wanted(ls, j, sec, key_at(i), false, any) by {
        if j >= 2 {
            keys_differ(j, i);
            assert(config::entry_key(text::trim(ini_lines(s)[j])) == key_at(j));
        }
    }
    config::the_first_entry_decides(ls, ls.len() as int, i, sec, key_at(i), false, any);
}

proof fn nothing_else_is_found(s: Settings, sec: config::Section, name: Seq<char>, any_case: bool, kind: config::ValueKind)
    requires
        numbers_ok(s),
        sec != config::Section::General,
    ensures
        config::special(ini(s), sec, name, any_case, kind) is None,
{
    let ls = ini_lines(s);
    the_lines_are_read(s);
    assert forall|j: int| 0 <= j < ls.len() implies !#[trigger] config::wanted(ls, j, sec, name, any_case, kind) by {
        assert(config::section_at(ls, j) == config::Section::General);
    }
    config::no_entry_no_value(ls, ls.len() as int, sec, name, any_case, kind);
}

/// What is written for a profile reads back as that profile: the knobs of the
/// dialog as they are written, the rest at its default.
pub proof fn a_written_profile_reads_back(p: Profile, gamma: int, contrast: int, weight: int)
    ensures
        config::settings(ini(as_written(p@, gamma, contrast, weight))) == (Settings {
            dw_gamma: None,
            dw_contrast: None,
            dw_cleartype_level: None,
            dw_rendering_mode: 5,
            clipbox_fix: true,
            ..as_written(p@, gamma, contrast, weight)
        }),
{
    let s = as_written(p@, gamma, contrast, weight);
    decimal_text_is_real(gamma < 0, cents(numbers::magnitude(gamma)));
    decimal_text_is_real(contrast < 0, cents(numbers::magnitude(contrast)));
    decimal_text_is_real(weight < 0, cents(numbers::magnitude(weight)));
    the_entry_is_found(s, 3);
    the_entry_is_found(s, 4);
    the_entry_is_found(s, 5);
    the_entry_is_found(s, 6);
    the_entry_is_found(s, 7);
    the_entry_is_found(s, 8);
    the_entry_is_found(s, 9);
    the_entry_is_found(s, 10);
    text::signed_numeral_reads_back(s.hinting);
    text::signed_numeral_reads_back(s.aa.number() as int);
    text::signed_numeral_reads_back(s.lcd_filter);
    text::signed_numeral_reads_back(s.gamma_mode);
    text::signed_numeral_reads_back(s.embolden);
    config::mode_number_names_the_mode(s.aa, s.aa.number() as int);
    nothing_else_is_found(s, config::Section::DirectWrite, "GammaValue"@, false, config::ValueKind::Real);
    nothing_else_is_found(s, config::Section::DirectWrite, "Contrast"@, false, config::ValueKind::Real);
    nothing_else_is_found(s, config::Section::DirectWrite, "ClearTypeLevel"@, false, config::ValueKind::Real);
    nothing_else_is_found(s, config::Section::DirectWrite, "RenderingMode"@, true, config::ValueKind::Integer);
    nothing_else_is_found(s, config::Section::Experimental, "ClipBoxFix"@, true, config::ValueKind::Integer);
}

// ---- the controls ----

/// The ends of the sliders: hundredths for the real numbers, whole 26.6 units
/// for the weight of the outline. Between them text stays readable.
pub const GAMMA_MIN: i32 = 50;

pub const GAMMA_MAX: i32 = 300;

pub const CONTRAST_MIN: i32 = 50;

pub const CONTRAST_MAX: i32 = 250;

pub const WEIGHT_MIN: i32 = 50;

pub const WEIGHT_MAX: i32 = 250;

pub const EMBOLDEN_MIN: i32 = -16;

pub const EMBOLDEN_MAX: i32 = 48;

/// What the controls show: the selected entry of each list, and where each
/// slider stands.
#[derive(Clone, Copy, Debug, PartialEq, Eq, Structural)]
pub struct Controls {
    pub hinting: usize,
    pub aa: usize,
    pub lcd_filter: usize,
    pub gamma_mode: usize,
    pub gamma: i32,
    pub contrast: i32,
    pub weight: i32,
    pub embolden: i32,
}

pub open spec fn hinting_entry(v: int) -> int {
    if 0 <= v <= 2 {
        v
    } else {
        0
    }
}

pub open spec fn hinting_value(entry: int) -> int {
    if entry < 2 {
        entry
    } else {
        2
    }
}

pub open spec fn aa_entry(aa: Aa) -> int {
    match aa {
        Aa::Grey => 0,
        Aa::LcdRgb => 1,
        Aa::LcdBgr => 2,
        Aa::LightLcdRgb => 3,
        Aa::LightLcdBgr => 4,
    }
}

pub open spec fn aa_value(entry: int) -> Aa {
    if entry == 0 {
        Aa::Grey
    } else if entry == 1 {
        Aa::LcdRgb
    } else if entry == 2 {
        Aa::LcdBgr
    } else if entry == 3 {
        Aa::LightLcdRgb
    } else {
        Aa::LightLcdBgr
    }
}

pub open spec fn filter_entry(v: int) -> int {
    if 0 <= v <= 3 {
        v
    } else {
        0
    }
}

pub open spec fn filter_value(entry: int) -> int {
    if entry < 3 {
        entry
    } else {
        3
    }
}

/// The entries of the gamma mode are 0, 1, 2 and -1.
pub open spec fn gamma_mode_entry(v: int) -> int {
    if 0 <= v <= 2 {
        v
    } else if v == -1 {
        3
    } else {
        0
    }
}

pub open spec fn gamma_mode_value(entry: int) -> int {
    if entry < 3 {
        entry
    } else {
        -1
    }
}

/// `m` hundredths with two decimals, and a sign where it is `negative`.
pub open spec fn decimal_text(negative: bool, m: int) -> Seq<char> {
    (if negative {
        seq!['-']
    } else {
        seq![]
    }) + text::numeral(m / 100) + seq!['.', text::digit_char(m % 100 / 10), text::digit_char(m % 10)]
}

/// A real number in hundredths, written with two decimals.
pub open spec fn two_decimals(n: int) -> Seq<char> {
    decimal_text(n < 0, numbers::magnitude(n))
}

/// The hundredths of a number from 0, in units of `1 / DW_ONE`: the nearest
/// ones, and of two as near the even.
pub open spec fn cents(m: int) -> int {
    let one = config::DW_ONE as int;
    let (whole, rest) = (m * 100 / one, m * 100 % one);
    if 2 * rest > one || 2 * rest == one && whole % 2 == 1 {
        whole + 1
    } else {
        whole
    }
}

/// A number in units of `1 / DW_ONE`, rounded to two decimals.
pub open spec fn rounded_text(v: int) -> Seq<char> {
    decimal_text(v < 0, cents(numbers::magnitude(v)))
}

fn write_hundredths(negative: bool, m: u64) -> (r: String)
    ensures
        r@ == decimal_text(negative, m as int),
{
    let mut s: String = "".to_owned();
    if negative {
        s.append("-");
    }
    text::push_number(&mut s, m / 100);
    s.append(".");
    text::push_number(&mut s, m % 100 / 10);
    text::push_number(&mut s, m % 10);
    proof {
        reveal_strlit("");
        reveal_strlit("-");
        reveal_strlit(".");
        assert(text::numeral((m % 100 / 10) as int) =~= seq![text::digit_char((m % 100 / 10) as int)]);
        assert(text::numeral((m % 10) as int) =~= seq![text::digit_char((m % 10) as int)]);
        assert(s@ =~= decimal_text(negative, m as int));
    }
    s
}

/// The numeral, with two decimals, of a slider's position.
pub fn hundredths_text(n: i32) -> (r: String)
    ensures
        r@ == two_decimals(n as int),
{
    let m: i64 = if n < 0 {
        -(n as i64)
    } else {
        n as i64
    };
    write_hundredths(n < 0, m as u64)
}

/// The numeral, with two decimals, of a number in units of `1 / DW_ONE`.
pub fn decimals(v: i64) -> (r: String)
    ensures
        r@ == rounded_text(v as int),
{
    let one: i128 = config::DW_ONE as i128;
    let m: i128 = if v < 0 {
        -(v as i128)
    } else {
        v as i128
    };
    let (whole, rest): (i128, i128) = (m * 100 / one, m * 100 % one);
    let up: i128 = if 2 * rest > one || 2 * rest == one && whole % 2 == 1 {
        1
    } else {
        0
    };
    write_hundredths(v < 0, (whole + up) as u64)
}

/// A numeral with two decimals is a real number.
proof fn decimal_text_is_real(negative: bool, m: int)
    requires
        m >= 0,
    ensures
        text::real_number(decimal_text(negative, m)),
{
    let t = decimal_text(negative, m);
    let whole = text::numeral(m / 100);
    let tail = seq![text::digit_char(m % 100 / 10), text::digit_char(m % 10)];
    let u = whole + seq!['.'] + tail;
    text::numeral_reads_back(m / 100);
    if negative {
        assert(t.skip(1) =~= u);
    } else {
        assert(t =~= u);
        assert(u[0] == whole[0]);
    }
    assert(text::unsigned_part(t) == u);
    assert forall|i: int| 0 <= i < u.len() implies u[i] == '.' || text::digit(u[i]) by {
        if i < whole.len() {
            assert(u[i] == whole[i]);
        } else if i > whole.len() {
            assert(u[i] == tail[i - whole.len() - 1]);
        }
    }
    text::find_unique(u, 'e', u.len() as int);
    text::find_unique(u, 'E', u.len() as int);
    assert(u.take(u.len() as int) =~= u);
    assert forall|i: int| 0 <= i < whole.len() implies u[i] != '.' by {
        assert(u[i] == whole[i]);
    }
    text::find_unique(u, '.', whole.len() as int);
    assert(u.take(whole.len() as int) =~= whole);
    assert(u.skip(whole.len() as int + 1) =~= tail);
}

/// The numeral of a slider's position is a real number.
pub proof fn two_decimals_are_a_real_number(n: int)
    ensures
        text::real_number(two_decimals(n)),
{
    decimal_text_is_real(n < 0, numbers::magnitude(n));
}

/// A number that is a whole number of hundredths, up to the precision it is
/// held in, is written as those hundredths.
pub proof fn hundredths_are_written_as_they_are(n: int)
    requires
        i32::MIN <= n <= i32::MAX,
    ensures
        rounded_text(number_of(n)) == two_decimals(n),
{
    let one = config::DW_ONE as int;
    let m = numbers::magnitude(n);
    let v = numbers::magnitude(number_of(n));
    assert(v == (2 * (m * one) + 100) / 200);
    // At most half a unit off: the hundredths are off by 50 of `DW_ONE`.
    assert(m * one - 50 <= 100 * v <= m * one + 50);
    if 100 * v >= m * one {
        vstd::arithmetic::div_mod::lemma_fundamental_div_mod_converse(v * 100, one, m, v * 100 - m * one);
    } else {
        vstd::arithmetic::div_mod::lemma_fundamental_div_mod_converse(v * 100, one, m - 1, v * 100 - (m - 1) * one);
    }
    assert(cents(v) == m);
}

/// The slider position of a number, given in units of `1 / DW_ONE`: its
/// hundredths, rounded.
pub open spec fn position_of(v: int) -> int {
    config::clamped(numbers::nearest(v * 100, config::DW_ONE as int), i32::MIN as int, i32::MAX as int)
}

pub fn hundredths(v: i64) -> (r: i32)
    ensures
        r == position_of(v as int),
{
    let n: i128 = numbers::to_nearest(v as i128 * 100, config::DW_ONE as i128);
    if n < i32::MIN as i128 {
        i32::MIN
    } else if n > i32::MAX as i128 {
        i32::MAX
    } else {
        n as i32
    }
}

/// The number that a slider position stands for, in units of `1 / DW_ONE`.
pub open spec fn number_of(n: int) -> int {
    numbers::nearest(n * config::DW_ONE, 100)
}

pub fn from_hundredths(n: i32) -> (r: i64)
    ensures
        r == number_of(n as int),
{
    let v: i128 = numbers::to_nearest(n as i128 * config::DW_ONE as i128, 100);
    proof {
        numbers::nearest_is_no_further(n * config::DW_ONE, 100);
    }
    v as i64
}

/// A slider shows the position that a number was read at.
pub proof fn slider_positions_read_back(n: int)
    requires
        i32::MIN <= n <= i32::MAX,
    ensures
        position_of(number_of(n)) == n,
{
}

/// What the controls show for a profile, whose real numbers in hundredths are
/// `gamma`, `contrast` and `weight`. A value that a list does not have selects
/// its first entry; one past a slider's end puts the slider at that end.
pub open spec fn shown(s: Settings, gamma: int, contrast: int, weight: int) -> Controls {
    Controls {
        hinting: hinting_entry(s.hinting) as usize,
        aa: aa_entry(s.aa) as usize,
        lcd_filter: filter_entry(s.lcd_filter) as usize,
        gamma_mode: gamma_mode_entry(s.gamma_mode) as usize,
        gamma: config::clamped(gamma, GAMMA_MIN as int, GAMMA_MAX as int) as i32,
        contrast: config::clamped(contrast, CONTRAST_MIN as int, CONTRAST_MAX as int) as i32,
        weight: config::clamped(weight, WEIGHT_MIN as int, WEIGHT_MAX as int) as i32,
        embolden: config::clamped(s.embolden, EMBOLDEN_MIN as int, EMBOLDEN_MAX as int) as i32,
    }
}

/// The settings that the controls stand for; what they do not stand for stays.
pub open spec fn read(s: Settings, c: Controls) -> Settings {
    Settings {
        hinting: hinting_value(c.hinting as int),
        aa: aa_value(c.aa as int),
        lcd_filter: filter_value(c.lcd_filter as int),
        gamma_mode: gamma_mode_value(c.gamma_mode as int),
        gamma: two_decimals(c.gamma as int),
        contrast: two_decimals(c.contrast as int),
        weight: two_decimals(c.weight as int),
        embolden: c.embolden as int,
        ..s
    }
}

fn clamp(v: i32, min: i32, max: i32) -> (r: i32)
    ensures
        r == config::clamped(v as int, min as int, max as int),
{
    if v < min {
        min
    } else if v > max {
        max
    } else {
        v
    }
}

/// What the controls show for `p`.
pub fn set_controls(p: &Profile, gamma: i32, contrast: i32, weight: i32) -> (r: Controls)
    ensures
        r == shown(p@, gamma as int, contrast as int, weight as int),
{
    let hinting: usize = match p.hinting {
        1 => 1,
        2 => 2,
        _ => 0,
    };
    let aa: usize = match p.aa {
        Aa::Grey => 0,
        Aa::LcdRgb => 1,
        Aa::LcdBgr => 2,
        Aa::LightLcdRgb => 3,
        Aa::LightLcdBgr => 4,
    };
    let lcd_filter: usize = match p.lcd_filter {
        1 => 1,
        2 => 2,
        3 => 3,
        _ => 0,
    };
    let gamma_mode: usize = match p.gamma_mode {
        1 => 1,
        2 => 2,
        -1 => 3,
        _ => 0,
    };
    Controls {
        hinting,
        aa,
        lcd_filter,
        gamma_mode,
        gamma: clamp(gamma, GAMMA_MIN, GAMMA_MAX),
        contrast: clamp(contrast, CONTRAST_MIN, CONTRAST_MAX),
        weight: clamp(weight, WEIGHT_MIN, WEIGHT_MAX),
        embolden: clamp(p.embolden, EMBOLDEN_MIN, EMBOLDEN_MAX),
    }
}

/// Take over what the controls stand for. An entry past a list's end counts
/// as its last one.
pub fn read_controls(p: &mut Profile, c: &Controls)
    ensures
        final(p)@ == read(old(p)@, *c),
{
    p.hinting = match c.hinting {
        0 => 0,
        1 => 1,
        _ => 2,
    };
    p.aa = match c.aa {
        0 => Aa::Grey,
        1 => Aa::LcdRgb,
        2 => Aa::LcdBgr,
        3 => Aa::LightLcdRgb,
        _ => Aa::LightLcdBgr,
    };
    p.lcd_filter = match c.lcd_filter {
        0 => 0,
        1 => 1,
        2 => 2,
        _ => 3,
    };
    p.gamma_mode = match c.gamma_mode {
        0 => 0,
        1 => 1,
        2 => 2,
        _ => -1,
    };
    p.gamma = hundredths_text(c.gamma);
    p.contrast = hundredths_text(c.contrast);
    p.weight = hundredths_text(c.weight);
    p.embolden = c.embolden;
}

/// Controls as the dialog can show them.
pub open spec fn showable(c: Controls) -> bool {
    &&& c.hinting <= 2
    &&& c.aa <= 4
    &&& c.lcd_filter <= 3
    &&& c.gamma_mode <= 3
    &&& GAMMA_MIN <= c.gamma <= GAMMA_MAX
    &&& CONTRAST_MIN <= c.contrast <= CONTRAST_MAX
    &&& WEIGHT_MIN <= c.weight <= WEIGHT_MAX
    &&& EMBOLDEN_MIN <= c.embolden <= EMBOLDEN_MAX
}

/// What is read from the controls shows as the same controls, and is written
/// to the file as it was read.
pub proof fn controls_read_back(s: Settings, c: Controls)
    requires
        showable(c),
    ensures
        shown(read(s, c), c.gamma as int, c.contrast as int, c.weight as int) == c,
        as_written(
            read(s, c),
            number_of(c.gamma as int),
            number_of(c.contrast as int),
            number_of(c.weight as int),
        ) == read(s, c),
{
    hundredths_are_written_as_they_are(c.gamma as int);
    hundredths_are_written_as_they_are(c.contrast as int);
    hundredths_are_written_as_they_are(c.weight as int);
}

// ---- the layout ----

/// The layout at 96 dpi.
pub const ROW_H: i32 = 30;

pub const LABEL_W: i32 = 150;

pub const CTL_X: i32 = 170;

pub const CTL_W: i32 = 250;

pub const VAL_X: i32 = 430;

pub const VAL_W: i32 = 60;

pub const MARGIN: i32 = 12;

pub const PREVIEW_W: i32 = 500;

pub const PREVIEW_H: i32 = 64;

pub const CLIENT_W: i32 = 524;

/// How many rows with a control of their own there are.
pub const ROWS: i32 = 8;

/// The tops of what stands below the rows, and the height of it all.
#[derive(Clone, Copy, Debug, PartialEq, Eq, Structural)]
pub struct Tops {
    pub font: i32,
    pub light: i32,
    pub dark: i32,
    pub buttons: i32,
    pub height: i32,
}

/// The top of row `i`.
pub fn row_top(i: i32) -> (r: i32)
    requires
        0 <= i < ROWS,
    ensures
        r == MARGIN + ROW_H * i,
{
    MARGIN + ROW_H * i
}

/// The rows, the font row 4 below them, the two previews 6 apart, the buttons
/// 10 below those, and a margin under the buttons.
pub fn tops() -> (r: Tops)
    ensures
        r.font == MARGIN + ROW_H * ROWS,
        r.light == r.font + ROW_H + 4,
        r.dark == r.light + PREVIEW_H + 6,
        r.buttons == r.dark + PREVIEW_H + 10,
        r.height == r.buttons + 30 + MARGIN,
{
    let font: i32 = MARGIN + ROW_H * ROWS;
    let light: i32 = font + ROW_H + 4;
    let dark: i32 = light + PREVIEW_H + 6;
    let buttons: i32 = dark + PREVIEW_H + 10;
    Tops { font, light, dark, buttons, height: buttons + 30 + MARGIN }
}

/// A length at 96 dpi, in pixels at `dpi`. One that would not fit stays as
/// long as it is.
pub open spec fn scaled(dpi: u32, v: int) -> int {
    let n = dpi * numbers::magnitude(v) / 96;
    if n > i32::MAX {
        numbers::magnitude(v)
    } else if v < 0 {
        -n
    } else {
        n
    }
}

/// A length at 96 dpi, in pixels at `dpi`.
pub fn px(dpi: u32, v: i32) -> (r: i32)
    requires
        v > i32::MIN || dpi < 96,
    ensures
        r == scaled(dpi, v as int),
{
    let size: u64 = if v < 0 {
        (-(v as i64)) as u64
    } else {
        v as u64
    };
    proof {
        assert(0 <= dpi * size <= 0xffff_ffff * 0x8000_0000) by (nonlinear_arith)
            requires
                0 <= size <= 0x8000_0000,
                0 <= dpi <= 0xffff_ffff,
        ;
        assert(dpi * size == dpi * numbers::magnitude(v as int));
        if v == i32::MIN {
            assert(dpi * size <= 95 * 0x8000_0000) by (nonlinear_arith)
                requires
                    size == 0x8000_0000,
                    0 <= dpi <= 95,
            ;
        }
    }
    let n: u64 = dpi as u64 * size / 96;
    if n > i32::MAX as u64 {
        size as i32
    } else if v < 0 {
        -(n as i32)
    } else {
        n as i32
    }
}

// ---- the preview ----

/// The em size of the preview's font: 12 where its metrics give none.
pub open spec fn preview_em(tm: Metrics) -> int {
    let e = tm.height - tm.internal_leading;
    if e > 0 {
        e
    } else {
        12
    }
}

pub fn em_px(tm: &Metrics) -> (r: i32)
    requires
        tm.height - tm.internal_leading <= i32::MAX,
    ensures
        r == preview_em(*tm),
{
    let e: i64 = tm.height as i64 - tm.internal_leading as i64;
    if e > 0 {
        e as i32
    } else {
        12
    }
}

/// A line of the preview: the size of its text, and where its baseline starts.
#[derive(Clone, Copy, Debug, PartialEq, Eq, Structural)]
pub struct Sample {
    pub px: i32,
    pub x: i32,
    pub baseline: i32,
}

pub open spec fn sample_px(em: int) -> int {
    if em < 6 {
        6
    } else {
        em
    }
}

pub open spec fn second_px(em: int) -> int {
    sample_px(em) * 3 / 2
}

pub open spec fn second_baseline(em: int, dpi: u32) -> int {
    scaled(dpi, 6) + sample_px(em) + scaled(dpi, 6) + second_px(em)
}

/// The sample at its size, and again half as large again where that fits (a
/// descender is about a quarter of the size).
pub fn samples(em: i32, dpi: u32, height: i32) -> (r: (Sample, Option<Sample>))
    requires
        sample_px(em as int) * 3 <= i32::MAX,
        second_baseline(em as int, dpi) + second_px(em as int) / 4 <= i32::MAX,
    ensures
        r.0.px == sample_px(em as int),
        r.0.x == scaled(dpi, 6),
        r.0.baseline == scaled(dpi, 6) + sample_px(em as int),
        match r.1 {
            Some(second) => {
                &&& second_baseline(em as int, dpi) + second_px(em as int) / 4 <= height
                &&& second.px == second_px(em as int)
                &&& second.x == scaled(dpi, 6)
                &&& second.baseline == second_baseline(em as int, dpi)
            },
            None => second_baseline(em as int, dpi) + second_px(em as int) / 4 > height,
        },
{
    let size: i32 = if em < 6 {
        6
    } else {
        em
    };
    let big: i32 = size * 3 / 2;
    let pad: i32 = px(dpi, 6);
    let first: Sample = Sample { px: size, x: pad, baseline: pad + size };
    let base: i32 = pad + size + pad + big;
    if base + big / 4 <= height {
        (first, Some(Sample { px: big, x: pad, baseline: base }))
    } else {
        (first, None)
    }
}

/// What the font row says: the face, and its size.
pub open spec fn font_line_text(face: Seq<char>, em: int) -> Seq<char> {
    face + "  "@ + text::signed_numeral(em) + "px"@
}

pub fn font_line(face: &str, em: i32) -> (r: String)
    ensures
        r@ == font_line_text(face@, em as int),
{
    let mut s: String = face.to_owned();
    s.append("  ");
    text::push_signed(&mut s, em as i64);
    s.append("px");
    s
}

// ---- commands ----

pub const ID_HINTING: usize = 1001;

pub const ID_AA: usize = 1002;

pub const ID_LCD_FILTER: usize = 1003;

pub const ID_GAMMA_MODE: usize = 1004;

pub const ID_GAMMA: usize = 1005;

pub const ID_CONTRAST: usize = 1006;

pub const ID_WEIGHT: usize = 1007;

pub const ID_EMBOLDEN: usize = 1008;

pub const ID_FONT: usize = 1101;

pub const ID_COPY: usize = 1102;

pub const ID_APPLY: usize = 1103;

pub const ID_CLOSE: usize = 1104;

/// What a `WM_COMMAND` asks of the dialog.
#[derive(Clone, Copy, Debug, PartialEq, Eq, Structural)]
pub enum Command {
    ReadControls,
    ChooseFont,
    CopyCurrent,
    Apply,
    Close,
    Nothing,
}

/// A list tells of a new selection (code 1), a button of a click (code 0).
pub open spec fn command_of(id: int, code: int) -> Command {
    if ID_HINTING <= id <= ID_GAMMA_MODE && code == 1 {
        Command::ReadControls
    } else if id == ID_FONT && code == 0 {
        Command::ChooseFont
    } else if id == ID_COPY && code == 0 {
        Command::CopyCurrent
    } else if id == ID_APPLY && code == 0 {
        Command::Apply
    } else if id == ID_CLOSE && code == 0 {
        Command::Close
    } else {
        Command::Nothing
    }
}

/// The command that `WM_COMMAND`'s first parameter holds: the control in the
/// low 16 bits, the code in the next 16.
pub fn command(wparam: usize) -> (r: Command)
    ensures
        r == command_of(wparam as int % 0x1_0000, wparam as int / 0x1_0000 % 0x1_0000),
{
    let id: usize = wparam % 0x1_0000;
    let code: usize = wparam / 0x1_0000 % 0x1_0000;
    if ID_HINTING <= id && id <= ID_GAMMA_MODE && code == 1 {
        Command::ReadControls
    } else if id == ID_FONT && code == 0 {
        Command::ChooseFont
    } else if id == ID_COPY && code == 0 {
        Command::CopyCurrent
    } else if id == ID_APPLY && code == 0 {
        Command::Apply
    } else if id == ID_CLOSE && code == 0 {
        Command::Close
    } else {
        Command::Nothing
    }
}

// ---- laws ----

/// The entries of the lists stand for these values: the modes 0, 2, 3, 4 and
/// 5, hinting 0 to 2, filter 0 to 3 and gamma mode 0, 1, 2 and -1; what is past
/// a list's end is its last one. A value that a list has selects its entry,
/// and any other selects the first one.
pub proof fn entries_stand_for_these_values(s: Settings, c: Controls, gamma: int, contrast: int, weight: int)
    ensures
        ({
            let r = read(s, c);
            &&& c.aa == 0 ==> r.aa.number() == 0
            &&& 1 <= c.aa <= 4 ==> r.aa.number() == c.aa + 1
            &&& c.aa > 4 ==> r.aa.number() == 5
            &&& c.hinting <= 2 ==> r.hinting == c.hinting
            &&& c.hinting > 2 ==> r.hinting == 2
            &&& c.lcd_filter <= 3 ==> r.lcd_filter == c.lcd_filter
            &&& c.lcd_filter > 3 ==> r.lcd_filter == 3
            &&& c.gamma_mode <= 2 ==> r.gamma_mode == c.gamma_mode
            &&& c.gamma_mode > 2 ==> r.gamma_mode == -1
            &&& r.embolden == c.embolden
            &&& (r.dw_gamma, r.dw_contrast, r.dw_cleartype_level) == (s.dw_gamma, s.dw_contrast, s.dw_cleartype_level)
            &&& r.dw_rendering_mode == s.dw_rendering_mode && r.clipbox_fix == s.clipbox_fix
        }),
        ({
            let v = shown(s, gamma, contrast, weight);
            &&& s.aa.number() == 0 ==> v.aa == 0
            &&& s.aa.number() != 0 ==> v.aa == s.aa.number() - 1
            &&& 0 <= s.hinting <= 2 ==> v.hinting == s.hinting
            &&& !(0 <= s.hinting <= 2) ==> v.hinting == 0
            &&& 0 <= s.lcd_filter <= 3 ==> v.lcd_filter == s.lcd_filter
            &&& !(0 <= s.lcd_filter <= 3) ==> v.lcd_filter == 0
            &&& 0 <= s.gamma_mode <= 2 ==> v.gamma_mode == s.gamma_mode
            &&& s.gamma_mode == -1 ==> v.gamma_mode == 3
            &&& !(-1 <= s.gamma_mode <= 2) ==> v.gamma_mode == 0
        }),
{
}

/// The sliders reach from 0.50 to 3.00 for the gamma, to 2.50 for the contrast
/// and the weight, and from -16 to 48 for the outline; a value in between is
/// where it is, and one past an end at that end.
pub proof fn sliders_reach_this_far(s: Settings, gamma: int, contrast: int, weight: int)
    ensures
        ({
            let v = shown(s, gamma, contrast, weight);
            &&& 50 <= gamma <= 300 ==> v.gamma == gamma
            &&& gamma < 50 ==> v.gamma == 50
            &&& gamma > 300 ==> v.gamma == 300
            &&& 50 <= contrast <= 250 ==> v.contrast == contrast
            &&& contrast < 50 ==> v.contrast == 50
            &&& contrast > 250 ==> v.contrast == 250
            &&& 50 <= weight <= 250 ==> v.weight == weight
            &&& weight < 50 ==> v.weight == 50
            &&& weight > 250 ==> v.weight == 250
            &&& -16 <= s.embolden <= 48 ==> v.embolden == s.embolden
            &&& s.embolden < -16 ==> v.embolden == -16
            &&& s.embolden > 48 ==> v.embolden == 48
        }),
{
}

/// Hundredths are written as the whole number, a dot and two digits, with a
/// sign before a number below 0: what is written adds up to them.
pub proof fn two_decimals_add_up(n: int)
    requires
        n >= 0,
    ensures
        ({
            let t = two_decimals(n);
            let whole = t.take(t.len() - 3);
            &&& t.len() > 3
            &&& t[t.len() - 3] == '.'
            &&& text::natural(whole) is Some
            &&& 100 * text::natural(whole)->0 + 10 * (t[t.len() - 2] as u32 - 48) + (t[t.len() - 1] as u32 - 48) == n
        }),
        n > 0 ==> two_decimals(-n) == seq!['-'] + two_decimals(n),
{
    let w = text::numeral(n / 100);
    let t = two_decimals(n);
    text::numerals_are_natural(n / 100);
    text::numeral_reads_back(n / 100);
    assert(t =~= w + seq!['.', text::digit_char(n % 100 / 10), text::digit_char(n % 10)]);
    assert(t.take(t.len() - 3) =~= w);
    assert(n % 10 == n % 100 % 10);
    assert(two_decimals(-n) =~= (if n > 0 {
        seq!['-'] + t
    } else {
        t
    }));
}

/// A number is rounded to the nearest hundredth, and to the even one of two as
/// near.
pub proof fn hundredths_are_the_nearest(m: int)
    requires
        m >= 0,
    ensures
        ({
            let one = 0x1_0000_0000int;
            let off = 2 * (one * cents(m) - 100 * m);
            &&& -one <= off <= one
            &&& off == one || off == -one ==> cents(m) % 2 == 0
        }),
        rounded_text(m) == two_decimals(cents(m)),
        m > 0 && cents(m) > 0 ==> rounded_text(-m) == seq!['-'] + two_decimals(cents(m)),
{
    let one = 0x1_0000_0000int;
    vstd::arithmetic::div_mod::lemma_fundamental_div_mod(m * 100, one);
    assert(cents(m) >= 0);
    if m > 0 && cents(m) > 0 {
        two_decimals_add_up(cents(m));
        assert(rounded_text(-m) == two_decimals(-cents(m)));
    }
}

/// A slider stands at the hundredth nearest to its number, and stands for the
/// number nearest to its hundredths.
pub proof fn sliders_stand_at_the_nearest(v: int, n: int)
    requires
        -0x100_0000_0000_0000 <= v <= 0x100_0000_0000_0000,
    ensures
        -0x1_0000_0000 <= 2 * (0x1_0000_0000 * position_of(v) - 100 * v) <= 0x1_0000_0000,
        -100 <= 2 * (100 * number_of(n) - 0x1_0000_0000 * n) <= 100,
{
    numbers::rounding_is_to_the_nearest(v * 100, 0x1_0000_0000);
    numbers::rounding_is_to_the_nearest(n * config::DW_ONE, 100);
}

/// Lengths are scaled by the screen's dots over 96, towards 0; one that would
/// not fit stays as it is.
pub proof fn lengths_follow_the_screen(dpi: u32, v: int)
    requires
        v >= 0,
    ensures
        ({
            let s = scaled(dpi, v);
            let fits = dpi * v < 96 * 0x8000_0000;
            &&& fits ==> 96 * s <= dpi * v < 96 * (s + 1) && scaled(dpi, -v) == -s
            &&& !fits ==> s == v
        }),
{
    let n = dpi * v;
    assert(n >= 0) by (nonlinear_arith)
        requires
            n == dpi * v,
            v >= 0,
            dpi >= 0,
    ;
    assert(numbers::magnitude(v) == v && numbers::magnitude(-v) == v);
    if v == 0 {
        assert(n == 0);
    }
    assert(96 * (n / 96) <= n < 96 * (n / 96) + 96);
}

/// The sample has the font's size, but at least six pixels, and stands on a
/// line that far below a padding of six; the second is half as large again and
/// stands that far below another such padding.
pub proof fn samples_stand_below_each_other(em: int, dpi: u32)
    ensures
        em >= 6 ==> sample_px(em) == em,
        em < 6 ==> sample_px(em) == 6,
        2 * second_px(em) <= 3 * sample_px(em) <= 2 * second_px(em) + 1,
        second_baseline(em, dpi) == 2 * scaled(dpi, 6) + sample_px(em) + second_px(em),
{
}

/// The em size is the font's height without its internal leading, or 12.
pub proof fn the_em_size_leaves_out_the_leading(tm: Metrics)
    ensures
        tm.height > tm.internal_leading ==> preview_em(tm) + tm.internal_leading == tm.height,
        tm.height <= tm.internal_leading ==> preview_em(tm) == 12,
{
}

/// The controls 1001 to 1004 tell of a new selection with code 1; the buttons
/// 1101 to 1104 tell of a click with code 0. Nothing else is a command.
pub proof fn controls_tell_of_these_commands(id: int, code: int)
    ensures
        ({
            let c = command_of(id, code);
            &&& c == Command::ReadControls <==> 1001 <= id <= 1004 && code == 1
            &&& c == Command::ChooseFont <==> id == 1101 && code == 0
            &&& c == Command::CopyCurrent <==> id == 1102 && code == 0
            &&& c == Command::Apply <==> id == 1103 && code == 0
            &&& c == Command::Close <==> id == 1104 && code == 0
        }),
{
}

/// The rows start 12 pixels from the top and are 30 high; there are eight.
pub proof fn the_rows_of_the_dialog(i: int)
    ensures
        MARGIN + ROW_H * i == 12 + 30 * i,
        ROWS == 8 && PREVIEW_H == 64 && PREVIEW_W == 500 && CLIENT_W == 524,
        LABEL_W == 150 && CTL_X == 170 && CTL_W == 250 && VAL_X == 430 && VAL_W == 60,
{
}

} // verus!
