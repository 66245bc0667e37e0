//! Rendering profiles, and reading one from the text of an ini file.
//!
//! A setting that is a real number is kept as the numeral that the file
//! writes (`real_number`): whoever does the floating-point work turns it into
//! a machine number.

use vstd::prelude::*;
use vstd::slice::slice_subrange;

use crate::numbers;
use crate::text;

verus! {

/// Anti-alias mode (`AntiAliasMode`): greyscale or LCD subpixel with an order.
#[derive(Clone, Copy, PartialEq, Eq, Structural, Debug)]
pub enum Aa {
    /// Greyscale (AntiAliasMode 0).
    Grey,
    /// LCD subpixel, RGB order (AntiAliasMode 2).
    LcdRgb,
    /// LCD subpixel, BGR order (AntiAliasMode 3).
    LcdBgr,
    /// LightLCD (light-hinted, LCD rendered), RGB order (AntiAliasMode 4).
    LightLcdRgb,
    /// LightLCD, BGR order (AntiAliasMode 5).
    LightLcdBgr,
}

impl Aa {
    pub open spec fn number(self) -> i32 {
        match self {
            Aa::Grey => 0,
            Aa::LcdRgb => 2,
            Aa::LcdBgr => 3,
            Aa::LightLcdRgb => 4,
            Aa::LightLcdBgr => 5,
        }
    }

    /// The `AntiAliasMode` integer.
    pub fn mode(self) -> (r: i32)
        ensures
            r == self.number(),
    {
        match self {
            Aa::Grey => 0,
            Aa::LcdRgb => 2,
            Aa::LcdBgr => 3,
            Aa::LightLcdRgb => 4,
            Aa::LightLcdBgr => 5,
        }
    }

    pub open spec fn lcd(self) -> bool {
        self != Aa::Grey
    }

    pub fn is_lcd(self) -> (r: bool)
        ensures
            r == self.lcd(),
    {
        !matches!(self, Aa::Grey)
    }

    pub open spec fn light(self) -> bool {
        self == Aa::LightLcdRgb || self == Aa::LightLcdBgr
    }

    /// LightLCD: hinted with the light autohinter, rendered LCD.
    pub fn is_light(self) -> (r: bool)
        ensures
            r == self.light(),
    {
        matches!(self, Aa::LightLcdRgb | Aa::LightLcdBgr)
    }

    /// The mode whose number is `n`.
    pub open spec fn numbered(n: int) -> Option<Aa> {
        if n == 0 {
            Some(Aa::Grey)
        } else if n == 2 {
            Some(Aa::LcdRgb)
        } else if n == 3 {
            Some(Aa::LcdBgr)
        } else if n == 4 {
            Some(Aa::LightLcdRgb)
        } else if n == 5 {
            Some(Aa::LightLcdBgr)
        } else {
            None
        }
    }

    /// The mode whose `AntiAliasMode` integer is `n`.
    pub fn from_mode(n: i32) -> (r: Option<Aa>)
        ensures
            r == Aa::numbered(n as int),
    {
        match n {
            0 => Some(Aa::Grey),
            2 => Some(Aa::LcdRgb),
            3 => Some(Aa::LcdBgr),
            4 => Some(Aa::LightLcdRgb),
            5 => Some(Aa::LightLcdBgr),
            _ => None,
        }
    }
}

/// A mode's number names that mode, and no other number does.
pub proof fn mode_number_names_the_mode(aa: Aa, n: int)
    ensures
        Aa::numbered(n) == Some(aa) <==> n == aa.number(),
{
}

/// The `[DirectWrite]` section: what DirectWrite and Direct2D are told for
/// text that they draw themselves. `None` leaves a value to be derived from
/// the general settings.
#[derive(Debug)]
pub struct DwParams {
    /// `GammaValue`.
    pub gamma: Option<String>,
    /// `Contrast` (enhanced contrast, also used as the greyscale contrast).
    pub contrast: Option<String>,
    /// `ClearTypeLevel`.
    pub cleartype_level: Option<String>,
    /// `RenderingMode` 0..6.
    pub rendering_mode: i32,
}

/// One, in the numbers that DirectWrite and Direct2D are told: those are fixed
/// point, whole numbers of `1 / DW_ONE`.
pub const DW_ONE: i64 = 0x1_0000_0000;

/// What DirectWrite and Direct2D are told of a profile.
#[derive(Clone, Copy, Debug, PartialEq, Eq, Structural)]
pub struct DwValues {
    pub gamma: i64,
    pub contrast: i64,
    pub cleartype_level: i64,
}

/// The gamma for DirectWrite that follows from the general one: half its
/// square, or 0.7 where the square is not above 1.3.
pub open spec fn derived_gamma(general: int) -> int {
    if 10 * (general * general) > 13 * (DW_ONE * DW_ONE) {
        let g = numbers::nearest(general * general, 2 * DW_ONE);
        if g > i64::MAX {
            i64::MAX as int
        } else {
            g
        }
    } else {
        7 * DW_ONE / 10
    }
}

impl DwParams {
    /// The values of a profile without a `[DirectWrite]` section.
    pub fn derived_from(general_gamma: i64) -> (r: DwValues)
        ensures
            r.gamma == derived_gamma(general_gamma as int),
            r.contrast == DW_ONE,
            r.cleartype_level == DW_ONE,
    {
        proof {
            let g = general_gamma as int;
            assert(0 <= g * g <= 0x4000_0000_0000_0000_0000_0000_0000_0000) by (nonlinear_arith)
                requires
                    -0x8000_0000_0000_0000 <= g <= 0x8000_0000_0000_0000,
            ;
            assert(DW_ONE * DW_ONE == 0x1_0000_0000_0000_0000) by (nonlinear_arith)
                requires
                    DW_ONE == 0x1_0000_0000,
            ;
        }
        let square: u128 = (general_gamma as i128 * general_gamma as i128) as u128;
        let gamma: i64 = if square > 13u128 * 0x1_0000_0000_0000_0000 / 10 {
            let g: u128 = (square + 0x1_0000_0000) / 0x2_0000_0000;
            if g > i64::MAX as u128 {
                i64::MAX
            } else {
                g as i64
            }
        } else {
            7 * DW_ONE / 10
        };
        DwValues { gamma, contrast: DW_ONE, cleartype_level: DW_ONE }
    }
}

/// What DirectWrite is told: the section's own values, kept within what
/// DirectWrite takes. A gamma of 0 or less asks for the derived one.
pub open spec fn dw_told(general: int, gamma: Option<i64>, contrast: Option<i64>, level: Option<i64>) -> DwValues {
    DwValues {
        gamma: clamped(
            match gamma {
                Some(g) if g > 0 => g as int,
                _ => derived_gamma(general),
            },
            DW_ONE / 16,
            20 * DW_ONE,
        ) as i64,
        contrast: clamped(
            match contrast {
                Some(c) => c as int,
                None => DW_ONE as int,
            },
            DW_ONE / 16,
            10 * DW_ONE,
        ) as i64,
        cleartype_level: clamped(
            match level {
                Some(l) => l as int,
                None => DW_ONE as int,
            },
            0,
            DW_ONE as int,
        ) as i64,
    }
}

fn clamp_i64(n: i64, lo: i64, hi: i64) -> (r: i64)
    ensures
        r == clamped(n as int, lo as int, hi as int),
{
    if n < lo {
        lo
    } else if n > hi {
        hi
    } else {
        n
    }
}

/// What DirectWrite is told, from the general gamma and the section's values.
pub fn dw_values(general_gamma: i64, gamma: Option<i64>, contrast: Option<i64>, cleartype_level: Option<i64>) -> (r:
    DwValues)
    ensures
        r == dw_told(general_gamma as int, gamma, contrast, cleartype_level),
{
    let derived: DwValues = DwParams::derived_from(general_gamma);
    let own: i64 = match gamma {
        Some(g) => if g > 0 {
            g
        } else {
            derived.gamma
        },
        None => derived.gamma,
    };
    let contrast: i64 = match contrast {
        Some(c) => c,
        None => derived.contrast,
    };
    let level: i64 = match cleartype_level {
        Some(l) => l,
        None => derived.cleartype_level,
    };
    DwValues {
        gamma: clamp_i64(own, DW_ONE / 16, 20 * DW_ONE),
        contrast: clamp_i64(contrast, DW_ONE / 16, 10 * DW_ONE),
        cleartype_level: clamp_i64(level, 0, DW_ONE),
    }
}

/// DirectWrite is never told a gamma that it refuses: it is positive, and
/// neither it nor the contrast is larger than DirectWrite takes.
pub proof fn directwrite_is_told_what_it_takes(
    general: int,
    gamma: Option<i64>,
    contrast: Option<i64>,
    level: Option<i64>,
)
    ensures
        ({
            let v = dw_told(general, gamma, contrast, level);
            &&& 0 < v.gamma <= 20 * DW_ONE
            &&& 0 < v.contrast <= 10 * DW_ONE
            &&& 0 <= v.cleartype_level <= DW_ONE
        }),
{
}

/// A rendering profile.
#[derive(Debug)]
pub struct Profile {
    /// `GammaValue`.
    pub gamma: String,
    /// `RenderWeight` (coverage curve).
    pub weight: String,
    /// `Contrast`.
    pub contrast: String,
    /// `GammaMode`: below 0 linear, 1 sRGB, 2 average, else plain gamma.
    pub gamma_mode: i32,
    pub aa: Aa,
    /// `HintingMode`: 0 native/bytecode, 1 none, 2 autohint.
    pub hinting: i32,
    /// FreeType LCD filter: 0 none, 1 default, 2 light.
    pub lcd_filter: i32,
    /// Outline embolden strength in 26.6 units (`NormalWeight`; 0 is none).
    pub embolden: i32,
    /// `[DirectWrite]` values for the text DirectWrite and Direct2D draw.
    pub dw: DwParams,
    /// `[Experimental] ClipBoxFix`: pad the glyph metrics that
    /// `GetGlyphOutline` reports, so that programs which clip to them do not
    /// cut off the heavier glyphs.
    pub clipbox_fix: bool,
}

/// What a profile holds, over mathematical text.
pub struct Settings {
    pub gamma: Seq<char>,
    pub weight: Seq<char>,
    pub contrast: Seq<char>,
    pub gamma_mode: int,
    pub aa: Aa,
    pub hinting: int,
    pub lcd_filter: int,
    pub embolden: int,
    pub dw_gamma: Option<Seq<char>>,
    pub dw_contrast: Option<Seq<char>>,
    pub dw_cleartype_level: Option<Seq<char>>,
    pub dw_rendering_mode: int,
    pub clipbox_fix: bool,
}

pub open spec fn text_of(s: Option<String>) -> Option<Seq<char>> {
    match s {
        Some(t) => Some(t@),
        None => None,
    }
}

impl View for Profile {
    type V = Settings;

    open spec fn view(&self) -> Settings {
        Settings {
            gamma: self.gamma@,
            weight: self.weight@,
            contrast: self.contrast@,
            gamma_mode: self.gamma_mode as int,
            aa: self.aa,
            hinting: self.hinting as int,
            lcd_filter: self.lcd_filter as int,
            embolden: self.embolden as int,
            dw_gamma: text_of(self.dw.gamma),
            dw_contrast: text_of(self.dw.contrast),
            dw_cleartype_level: text_of(self.dw.cleartype_level),
            dw_rendering_mode: self.dw.rendering_mode as int,
            clipbox_fix: self.clipbox_fix,
        }
    }
}

/// A preset: the knobs that differ between presets, the rest at its default.
pub open spec fn preset(
    gamma: Seq<char>,
    weight: Seq<char>,
    contrast: Seq<char>,
    aa: Aa,
    hinting: int,
    lcd_filter: int,
) -> Settings {
    Settings {
        gamma,
        weight,
        contrast,
        gamma_mode: 0,
        aa,
        hinting,
        lcd_filter,
        embolden: 0,
        dw_gamma: None,
        dw_contrast: None,
        dw_cleartype_level: None,
        dw_rendering_mode: 5,
        clipbox_fix: true,
    }
}

fn make_preset(gamma: &str, weight: &str, contrast: &str, aa: Aa, hinting: i32, lcd_filter: i32) -> (r: Profile)
    ensures
        r@ == preset(gamma@, weight@, contrast@, aa, hinting as int, lcd_filter as int),
{
    Profile {
        gamma: gamma.to_owned(),
        weight: weight.to_owned(),
        contrast: contrast.to_owned(),
        gamma_mode: 0,
        aa,
        hinting,
        lcd_filter,
        embolden: 0,
        dw: DwParams { gamma: None, contrast: None, cleartype_level: None, rendering_mode: 5 },
        clipbox_fix: true,
    }
}

// ---- the ini file ----

/// Which section of an ini file a line belongs to.
#[derive(Clone, Copy, PartialEq, Eq, Structural, Debug)]
pub enum Section {
    General,
    DirectWrite,
    Experimental,
    Other,
}

/// What a value has to be to be taken.
#[derive(Clone, Copy, PartialEq, Eq, Structural, Debug)]
pub enum ValueKind {
    /// Anything: the first entry with the key decides.
    Any,
    /// A 32-bit integer: entries with another value are passed over.
    Integer,
    /// A real number: entries with another value are passed over.
    Real,
}

/// A trimmed line that is a comment.
pub open spec fn comment(l: Seq<char>) -> bool {
    l.len() > 0 && l[0] == ';'
}

/// A trimmed line that opens a section.
pub open spec fn header(l: Seq<char>) -> bool {
    l.len() > 0 && l[0] == '['
}

/// A trimmed line that gives a key a value.
pub open spec fn entry(l: Seq<char>) -> bool {
    !comment(l) && !header(l) && text::find(l, '=') < l.len()
}

pub open spec fn entry_key(l: Seq<char>) -> Seq<char> {
    text::trim(l.take(text::find(l, '=')))
}

pub open spec fn entry_value(l: Seq<char>) -> Seq<char> {
    text::trim(l.skip(text::find(l, '=') + 1))
}

/// The section that a header line names. A section for one program
/// (`[Experimental@idea64.exe]`) is another section.
pub open spec fn named_section(l: Seq<char>) -> Section {
    let name = text::trim(text::strip_start(text::strip_end(l, ']'), '['));
    if text::same_letters(name, "DirectWrite"@) {
        Section::DirectWrite
    } else if text::same_letters(name, "Experimental"@) {
        Section::Experimental
    } else if text::same_letters(name, "General"@) || text::same_letters(name, "FreeType"@) {
        Section::General
    } else {
        Section::Other
    }
}

/// The section in force at line `n`: that of the last header before it, and
/// `[General]` before any header.
pub open spec fn section_at(ls: Seq<Seq<char>>, n: int) -> Section
    decreases n,
{
    if n <= 0 {
        Section::General
    } else if header(text::trim(ls[n - 1])) {
        named_section(text::trim(ls[n - 1]))
    } else {
        section_at(ls, n - 1)
    }
}

/// The key is the one asked for.
pub open spec fn key_matches(name: Seq<char>, any_case: bool, key: Seq<char>) -> bool {
    if any_case {
        text::same_letters(key, name)
    } else {
        key == name
    }
}

/// The value is of the kind asked for.
pub open spec fn value_fits(kind: ValueKind, value: Seq<char>) -> bool {
    match kind {
        ValueKind::Any => true,
        ValueKind::Integer => text::small_integer(value) is Some,
        ValueKind::Real => text::real_number(value),
    }
}

/// Line `i` is an entry of section `sec` that is asked for.
pub open spec fn wanted(
    ls: Seq<Seq<char>>,
    i: int,
    sec: Section,
    name: Seq<char>,
    any_case: bool,
    kind: ValueKind,
) -> bool {
    let l = text::trim(ls[i]);
    &&& section_at(ls, i) == sec
    &&& entry(l)
    &&& key_matches(name, any_case, entry_key(l))
    &&& value_fits(kind, entry_value(l))
}

/// The value of the first entry, among the first `n` lines, that is asked for.
pub open spec fn lookup(
    ls: Seq<Seq<char>>,
    n: int,
    sec: Section,
    name: Seq<char>,
    any_case: bool,
    kind: ValueKind,
) -> Option<Seq<char>>
    decreases n,
{
    if n <= 0 {
        None
    } else {
        match lookup(ls, n - 1, sec, name, any_case, kind) {
            Some(v) => Some(v),
            None => if wanted(ls, n - 1, sec, name, any_case, kind) {
                Some(entry_value(text::trim(ls[n - 1])))
            } else {
                None
            },
        }
    }
}

/// The value an ini text gives `name` in `[General]`.
pub open spec fn general(text: Seq<char>, name: Seq<char>) -> Option<Seq<char>> {
    lookup(text::lines(text), text::lines(text).len() as int, Section::General, name, false, ValueKind::Any)
}

/// The value an ini text gives `name` in another section.
pub open spec fn special(text: Seq<char>, sec: Section, name: Seq<char>, any_case: bool, kind: ValueKind) -> Option<
    Seq<char>,
> {
    lookup(text::lines(text), text::lines(text).len() as int, sec, name, any_case, kind)
}

pub open spec fn integer_or(v: Option<Seq<char>>, default: int) -> int {
    match v {
        Some(t) => match text::small_integer(t) {
            Some(n) => n as int,
            None => default,
        },
        None => default,
    }
}

pub open spec fn real_or(v: Option<Seq<char>>, default: Seq<char>) -> Seq<char> {
    match v {
        Some(t) => if text::real_number(t) {
            t
        } else {
            default
        },
        None => default,
    }
}

pub open spec fn clamped(n: int, lo: int, hi: int) -> int {
    if n < lo {
        lo
    } else if n > hi {
        hi
    } else {
        n
    }
}

/// The settings an ini text holds.
pub open spec fn settings(text: Seq<char>) -> Settings {
    Settings {
        gamma: real_or(general(text, "GammaValue"@), "1.25"@),
        weight: real_or(general(text, "RenderWeight"@), "1.0"@),
        contrast: real_or(general(text, "Contrast"@), "1.0"@),
        gamma_mode: integer_or(general(text, "GammaMode"@), 0),
        aa: match Aa::numbered(integer_or(general(text, "AntiAliasMode"@), 0)) {
            Some(a) => a,
            None => Aa::Grey,
        },
        hinting: integer_or(general(text, "HintingMode"@), 0),
        lcd_filter: integer_or(general(text, "LcdFilter"@), 0),
        embolden: integer_or(general(text, "NormalWeight"@), 0),
        dw_gamma: special(text, Section::DirectWrite, "GammaValue"@, false, ValueKind::Real),
        dw_contrast: special(text, Section::DirectWrite, "Contrast"@, false, ValueKind::Real),
        dw_cleartype_level: special(text, Section::DirectWrite, "ClearTypeLevel"@, false, ValueKind::Real),
        dw_rendering_mode: clamped(
            integer_or(special(text, Section::DirectWrite, "RenderingMode"@, true, ValueKind::Integer), 5),
            0,
            6,
        ),
        clipbox_fix: integer_or(special(text, Section::Experimental, "ClipBoxFix"@, true, ValueKind::Integer), 1)
            != 0,
    }
}

/// One line of an ini file, cut up.
struct Line {
    section: Section,
    is_entry: bool,
    key: (usize, usize),
    value: (usize, usize),
}

spec fn cut(s: Seq<char>, r: (usize, usize)) -> Seq<char> {
    s.subrange(r.0 as int, r.1 as int)
}

spec fn in_range(s: Seq<char>, r: (usize, usize)) -> bool {
    r.0 <= r.1 <= s.len()
}

/// `line` is line `i` of `s`, cut up.
spec fn cut_up(s: Seq<char>, ls: Seq<Seq<char>>, i: int, line: Line) -> bool {
    let l = text::trim(ls[i]);
    &&& line.section == section_at(ls, i)
    &&& line.is_entry == entry(l)
    &&& in_range(s, line.key)
    &&& in_range(s, line.value)
    &&& entry(l) ==> cut(s, line.key) == entry_key(l) && cut(s, line.value) == entry_value(l)
}

fn section_named(l: &[char]) -> (r: Section)
    ensures
        r == named_section(l@),
{
    let name: &[char] = text::trimmed(text::stripped_start(text::stripped_end(l, ']'), '['));
    let dw: Vec<char> = text::chars_of("DirectWrite");
    let exp: Vec<char> = text::chars_of("Experimental");
    let gen: Vec<char> = text::chars_of("General");
    let ft: Vec<char> = text::chars_of("FreeType");
    if text::eq_ignore_case(name, dw.as_slice()) {
        Section::DirectWrite
    } else if text::eq_ignore_case(name, exp.as_slice()) {
        Section::Experimental
    } else if text::eq_ignore_case(name, gen.as_slice()) || text::eq_ignore_case(name, ft.as_slice()) {
        Section::General
    } else {
        Section::Other
    }
}

/// The range inside `s` of its part `from..to` without the white space around.
fn trim_within(s: &[char], from: usize, to: usize) -> (r: (usize, usize))
    requires
        from <= to <= s@.len(),
    ensures
        in_range(s@, r),
        from <= r.0,
        r.1 <= to,
        cut(s@, r) == text::trim(s@.subrange(from as int, to as int)),
{
    let part: &[char] = slice_subrange(s, from, to);
    let (a, b): (usize, usize) = text::trim_range(part);
    proof {
        assert(s@.subrange(from + a, from + b) =~= part@.subrange(a as int, b as int));
    }
    (from + a, from + b)
}

fn cut_lines(s: &[char]) -> (r: Vec<Line>)
    ensures
        r@.len() == text::lines(s@).len(),
        forall|i: int| 0 <= i < r@.len() ==> cut_up(s@, text::lines(s@), i, #[trigger] r@[i]),
{
    let ranges: Vec<(usize, usize)> = text::line_ranges(s);
    let ghost ls = text::lines(s@);
    let mut out: Vec<Line> = Vec::new();
    let mut section: Section = Section::General;
    let mut i: usize = 0;
    while i < ranges.len()
        invariant
            i <= ranges@.len(),
            ls == text::lines(s@),
            text::pieces(s@, ranges@) == ls,
            forall|j: int| 0 <= j < ranges@.len() ==> (#[trigger] ranges@[j]).0 <= ranges@[j].1 <= s@.len(),
            section == section_at(ls, i as int),
            out@.len() == i,
            forall|j: int| 0 <= j < i ==> cut_up(s@, ls, j, #[trigger] out@[j]),
        decreases ranges@.len() - i,
    {
        let (from, to): (usize, usize) = ranges[i];
        let (a, b): (usize, usize) = trim_within(s, from, to);
        let l: &[char] = slice_subrange(s, a, b);
        proof {
            assert(text::pieces(s@, ranges@)[i as int] == ls[i as int]);
            assert(l@ == text::trim(ls[i as int]));
        }
        let is_comment: bool = l.len() > 0 && l[0] == ';';
        let is_header: bool = l.len() > 0 && l[0] == '[';
        let eq: usize = text::find_char(l, '=');
        let is_entry: bool = !is_comment && !is_header && eq < l.len();
        if is_entry {
            let key: (usize, usize) = trim_within(s, a, a + eq);
            let value: (usize, usize) = trim_within(s, a + eq + 1, b);
            proof {
                assert(s@.subrange(a as int, a + eq) =~= l@.take(eq as int));
                assert(s@.subrange(a + eq + 1, b as int) =~= l@.skip(eq + 1));
            }
            out.push(Line { section, is_entry, key, value });
        } else {
            out.push(Line { section, is_entry, key: (0, 0), value: (0, 0) });
        }
        if is_header {
            section = section_named(l);
        }
        i = i + 1;
    }
    out
}

fn look_up(
    s: &[char],
    cut: &Vec<Line>,
    sec: Section,
    name: &str,
    any_case: bool,
    kind: ValueKind,
) -> (r: Option<(usize, usize)>)
    requires
        cut@.len() == text::lines(s@).len(),
        forall|i: int| 0 <= i < cut@.len() ==> cut_up(s@, text::lines(s@), i, #[trigger] cut@[i]),
    ensures
        match r {
            Some(v) => in_range(s@, v) && special(s@, sec, name@, any_case, kind) == Some(self::cut(s@, v)),
            None => special(s@, sec, name@, any_case, kind) is None,
        },
{
    let want: Vec<char> = text::chars_of(name);
    let ghost ls = text::lines(s@);
    let mut i: usize = 0;
    let mut found: Option<(usize, usize)> = None;
    while i < cut.len()
        invariant
            i <= cut@.len(),
            ls == text::lines(s@),
            want@ == name@,
            cut@.len() == ls.len(),
            forall|j: int| 0 <= j < cut@.len() ==> cut_up(s@, ls, j, #[trigger] cut@[j]),
            match found {
                Some(v) => in_range(s@, v) && lookup(ls, i as int, sec, name@, any_case, kind) == Some(
                    self::cut(s@, v),
                ),
                None => lookup(ls, i as int, sec, name@, any_case, kind) is None,
            },
        decreases cut@.len() - i,
    {
        let line: &Line = &cut[i];
        proof {
            assert(cut_up(s@, ls, i as int, cut@[i as int]));
        }
        if found.is_none() && line.is_entry && line.section == sec {
            let key: &[char] = slice_subrange(s, line.key.0, line.key.1);
            let value: &[char] = slice_subrange(s, line.value.0, line.value.1);
            let named: bool = if any_case {
                text::eq_ignore_case(key, want.as_slice())
            } else {
                text::eq_chars(key, want.as_slice())
            };
            let fits: bool = match kind {
                ValueKind::Any => true,
                ValueKind::Integer => text::parse_i32(value).is_some(),
                ValueKind::Real => text::is_real(value),
            };
            if named && fits {
                found = Some(line.value);
            }
        }
        i = i + 1;
    }
    found
}

fn integer_setting(s: &[char], v: Option<(usize, usize)>, default: i32) -> (r: i32)
    requires
        v is Some ==> in_range(s@, v->0),
    ensures
        r == integer_or(
            match v {
                Some(x) => Some(cut(s@, x)),
                None => None,
            },
            default as int,
        ),
{
    match v {
        Some((a, b)) => match text::parse_i32(slice_subrange(s, a, b)) {
            Some(n) => n,
            None => default,
        },
        None => default,
    }
}

fn real_setting(s: &[char], v: Option<(usize, usize)>, default: &str) -> (r: String)
    requires
        v is Some ==> in_range(s@, v->0),
    ensures
        r@ == real_or(
            match v {
                Some(x) => Some(cut(s@, x)),
                None => None,
            },
            default@,
        ),
{
    match v {
        Some((a, b)) => {
            let t: &[char] = slice_subrange(s, a, b);
            if text::is_real(t) {
                text::string_of(t)
            } else {
                default.to_owned()
            }
        },
        None => default.to_owned(),
    }
}

fn text_setting(s: &[char], v: Option<(usize, usize)>) -> (r: Option<String>)
    requires
        v is Some ==> in_range(s@, v->0),
    ensures
        text_of(r) == (match v {
            Some(x) => Some(cut(s@, x)),
            None => None,
        }),
{
    match v {
        Some((a, b)) => Some(text::string_of(slice_subrange(s, a, b))),
        None => None,
    }
}

impl Profile {
    /// Clean Greyscale (the default): greyscale, gamma 1.25.
    pub fn clean_greyscale() -> (r: Profile)
        ensures
            r@ == preset("1.25"@, "1.0"@, "1.0"@, Aa::Grey, 0, 0),
    {
        make_preset("1.25", "1.0", "1.0", Aa::Grey, 0, 0)
    }

    /// Clean Sharp: LCD subpixel, no hinting, gamma 1.2, no LCD filter.
    pub fn clean_sharp() -> (r: Profile)
        ensures
            r@ == preset("1.20"@, "1.0"@, "1.0"@, Aa::LcdRgb, 1, 0),
    {
        make_preset("1.20", "1.0", "1.0", Aa::LcdRgb, 1, 0)
    }

    /// Accurate: LightLCD, autohint, gamma 1.3, light filter.
    pub fn accurate() -> (r: Profile)
        ensures
            r@ == preset("1.30"@, "1.0"@, "1.0"@, Aa::LightLcdRgb, 2, 2),
    {
        make_preset("1.30", "1.0", "1.0", Aa::LightLcdRgb, 2, 2)
    }

    /// Clean Dark Greyscale: greyscale tuned for dark backgrounds.
    pub fn clean_dark_greyscale() -> (r: Profile)
        ensures
            r@ == preset("1.10"@, "1.05"@, "0.9"@, Aa::Grey, 0, 0),
    {
        make_preset("1.10", "1.05", "0.9", Aa::Grey, 0, 0)
    }

    /// Clean Sharp Dark: LCD subpixel tuned for dark backgrounds.
    pub fn clean_sharp_dark() -> (r: Profile)
        ensures
            r@ == preset("1.10"@, "1.05"@, "0.9"@, Aa::LcdRgb, 0, 0),
    {
        make_preset("1.10", "1.05", "0.9", Aa::LcdRgb, 0, 0)
    }

    /// The profile that the text of an ini file describes. In `[General]`
    /// (and `[FreeType]`) the first entry of a key decides, and a value that
    /// cannot be read leaves the default. In `[DirectWrite]` and
    /// `[Experimental]` the first value that can be read decides.
    pub fn from_ini_str(text: &str) -> (r: Profile)
        ensures
            r@ == settings(text@),
    {
        let chars: Vec<char> = text::chars_of(text);
        let s: &[char] = chars.as_slice();
        let cut: Vec<Line> = cut_lines(s);
        let gen: Section = Section::General;
        let any: ValueKind = ValueKind::Any;
        let hinting: i32 = integer_setting(s, look_up(s, &cut, gen, "HintingMode", false, any), 0);
        let aa_mode: i32 = integer_setting(s, look_up(s, &cut, gen, "AntiAliasMode", false, any), 0);
        let aa: Aa = match Aa::from_mode(aa_mode) {
            Some(a) => a,
            None => Aa::Grey,
        };
        let gamma: String = real_setting(s, look_up(s, &cut, gen, "GammaValue", false, any), "1.25");
        let gamma_mode: i32 = integer_setting(s, look_up(s, &cut, gen, "GammaMode", false, any), 0);
        let contrast: String = real_setting(s, look_up(s, &cut, gen, "Contrast", false, any), "1.0");
        let weight: String = real_setting(s, look_up(s, &cut, gen, "RenderWeight", false, any), "1.0");
        let lcd_filter: i32 = integer_setting(s, look_up(s, &cut, gen, "LcdFilter", false, any), 0);
        let embolden: i32 = integer_setting(s, look_up(s, &cut, gen, "NormalWeight", false, any), 0);
        let dw: Section = Section::DirectWrite;
        let real_kind: ValueKind = ValueKind::Real;
        let int_kind: ValueKind = ValueKind::Integer;
        let dw_gamma: Option<String> = text_setting(s, look_up(s, &cut, dw, "GammaValue", false, real_kind));
        let dw_contrast: Option<String> = text_setting(s, look_up(s, &cut, dw, "Contrast", false, real_kind));
        let dw_level: Option<String> = text_setting(s, look_up(s, &cut, dw, "ClearTypeLevel", false, real_kind));
        let mode: i32 = integer_setting(s, look_up(s, &cut, dw, "RenderingMode", true, int_kind), 5);
        let rendering_mode: i32 = if mode < 0 {
            0
        } else if mode > 6 {
            6
        } else {
            mode
        };
        let fix: i32 = integer_setting(
            s,
            look_up(s, &cut, Section::Experimental, "ClipBoxFix", true, int_kind),
            1,
        );
        Profile {
            gamma,
            weight,
            contrast,
            gamma_mode,
            aa,
            hinting,
            lcd_filter,
            embolden,
            dw: DwParams { gamma: dw_gamma, contrast: dw_contrast, cleartype_level: dw_level, rendering_mode },
            clipbox_fix: fix != 0,
        }
    }
}

// ---- laws ----

/// The first entry that is asked for decides; what follows it does not count.
pub proof fn the_first_entry_decides(
    ls: Seq<Seq<char>>,
    n: int,
    first: int,
    sec: Section,
    name: Seq<char>,
    any_case: bool,
    kind: ValueKind,
)
    requires
        0 <= first < n <= ls.len(),
        wanted(ls, first, sec, name, any_case, kind),
        forall|i: int| 0 <= i < first ==> !#[trigger] wanted(ls, i, sec, name, any_case, kind),
    ensures
        lookup(ls, n, sec, name, any_case, kind) == Some(entry_value(text::trim(ls[first]))),
    decreases n,
{
    if n - 1 == first {
        no_entry_no_value(ls, first, sec, name, any_case, kind);
    } else {
        the_first_entry_decides(ls, n - 1, first, sec, name, any_case, kind);
    }
}

/// Where no entry is asked for there is no value.
pub proof fn no_entry_no_value(
    ls: Seq<Seq<char>>,
    n: int,
    sec: Section,
    name: Seq<char>,
    any_case: bool,
    kind: ValueKind,
)
    requires
        n <= ls.len(),
        forall|i: int| 0 <= i < n ==> !#[trigger] wanted(ls, i, sec, name, any_case, kind),
    ensures
        lookup(ls, n, sec, name, any_case, kind) is None,
    decreases n,
{
    if n > 0 {
        no_entry_no_value(ls, n - 1, sec, name, any_case, kind);
    }
}

/// Blanks and tabs.
pub open spec fn blank(s: Seq<char>) -> bool {
    forall|i: int| 0 <= i < s.len() ==> #[trigger] s[i] == ' ' || s[i] == '\t'
}

/// A line that gives `key` a value, with blanks where they may stand.
pub open spec fn written_entry(pads: (Seq<char>, Seq<char>, Seq<char>, Seq<char>), key: Seq<char>, value: Seq<char>) -> Seq<
    char,
> {
    pads.0 + key + pads.1 + seq!['='] + pads.2 + value + pads.3 + seq!['\n']
}

/// A line that opens the section `name`.
pub open spec fn written_header(name: Seq<char>) -> Seq<char> {
    seq!['['] + name + seq![']', '\n']
}

/// A key and a value that a line can hold, and blanks around them.
pub open spec fn writable(pads: (Seq<char>, Seq<char>, Seq<char>, Seq<char>), key: Seq<char>, value: Seq<char>) -> bool {
    &&& blank(pads.0) && blank(pads.1) && blank(pads.2) && blank(pads.3)
    &&& key.len() > 0 && text::plain(key) && !key.contains('=') && key[0] != ';' && key[0] != '['
    &&& value.len() > 0 && text::plain(value)
}

proof fn an_entry_line_is_cut_up(pads: (Seq<char>, Seq<char>, Seq<char>, Seq<char>), key: Seq<char>, value: Seq<char>)
    requires
        writable(pads, key, value),
    ensures
        ({
            let line = pads.0 + key + pads.1 + seq!['='] + pads.2 + value + pads.3;
            let l = text::trim(line);
            &&& forall|i: int| 0 <= i < line.len() ==> line[i] != '\n' && line[i] != '\r'
            &&& !header(l)
            &&& entry(l)
            &&& entry_key(l) == key
            &&& entry_value(l) == value
        }),
{
    let (left, right) = (key + pads.1, pads.2 + value);
    let l = left + seq!['='] + right;
    let line = pads.0 + key + pads.1 + seq!['='] + pads.2 + value + pads.3;
    assert(line =~= pads.0 + l + pads.3);
    let at = left.len() as int;
    assert(l[0] == key[0]);
    assert(l.last() == value.last());
    text::padding_is_trimmed(pads.0, l, pads.3);
    assert forall|i: int| 0 <= i < at implies l[i] != '=' by {
        if i < key.len() {
            assert(l[i] == key[i]);
            assert(key.contains(key[i]));
        } else {
            assert(l[i] == pads.1[i - key.len()]);
        }
    }
    assert(l[at] == '=');
    text::find_unique(l, '=', at);
    assert(l.take(at) =~= seq![] + key + pads.1);
    assert(l.skip(at + 1) =~= pads.2 + value + seq![]);
    text::padding_is_trimmed(seq![], key, pads.1);
    text::padding_is_trimmed(pads.2, value, seq![]);
    assert forall|i: int| 0 <= i < line.len() implies line[i] != '\n' && line[i] != '\r' by {
        let n1 = pads.0.len() as int;
        let n2 = n1 + key.len();
        let n3 = n2 + pads.1.len();
        let n4 = n3 + 1 + pads.2.len();
        let n5 = n4 + value.len();
        if i < n1 {
            assert(line[i] == pads.0[i]);
        } else if i < n2 {
            assert(line[i] == key[i - n1]);
            assert(!text::white(key[i - n1]));
        } else if i < n3 {
            assert(line[i] == pads.1[i - n2]);
        } else if i == n3 {
            assert(line[i] == '=');
        } else if i < n4 {
            assert(line[i] == pads.2[i - n3 - 1]);
        } else if i < n5 {
            assert(line[i] == value[i - n4]);
            assert(!text::white(value[i - n4]));
        } else {
            assert(line[i] == pads.3[i - n5]);
        }
    }
}

/// What an entry is looked up as, at line `n`, where no line before it is one.
proof fn the_entry_at(
    ls: Seq<Seq<char>>,
    n: int,
    key: Seq<char>,
    value: Seq<char>,
    sec: Section,
    name: Seq<char>,
    any_case: bool,
    kind: ValueKind,
)
    requires
        0 <= n < ls.len(),
        forall|i: int| 0 <= i < n ==> !entry(text::trim(#[trigger] ls[i])),
        entry(text::trim(ls[n])),
        entry_key(text::trim(ls[n])) == key,
        entry_value(text::trim(ls[n])) == value,
    ensures
        ({
            let got = lookup(ls, ls.len() as int, sec, name, any_case, kind);
            let asked = section_at(ls, n) == sec && key_matches(name, any_case, key) && value_fits(kind, value);
            &&& asked ==> got == Some(value)
            &&& !asked && ls.len() == n + 1 ==> got is None
        }),
{
    assert forall|i: int| 0 <= i < n implies !#[trigger] wanted(ls, i, sec, name, any_case, kind) by {
        assert(!entry(text::trim(ls[i])));
    }
    if wanted(ls, n, sec, name, any_case, kind) {
        the_first_entry_decides(ls, ls.len() as int, n, sec, name, any_case, kind);
    } else if ls.len() == n + 1 {
        no_entry_no_value(ls, n + 1, sec, name, any_case, kind);
    }
}

/// An entry under a header, after lines that are no entries.
proof fn the_lines_of_a_section(
    before: Seq<char>,
    name: Seq<char>,
    pads: (Seq<char>, Seq<char>, Seq<char>, Seq<char>),
    key: Seq<char>,
    value: Seq<char>,
    after: Seq<char>,
)
    requires
        before.len() > 0 ==> before.last() == '\n',
        !before.contains('='),
        text::plain(name),
        writable(pads, key, value),
    ensures
        ({
            let ls = text::lines(before + written_header(name) + written_entry(pads, key, value) + after);
            let n = text::lines(before).len() as int + 1;
            &&& n < ls.len()
            &&& after.len() == 0 ==> ls.len() == n + 1
            &&& forall|i: int| 0 <= i < n ==> !entry(text::trim(#[trigger] ls[i]))
            &&& section_at(ls, n) == named_section(seq!['['] + name + seq![']'])
            &&& entry(text::trim(ls[n]))
            &&& entry_key(text::trim(ls[n])) == key
            &&& entry_value(text::trim(ls[n])) == value
        }),
{
    let whole = before + written_header(name) + written_entry(pads, key, value) + after;
    let ls = text::lines(whole);
    let head = seq!['['] + name + seq![']'];
    let line = pads.0 + key + pads.1 + seq!['='] + pads.2 + value + pads.3;
    let n = text::lines(before).len() as int + 1;
    an_entry_line_is_cut_up(pads, key, value);
    assert(whole =~= before + (head + seq!['\n'] + (line + seq!['\n'] + after)));
    text::lines_follow_each_other(before, head + seq!['\n'] + (line + seq!['\n'] + after));
    assert forall|i: int| 0 <= i < head.len() implies head[i] != '\n' by {
        if 0 < i < head.len() - 1 {
            assert(head[i] == name[i - 1]);
            assert(!text::white(name[i - 1]));
        }
    }
    text::a_line_ends_at_its_feed(head, line + seq!['\n'] + after);
    text::a_line_ends_at_its_feed(line, after);
    assert(ls =~= text::lines(before) + (seq![head] + (seq![line] + text::lines(after))));
    assert(ls[n - 1] == head);
    assert(ls[n] == line);
    text::trim_keeps(head);
    assert(header(text::trim(head)));
    assert forall|i: int| 0 <= i < n implies !entry(text::trim(#[trigger] ls[i])) by {
        if i < n - 1 {
            assert(ls[i] == text::lines(before)[i]);
            text::lines_hold_what_the_text_holds(before, '=', i);
            let l = text::trim(ls[i]);
            text::find_is_first(l, '=');
            if text::find(l, '=') < l.len() {
                assert(l.contains(l[text::find(l, '=')]));
            }
        }
    }
}

/// A header names a section by its letters, of either case.
pub proof fn a_header_names_its_section(name: Seq<char>, sec: Seq<char>)
    requires
        text::same_letters(name, sec),
        sec == "DirectWrite"@ || sec == "Experimental"@ || sec == "General"@ || sec == "FreeType"@,
    ensures
        text::plain(name),
        named_section(seq!['['] + name + seq![']']) == (if sec == "DirectWrite"@ {
            Section::DirectWrite
        } else if sec == "Experimental"@ {
            Section::Experimental
        } else {
            Section::General
        }),
{
    reveal_strlit("DirectWrite");
    reveal_strlit("Experimental");
    reveal_strlit("General");
    reveal_strlit("FreeType");
    assert forall|i: int| 0 <= i < sec.len() implies ('A' <= #[trigger] sec[i] <= 'Z' || 'a' <= sec[i] <= 'z') by {
        if sec == "DirectWrite"@ {
            assert(sec[i] == "DirectWrite"@[i]);
        } else if sec == "Experimental"@ {
            assert(sec[i] == "Experimental"@[i]);
        } else if sec == "General"@ {
            assert(sec[i] == "General"@[i]);
        } else {
            assert(sec[i] == "FreeType"@[i]);
        }
    }
    assert forall|i: int| 0 <= i < name.len() implies {
        &&& !text::white(#[trigger] name[i])
        &&& name[i] != '['
        &&& name[i] != ']'
    } by {
        assert(text::lower(name[i]) == text::lower(sec[i]));
    }
    let l = seq!['['] + name + seq![']'];
    assert(l.last() == ']');
    assert(l.drop_last() =~= seq!['['] + name);
    assert((seq!['['] + name).last() == name[name.len() - 1]);
    assert(text::strip_end(seq!['['] + name, ']') == seq!['['] + name);
    assert(text::strip_end(l, ']') == seq!['['] + name);
    assert((seq!['['] + name).skip(1) =~= name);
    assert(text::strip_start(seq!['['] + name, '[') == text::strip_start(name, '['));
    assert(text::strip_start(name, '[') == name);
    text::trim_keeps(name);
    if sec != "DirectWrite"@ && text::same_letters(name, "DirectWrite"@) {
        assert(name.len() == 11);
    }
    if sec != "Experimental"@ && text::same_letters(name, "Experimental"@) {
        assert(name.len() == 12);
    }
    if sec == "FreeType"@ || sec == "General"@ {
        assert(name.len() == 8 || name.len() == 7);
    }
}

/// A `[DirectWrite]` section is read back: each of its keys, written with a
/// value that it takes, gives the profile that value, whatever comes after the
/// entry and whatever lines without an entry come before it.
pub proof fn a_directwrite_entry_reads_back(
    before: Seq<char>,
    name: Seq<char>,
    pads: (Seq<char>, Seq<char>, Seq<char>, Seq<char>),
    key: Seq<char>,
    value: Seq<char>,
    after: Seq<char>,
)
    requires
        before.len() > 0 ==> before.last() == '\n',
        !before.contains('='),
        text::same_letters(name, "DirectWrite"@),
        writable(pads, key, value),
    ensures
        ({
            let s = settings(before + written_header(name) + written_entry(pads, key, value) + after);
            &&& key == "GammaValue"@ && text::real_number(value) ==> s.dw_gamma == Some(value)
            &&& key == "Contrast"@ && text::real_number(value) ==> s.dw_contrast == Some(value)
            &&& key == "ClearTypeLevel"@ && text::real_number(value) ==> s.dw_cleartype_level == Some(value)
            &&& text::same_letters(key, "RenderingMode"@) ==> match text::small_integer(value) {
                Some(n) => {
                    &&& n < 0 ==> s.dw_rendering_mode == 0
                    &&& 0 <= n <= 6 ==> s.dw_rendering_mode == n
                    &&& n > 6 ==> s.dw_rendering_mode == 6
                },
                None => true,
            }
        }),
{
    let whole = before + written_header(name) + written_entry(pads, key, value) + after;
    let ls = text::lines(whole);
    let n = text::lines(before).len() as int + 1;
    a_header_names_its_section(name, "DirectWrite"@);
    the_lines_of_a_section(before, name, pads, key, value, after);
    let (sec, kind) = (Section::DirectWrite, ValueKind::Real);
    the_entry_at(ls, n, key, value, sec, "GammaValue"@, false, kind);
    the_entry_at(ls, n, key, value, sec, "Contrast"@, false, kind);
    the_entry_at(ls, n, key, value, sec, "ClearTypeLevel"@, false, kind);
    the_entry_at(ls, n, key, value, sec, "RenderingMode"@, true, ValueKind::Integer);
}

/// One `[DirectWrite]` entry sets its own value and nothing else: every other
/// setting is as an empty text leaves it. A value that cannot be read, or a
/// key that the section does not have, sets nothing.
pub proof fn a_directwrite_entry_sets_nothing_else(
    before: Seq<char>,
    name: Seq<char>,
    pads: (Seq<char>, Seq<char>, Seq<char>, Seq<char>),
    key: Seq<char>,
    value: Seq<char>,
)
    requires
        before.len() > 0 ==> before.last() == '\n',
        !before.contains('='),
        text::same_letters(name, "DirectWrite"@),
        writable(pads, key, value),
    ensures
        ({
            let s = settings(before + written_header(name) + written_entry(pads, key, value));
            let d = preset("1.25"@, "1.0"@, "1.0"@, Aa::Grey, 0, 0);
            let readable = text::real_number(value);
            if key == "GammaValue"@ && readable {
                s == (Settings { dw_gamma: Some(value), ..d })
            } else if key == "Contrast"@ && readable {
                s == (Settings { dw_contrast: Some(value), ..d })
            } else if key == "ClearTypeLevel"@ && readable {
                s == (Settings { dw_cleartype_level: Some(value), ..d })
            } else if text::same_letters(key, "RenderingMode"@) && text::small_integer(value) is Some {
                s == (Settings { dw_rendering_mode: s.dw_rendering_mode, ..d })
            } else {
                s == d
            }
        }),
{
    let whole = before + written_header(name) + written_entry(pads, key, value);
    assert(whole + seq![] =~= whole);
    let n = text::lines(before).len() as int + 1;
    a_header_names_its_section(name, "DirectWrite"@);
    the_lines_of_a_section(before, name, pads, key, value, seq![]);
    keys_are_told_apart();
    all_lookups_at(text::lines(whole), n, key, value);
}

/// An `[Experimental]` section is read back: `ClipBoxFix`, in letters of
/// either case, is on unless its number is 0.
pub proof fn an_experimental_entry_reads_back(
    before: Seq<char>,
    name: Seq<char>,
    pads: (Seq<char>, Seq<char>, Seq<char>, Seq<char>),
    key: Seq<char>,
    value: Seq<char>,
    after: Seq<char>,
)
    requires
        before.len() > 0 ==> before.last() == '\n',
        !before.contains('='),
        text::same_letters(name, "Experimental"@),
        writable(pads, key, value),
    ensures
        ({
            let s = settings(before + written_header(name) + written_entry(pads, key, value) + after);
            let alone = settings(before + written_header(name) + written_entry(pads, key, value));
            let d = preset("1.25"@, "1.0"@, "1.0"@, Aa::Grey, 0, 0);
            match text::small_integer(value) {
                Some(n) if text::same_letters(key, "ClipBoxFix"@) => {
                    &&& s.clipbox_fix == (n != 0)
                    &&& alone == (Settings { clipbox_fix: n != 0, ..d })
                },
                _ => alone == d,
            }
        }),
{
    let alone = before + written_header(name) + written_entry(pads, key, value);
    let whole = alone + after;
    let n = text::lines(before).len() as int + 1;
    assert(alone + seq![] =~= alone);
    reveal_strlit("DirectWrite");
    reveal_strlit("Experimental");
    a_header_names_its_section(name, "Experimental"@);
    the_lines_of_a_section(before, name, pads, key, value, after);
    the_entry_at(text::lines(whole), n, key, value, Section::Experimental, "ClipBoxFix"@, true, ValueKind::Integer);
    the_lines_of_a_section(before, name, pads, key, value, seq![]);
    keys_are_told_apart();
    all_lookups_at(text::lines(alone), n, key, value);
}

/// A `[General]` or `[FreeType]` section is read back. The first entry of a
/// key decides: its value is taken if it can be read, and leaves the setting
/// as an empty text would if it cannot, whatever comes after it.
pub proof fn a_general_entry_reads_back(
    before: Seq<char>,
    name: Seq<char>,
    pads: (Seq<char>, Seq<char>, Seq<char>, Seq<char>),
    key: Seq<char>,
    value: Seq<char>,
    after: Seq<char>,
)
    requires
        before.len() > 0 ==> before.last() == '\n',
        !before.contains('='),
        text::same_letters(name, "General"@) || text::same_letters(name, "FreeType"@),
        writable(pads, key, value),
    ensures
        takes_general_entry(
            settings(before + written_header(name) + written_entry(pads, key, value) + after),
            key,
            value,
        ),
        sets_only_general_entry(
            settings(before + written_header(name) + written_entry(pads, key, value)),
            key,
            value,
        ),
{
    let alone = before + written_header(name) + written_entry(pads, key, value);
    let whole = alone + after;
    let n = text::lines(before).len() as int + 1;
    assert(alone + seq![] =~= alone);
    reveal_strlit("DirectWrite");
    reveal_strlit("Experimental");
    reveal_strlit("General");
    reveal_strlit("FreeType");
    if text::same_letters(name, "General"@) {
        a_header_names_its_section(name, "General"@);
    } else {
        a_header_names_its_section(name, "FreeType"@);
    }
    the_lines_of_a_section(before, name, pads, key, value, after);
    the_lines_of_a_section(before, name, pads, key, value, seq![]);
    general_lookups_at(whole, n, key, value);
    keys_are_told_apart();
    all_lookups_at(text::lines(alone), n, key, value);
}

/// An entry before any header counts as one of `[General]`.
pub proof fn an_entry_without_a_section_is_general(
    before: Seq<char>,
    pads: (Seq<char>, Seq<char>, Seq<char>, Seq<char>),
    key: Seq<char>,
    value: Seq<char>,
    after: Seq<char>,
)
    requires
        before.len() > 0 ==> before.last() == '\n',
        !before.contains('='),
        !before.contains('['),
        writable(pads, key, value),
    ensures
        takes_general_entry(settings(before + written_entry(pads, key, value) + after), key, value),
        sets_only_general_entry(settings(before + written_entry(pads, key, value)), key, value),
{
    let alone = before + written_entry(pads, key, value);
    let whole = alone + after;
    let n = text::lines(before).len() as int;
    assert(alone + seq![] =~= alone);
    the_lines_of_no_section(before, pads, key, value, after);
    the_lines_of_no_section(before, pads, key, value, seq![]);
    general_lookups_at(whole, n, key, value);
    keys_are_told_apart();
    all_lookups_at(text::lines(alone), n, key, value);
}

/// What an entry of `[General]` does to a profile.
pub open spec fn takes_general_entry(s: Settings, key: Seq<char>, value: Seq<char>) -> bool {
    let readable = text::real_number(value);
    let number = text::small_integer(value);
    &&& key == "GammaValue"@ ==> s.gamma == (if readable {
        value
    } else {
        "1.25"@
    })
    &&& key == "RenderWeight"@ ==> s.weight == (if readable {
        value
    } else {
        "1.0"@
    })
    &&& key == "Contrast"@ ==> s.contrast == (if readable {
        value
    } else {
        "1.0"@
    })
    &&& key == "GammaMode"@ ==> s.gamma_mode == (if number is Some {
        number->0 as int
    } else {
        0
    })
    &&& key == "HintingMode"@ ==> s.hinting == (if number is Some {
        number->0 as int
    } else {
        0
    })
    &&& key == "LcdFilter"@ ==> s.lcd_filter == (if number is Some {
        number->0 as int
    } else {
        0
    })
    &&& key == "NormalWeight"@ ==> s.embolden == (if number is Some {
        number->0 as int
    } else {
        0
    })
    &&& key == "AntiAliasMode"@ ==> s.aa == (match number {
        Some(2) => Aa::LcdRgb,
        Some(3) => Aa::LcdBgr,
        Some(4) => Aa::LightLcdRgb,
        Some(5) => Aa::LightLcdBgr,
        _ => Aa::Grey,
    })
}

/// Apart from the setting that its key names, a profile is as an empty text
/// leaves it.
pub open spec fn sets_only_general_entry(s: Settings, key: Seq<char>, value: Seq<char>) -> bool {
    let d = preset("1.25"@, "1.0"@, "1.0"@, Aa::Grey, 0, 0);
    s == (if key == "GammaValue"@ {
        Settings { gamma: s.gamma, ..d }
    } else if key == "RenderWeight"@ {
        Settings { weight: s.weight, ..d }
    } else if key == "Contrast"@ {
        Settings { contrast: s.contrast, ..d }
    } else if key == "GammaMode"@ {
        Settings { gamma_mode: s.gamma_mode, ..d }
    } else if key == "HintingMode"@ {
        Settings { hinting: s.hinting, ..d }
    } else if key == "LcdFilter"@ {
        Settings { lcd_filter: s.lcd_filter, ..d }
    } else if key == "NormalWeight"@ {
        Settings { embolden: s.embolden, ..d }
    } else if key == "AntiAliasMode"@ {
        Settings { aa: s.aa, ..d }
    } else {
        d
    })
}

proof fn general_lookups_at(whole: Seq<char>, n: int, key: Seq<char>, value: Seq<char>)
    requires
        ({
            let ls = text::lines(whole);
            &&& 0 <= n < ls.len()
            &&& forall|i: int| 0 <= i < n ==> !entry(text::trim(#[trigger] ls[i]))
            &&& section_at(ls, n) == Section::General
            &&& entry(text::trim(ls[n]))
            &&& entry_key(text::trim(ls[n])) == key
            &&& entry_value(text::trim(ls[n])) == value
        }),
    ensures
        general(whole, key) == Some(value),
{
    the_entry_at(text::lines(whole), n, key, value, Section::General, key, false, ValueKind::Any);
}

proof fn the_lines_of_no_section(
    before: Seq<char>,
    pads: (Seq<char>, Seq<char>, Seq<char>, Seq<char>),
    key: Seq<char>,
    value: Seq<char>,
    after: Seq<char>,
)
    requires
        before.len() > 0 ==> before.last() == '\n',
        !before.contains('='),
        !before.contains('['),
        writable(pads, key, value),
    ensures
        ({
            let ls = text::lines(before + written_entry(pads, key, value) + after);
            let n = text::lines(before).len() as int;
            &&& n < ls.len()
            &&& after.len() == 0 ==> ls.len() == n + 1
            &&& forall|i: int| 0 <= i < n ==> !entry(text::trim(#[trigger] ls[i]))
            &&& section_at(ls, n) == Section::General
            &&& entry(text::trim(ls[n]))
            &&& entry_key(text::trim(ls[n])) == key
            &&& entry_value(text::trim(ls[n])) == value
        }),
{
    let whole = before + written_entry(pads, key, value) + after;
    let ls = text::lines(whole);
    let line = pads.0 + key + pads.1 + seq!['='] + pads.2 + value + pads.3;
    let n = text::lines(before).len() as int;
    an_entry_line_is_cut_up(pads, key, value);
    assert(whole =~= before + (line + seq!['\n'] + after));
    text::lines_follow_each_other(before, line + seq!['\n'] + after);
    text::a_line_ends_at_its_feed(line, after);
    assert(ls =~= text::lines(before) + (seq![line] + text::lines(after)));
    assert(ls[n] == line);
    assert forall|i: int| 0 <= i < n implies !entry(text::trim(#[trigger] ls[i])) && !header(text::trim(ls[i])) by {
        assert(ls[i] == text::lines(before)[i]);
        text::lines_hold_what_the_text_holds(before, '=', i);
        text::lines_hold_what_the_text_holds(before, '[', i);
        let l = text::trim(ls[i]);
        text::find_is_first(l, '=');
        if text::find(l, '=') < l.len() {
            assert(l.contains(l[text::find(l, '=')]));
        }
        if l.len() > 0 {
            assert(l.contains(l[0]));
        }
    }
    no_header_no_section(ls, n);
}

proof fn no_header_no_section(ls: Seq<Seq<char>>, n: int)
    requires
        0 <= n <= ls.len(),
        forall|i: int| 0 <= i < n ==> !header(text::trim(#[trigger] ls[i])),
    ensures
        section_at(ls, n) == Section::General,
    decreases n,
{
    if n > 0 {
        no_header_no_section(ls, n - 1);
        assert(!header(text::trim(ls[n - 1])));
    }
}

/// No line of the text gives `key` a value, in letters of either case.
pub open spec fn gives_no(s: Seq<char>, key: Seq<char>) -> bool {
    forall|i: int|
        0 <= i < text::lines(s).len() ==> {
            let l = text::trim(#[trigger] text::lines(s)[i]);
            text::find(l, '=') == l.len() || !text::same_letters(text::trim(l.take(text::find(l, '='))), key)
        }
}

/// An entry counts wherever it stands: after any text that does not give its
/// key a value, under its section's header and other lines that open no
/// section, and whatever comes after it.
pub proof fn an_entry_counts_wherever_it_stands(
    before: Seq<char>,
    name: Seq<char>,
    between: Seq<char>,
    pads: (Seq<char>, Seq<char>, Seq<char>, Seq<char>),
    key: Seq<char>,
    value: Seq<char>,
    after: Seq<char>,
)
    requires
        before.len() > 0 ==> before.last() == '\n',
        between.len() > 0 ==> between.last() == '\n',
        gives_no(before, key),
        gives_no(between, key),
        !between.contains('['),
        text::plain(name),
        writable(pads, key, value),
    ensures
        ({
            let s = settings(before + written_header(name) + between + written_entry(pads, key, value) + after);
            let readable = text::real_number(value);
            let number = text::small_integer(value);
            &&& text::same_letters(name, "DirectWrite"@) ==> {
                &&& key == "GammaValue"@ && readable ==> s.dw_gamma == Some(value)
                &&& key == "Contrast"@ && readable ==> s.dw_contrast == Some(value)
                &&& key == "ClearTypeLevel"@ && readable ==> s.dw_cleartype_level == Some(value)
                &&& text::same_letters(key, "RenderingMode"@) && number is Some ==> {
                    &&& number->0 < 0 ==> s.dw_rendering_mode == 0
                    &&& 0 <= number->0 <= 6 ==> s.dw_rendering_mode == number->0
                    &&& number->0 > 6 ==> s.dw_rendering_mode == 6
                }
            }
            &&& text::same_letters(name, "Experimental"@) && text::same_letters(key, "ClipBoxFix"@) && number is Some
                ==> s.clipbox_fix == (number->0 != 0)
            &&& text::same_letters(name, "General"@) || text::same_letters(name, "FreeType"@)
                ==> takes_general_entry(s, key, value)
        }),
{
    let whole = before + written_header(name) + between + written_entry(pads, key, value) + after;
    let ls = text::lines(whole);
    let n = text::lines(before).len() as int + 1 + text::lines(between).len();
    the_lines_around_an_entry(before, name, between, pads, key, value, after);
    reveal_strlit("DirectWrite");
    reveal_strlit("Experimental");
    reveal_strlit("General");
    reveal_strlit("FreeType");
    if text::same_letters(name, "DirectWrite"@) {
        a_header_names_its_section(name, "DirectWrite"@);
        let (sec, kind) = (Section::DirectWrite, ValueKind::Real);
        the_first_of_its_key(ls, n, key, value, sec, "GammaValue"@, false, kind);
        the_first_of_its_key(ls, n, key, value, sec, "Contrast"@, false, kind);
        the_first_of_its_key(ls, n, key, value, sec, "ClearTypeLevel"@, false, kind);
        the_first_of_its_key(ls, n, key, value, sec, "RenderingMode"@, true, ValueKind::Integer);
    }
    if text::same_letters(name, "Experimental"@) {
        a_header_names_its_section(name, "Experimental"@);
        the_first_of_its_key(ls, n, key, value, Section::Experimental, "ClipBoxFix"@, true, ValueKind::Integer);
    }
    if text::same_letters(name, "General"@) || text::same_letters(name, "FreeType"@) {
        if text::same_letters(name, "General"@) {
            a_header_names_its_section(name, "General"@);
        } else {
            a_header_names_its_section(name, "FreeType"@);
        }
        the_first_of_its_key(ls, n, key, value, Section::General, key, false, ValueKind::Any);
        assert(general(whole, key) == Some(value));
    }
}

proof fn the_first_of_its_key(
    ls: Seq<Seq<char>>,
    n: int,
    key: Seq<char>,
    value: Seq<char>,
    sec: Section,
    name: Seq<char>,
    any_case: bool,
    kind: ValueKind,
)
    requires
        0 <= n < ls.len(),
        forall|i: int|
            0 <= i < n ==> !(entry(text::trim(#[trigger] ls[i])) && text::same_letters(
                entry_key(text::trim(ls[i])),
                key,
            )),
        section_at(ls, n) == sec,
        entry(text::trim(ls[n])),
        entry_key(text::trim(ls[n])) == key,
        entry_value(text::trim(ls[n])) == value,
    ensures
        key_matches(name, any_case, key) && value_fits(kind, value) ==> lookup(
            ls,
            ls.len() as int,
            sec,
            name,
            any_case,
            kind,
        ) == Some(value),
{
    if key_matches(name, any_case, key) && value_fits(kind, value) {
        assert forall|i: int| 0 <= i < n implies !#[trigger] wanted(ls, i, sec, name, any_case, kind) by {
            let l = text::trim(ls[i]);
            if entry(l) && key_matches(name, any_case, entry_key(l)) {
                let k = entry_key(l);
                assert forall|x: int| 0 <= x < k.len() implies text::lower(k[x]) == text::lower(key[x]) by {
                    if any_case {
                        assert(text::lower(k[x]) == text::lower(name[x]));
                        assert(text::lower(key[x]) == text::lower(name[x]));
                    }
                }
                assert(text::same_letters(k, key));
            }
        }
        the_first_entry_decides(ls, ls.len() as int, n, sec, name, any_case, kind);
    }
}

proof fn the_lines_around_an_entry(
    before: Seq<char>,
    name: Seq<char>,
    between: Seq<char>,
    pads: (Seq<char>, Seq<char>, Seq<char>, Seq<char>),
    key: Seq<char>,
    value: Seq<char>,
    after: Seq<char>,
)
    requires
        before.len() > 0 ==> before.last() == '\n',
        between.len() > 0 ==> between.last() == '\n',
        gives_no(before, key),
        gives_no(between, key),
        !between.contains('['),
        text::plain(name),
        writable(pads, key, value),
    ensures
        ({
            let ls = text::lines(before + written_header(name) + between + written_entry(pads, key, value) + after);
            let n = text::lines(before).len() as int + 1 + text::lines(between).len();
            &&& 0 <= n < ls.len()
            &&& forall|i: int|
                0 <= i < n ==> !(entry(text::trim(#[trigger] ls[i])) && text::same_letters(
                    entry_key(text::trim(ls[i])),
                    key,
                ))
            &&& section_at(ls, n) == named_section(seq!['['] + name + seq![']'])
            &&& entry(text::trim(ls[n]))
            &&& entry_key(text::trim(ls[n])) == key
            &&& entry_value(text::trim(ls[n])) == value
        }),
{
    let whole = before + written_header(name) + between + written_entry(pads, key, value) + after;
    let ls = text::lines(whole);
    let head = seq!['['] + name + seq![']'];
    let line = pads.0 + key + pads.1 + seq!['='] + pads.2 + value + pads.3;
    let (a, m) = (text::lines(before), text::lines(between));
    let n = a.len() as int + 1 + m.len();
    an_entry_line_is_cut_up(pads, key, value);
    assert(whole =~= before + (head + seq!['\n'] + (between + (line + seq!['\n'] + after))));
    text::lines_follow_each_other(before, head + seq!['\n'] + (between + (line + seq!['\n'] + after)));
    assert forall|i: int| 0 <= i < head.len() implies head[i] != '\n' by {
        if 0 < i < head.len() - 1 {
            assert(head[i] == name[i - 1]);
            assert(!text::white(name[i - 1]));
        }
    }
    text::a_line_ends_at_its_feed(head, between + (line + seq!['\n'] + after));
    text::lines_follow_each_other(between, line + seq!['\n'] + after);
    text::a_line_ends_at_its_feed(line, after);
    assert(ls =~= a + (seq![head] + (m + (seq![line] + text::lines(after)))));
    assert(ls[a.len() as int] == head);
    assert(ls[n] == line);
    text::trim_keeps(head);
    assert(header(text::trim(head)));
    assert forall|i: int| 0 <= i < n implies !(entry(text::trim(#[trigger] ls[i])) && text::same_letters(
        entry_key(text::trim(ls[i])),
        key,
    )) by {
        if i < a.len() {
            assert(ls[i] == a[i]);
        } else if i > a.len() {
            assert(ls[i] == m[i - a.len() - 1]);
        }
    }
    assert(section_at(ls, a.len() as int + 1) == named_section(head));
    assert forall|i: int| 0 <= i < m.len() implies !header(text::trim(#[trigger] m[i])) by {
        text::lines_hold_what_the_text_holds(between, '[', i);
        let l = text::trim(m[i]);
        if l.len() > 0 {
            assert(l.contains(l[0]));
        }
    }
    the_section_goes_on(ls, a.len() as int + 1, m, m.len() as int);
}

proof fn the_section_goes_on(ls: Seq<Seq<char>>, from: int, m: Seq<Seq<char>>, k: int)
    requires
        0 < from,
        0 <= k <= m.len(),
        from + m.len() <= ls.len(),
        forall|i: int| 0 <= i < m.len() ==> ls[from + i] == #[trigger] m[i],
        forall|i: int| 0 <= i < m.len() ==> !header(text::trim(#[trigger] m[i])),
    ensures
        section_at(ls, from + k) == section_at(ls, from),
    decreases k,
{
    if k > 0 {
        the_section_goes_on(ls, from, m, k - 1);
        assert(ls[from + k - 1] == m[k - 1]);
        assert(!header(text::trim(m[k - 1])));
    }
}

/// What stands under a section of another name sets nothing.
pub proof fn an_entry_of_another_section_sets_nothing(
    before: Seq<char>,
    name: Seq<char>,
    pads: (Seq<char>, Seq<char>, Seq<char>, Seq<char>),
    key: Seq<char>,
    value: Seq<char>,
)
    requires
        before.len() > 0 ==> before.last() == '\n',
        !before.contains('='),
        text::plain(name),
        name.len() > 0,
        name[0] != '[',
        name.last() != ']',
        !text::same_letters(name, "DirectWrite"@),
        !text::same_letters(name, "Experimental"@),
        !text::same_letters(name, "General"@),
        !text::same_letters(name, "FreeType"@),
        writable(pads, key, value),
    ensures
        settings(before + written_header(name) + written_entry(pads, key, value)) == preset(
            "1.25"@,
            "1.0"@,
            "1.0"@,
            Aa::Grey,
            0,
            0,
        ),
{
    let whole = before + written_header(name) + written_entry(pads, key, value);
    assert(whole + seq![] =~= whole);
    let n = text::lines(before).len() as int + 1;
    let l = seq!['['] + name + seq![']'];
    assert(l.drop_last() =~= seq!['['] + name);
    assert((seq!['['] + name).last() == name.last());
    assert(text::strip_end(seq!['['] + name, ']') == seq!['['] + name);
    assert(text::strip_end(l, ']') == seq!['['] + name);
    assert((seq!['['] + name).skip(1) =~= name);
    assert(text::strip_start(name, '[') == name);
    assert(text::strip_start(seq!['['] + name, '[') == name);
    assert(!text::white(name[0]) && !text::white(name[name.len() - 1]));
    text::trim_keeps(name);
    the_lines_of_a_section(before, name, pads, key, value, seq![]);
    all_lookups_at(text::lines(whole), n, key, value);
}

/// In `[DirectWrite]` an entry whose value is no real number is passed over:
/// the next entry of the key counts.
pub proof fn an_unreadable_value_is_passed_over(
    before: Seq<char>,
    name: Seq<char>,
    pads: (Seq<char>, Seq<char>, Seq<char>, Seq<char>),
    key: Seq<char>,
    bad: Seq<char>,
    value: Seq<char>,
    after: Seq<char>,
)
    requires
        before.len() > 0 ==> before.last() == '\n',
        !before.contains('='),
        text::same_letters(name, "DirectWrite"@),
        writable(pads, key, value),
        writable(pads, key, bad),
        !text::real_number(bad),
        text::real_number(value),
    ensures
        ({
            let s = settings(
                before + written_header(name) + written_entry(pads, key, bad) + (written_entry(pads, key, value)
                    + after),
            );
            &&& key == "GammaValue"@ ==> s.dw_gamma == Some(value)
            &&& key == "Contrast"@ ==> s.dw_contrast == Some(value)
            &&& key == "ClearTypeLevel"@ ==> s.dw_cleartype_level == Some(value)
        }),
{
    let rest = written_entry(pads, key, value) + after;
    let first = before + written_header(name) + written_entry(pads, key, bad);
    let whole = first + rest;
    let ls = text::lines(whole);
    let n = text::lines(before).len() as int + 1;
    let line = pads.0 + key + pads.1 + seq!['='] + pads.2 + value + pads.3;
    a_header_names_its_section(name, "DirectWrite"@);
    the_lines_of_a_section(before, name, pads, key, bad, rest);
    the_lines_of_a_section(before, name, pads, key, bad, seq![]);
    assert(first + seq![] =~= first);
    assert(first.last() == '\n');
    text::lines_follow_each_other(first, rest);
    an_entry_line_is_cut_up(pads, key, value);
    an_entry_line_is_cut_up(pads, key, bad);
    assert(rest =~= line + seq!['\n'] + after);
    text::a_line_ends_at_its_feed(line, after);
    assert(ls =~= text::lines(first) + (seq![line] + text::lines(after)));
    assert(ls[n + 1] == line);
    assert(!header(text::trim(ls[n])));
    assert(section_at(ls, n + 1) == Section::DirectWrite);
    let (sec, kind) = (Section::DirectWrite, ValueKind::Real);
    assert forall|i: int| 0 <= i < n + 1 implies !#[trigger] wanted(ls, i, sec, key, false, kind) by {
        if i < n {
            assert(!entry(text::trim(ls[i])));
        }
    }
    assert(wanted(ls, n + 1, sec, key, false, kind));
    the_first_entry_decides(ls, ls.len() as int, n + 1, sec, key, false, kind);
}

/// A comment changes nothing, nor does an empty line or one that is neither an
/// entry nor a header: a text gives the same settings with it and without it.
pub proof fn a_line_that_says_nothing_changes_nothing(before: Seq<char>, line: Seq<char>, after: Seq<char>)
    requires
        before.len() > 0 ==> before.last() == '\n',
        forall|i: int| 0 <= i < line.len() ==> line[i] != '\n' && line[i] != '\r',
        ({
            let l = text::trim(line);
            l.len() == 0 || l[0] == ';' || (l[0] != '[' && !l.contains('='))
        }),
    ensures
        settings(before + (line + seq!['\n'] + after)) == settings(before + after),
{
    let (a, b) = (text::lines(before), text::lines(after));
    text::lines_follow_each_other(before, line + seq!['\n'] + after);
    text::lines_follow_each_other(before, after);
    text::a_line_ends_at_its_feed(line, after);
    let l = text::trim(line);
    text::find_is_first(l, '=');
    if text::find(l, '=') < l.len() {
        assert(l.contains(l[text::find(l, '=')]));
    }
    let with = a + (seq![line] + b);
    assert forall|sec: Section, name: Seq<char>, any_case: bool, kind: ValueKind|
        #[trigger] lookup(with, with.len() as int, sec, name, any_case, kind) == lookup(
            a + b,
            (a + b).len() as int,
            sec,
            name,
            any_case,
            kind,
        ) by {
        without_a_line(a, line, b, b.len() as int, sec, name, any_case, kind);
    }
}

proof fn without_a_line(
    a: Seq<Seq<char>>,
    line: Seq<char>,
    b: Seq<Seq<char>>,
    n: int,
    sec: Section,
    name: Seq<char>,
    any_case: bool,
    kind: ValueKind,
)
    requires
        0 <= n <= b.len(),
        !entry(text::trim(line)),
        !header(text::trim(line)),
    ensures
        ({
            let (with, left) = (a + (seq![line] + b), a + b);
            let at = a.len() as int + n;
            &&& section_at(with, at + 1) == section_at(left, at)
            &&& lookup(with, at + 1, sec, name, any_case, kind) == lookup(left, at, sec, name, any_case, kind)
        }),
    decreases n,
{
    let (with, left) = (a + (seq![line] + b), a + b);
    let at = a.len() as int + n;
    if n > 0 {
        without_a_line(a, line, b, n - 1, sec, name, any_case, kind);
        assert(with[at] == left[at - 1]);
    } else {
        assert(with[at] == line);
        same_lines(with, left, at, sec, name, any_case, kind);
    }
}

proof fn same_lines(
    a: Seq<Seq<char>>,
    b: Seq<Seq<char>>,
    n: int,
    sec: Section,
    name: Seq<char>,
    any_case: bool,
    kind: ValueKind,
)
    requires
        n <= a.len(),
        n <= b.len(),
        forall|i: int| 0 <= i < n ==> a[i] == b[i],
    ensures
        section_at(a, n) == section_at(b, n),
        lookup(a, n, sec, name, any_case, kind) == lookup(b, n, sec, name, any_case, kind),
    decreases n,
{
    if n > 0 {
        same_lines(a, b, n - 1, sec, name, any_case, kind);
    }
}

/// DirectWrite is told the section's own values where they are within what it
/// takes, and the nearest that it takes otherwise. Without a value the
/// contrast and the ClearType level are 1; without one above 0 the gamma is
/// the derived one.
pub proof fn directwrite_is_told_the_sections_values(general: int, gamma: i64, contrast: i64, level: i64)
    ensures
        ({
            let one = 0x1_0000_0000int;
            let v = dw_told(general, Some(gamma), Some(contrast), Some(level));
            let none = dw_told(general, None, None, None);
            let derived = derived_gamma(general);
            &&& one / 16 <= gamma <= 20 * one ==> v.gamma == gamma
            &&& 0 < gamma < one / 16 ==> v.gamma == one / 16
            &&& gamma > 20 * one ==> v.gamma == 20 * one
            &&& gamma <= 0 ==> v.gamma == none.gamma
            &&& one / 16 <= contrast <= 10 * one ==> v.contrast == contrast
            &&& contrast < one / 16 ==> v.contrast == one / 16
            &&& contrast > 10 * one ==> v.contrast == 10 * one
            &&& 0 <= level <= one ==> v.cleartype_level == level
            &&& level < 0 ==> v.cleartype_level == 0
            &&& level > one ==> v.cleartype_level == one
            &&& one / 16 <= derived <= 20 * one ==> none.gamma == derived
            &&& derived > 20 * one ==> none.gamma == 20 * one
            &&& none.contrast == one
            &&& none.cleartype_level == one
        }),
{
}

/// The derived gamma is half the square of the general one, to the nearest
/// that can be held, or 0.7 where that square is 1.3 or less.
pub proof fn the_derived_gamma_is_half_the_square(general: int)
    ensures
        ({
            let one = 0x1_0000_0000int;
            let g = derived_gamma(general);
            let square = general * general;
            &&& 10 * square <= 13 * (one * one) ==> g == 7 * one / 10
            &&& 10 * square > 13 * (one * one) && square < one * one * 0x1000_0000 ==> -one <= 2 * one * g - square
                <= one
        }),
{
    let one = 0x1_0000_0000int;
    assert(one * one == 0x1_0000_0000_0000_0000) by (nonlinear_arith)
        requires
            one == 0x1_0000_0000,
    ;
    assert(DW_ONE * DW_ONE == one * one) by (nonlinear_arith)
        requires
            one == 0x1_0000_0000,
            DW_ONE == 0x1_0000_0000,
    ;
}

/// The settings of a profile are what it holds.
pub proof fn the_settings_are_what_the_profile_holds(p: Profile)
    ensures
        p@.gamma == p.gamma@ && p@.weight == p.weight@ && p@.contrast == p.contrast@,
        p@.gamma_mode == p.gamma_mode && p@.aa == p.aa && p@.hinting == p.hinting,
        p@.lcd_filter == p.lcd_filter && p@.embolden == p.embolden,
        p.dw.gamma is None ==> p@.dw_gamma is None,
        p.dw.gamma matches Some(t) ==> p@.dw_gamma == Some(t@),
        p.dw.contrast is None ==> p@.dw_contrast is None,
        p.dw.contrast matches Some(t) ==> p@.dw_contrast == Some(t@),
        p.dw.cleartype_level is None ==> p@.dw_cleartype_level is None,
        p.dw.cleartype_level matches Some(t) ==> p@.dw_cleartype_level == Some(t@),
        p@.dw_rendering_mode == p.dw.rendering_mode && p@.clipbox_fix == p.clipbox_fix,
{
}

/// Which modes are subpixel modes, and which of those are light, by their
/// numbers: all but 0, and those from 4 on.
pub proof fn subpixel_modes_by_number(aa: Aa)
    ensures
        aa.lcd() <==> aa.number() != 0,
        aa.light() <==> aa.number() >= 4,
{
}

proof fn keys_are_told_apart()
    ensures
        "GammaValue"@.len() == 10,
        "RenderWeight"@.len() == 12,
        "Contrast"@.len() == 8,
        "GammaMode"@.len() == 9,
        "AntiAliasMode"@.len() == 13,
        "HintingMode"@.len() == 11,
        "LcdFilter"@.len() == 9,
        "NormalWeight"@.len() == 12,
        "ClearTypeLevel"@.len() == 14,
        "RenderingMode"@.len() == 13,
        "ClipBoxFix"@.len() == 10,
        "RenderWeight"@[0] == 'R',
        "NormalWeight"@[0] == 'N',
        "GammaMode"@[0] == 'G',
        "LcdFilter"@[0] == 'L',
{
    reveal_strlit("GammaValue");
    reveal_strlit("RenderWeight");
    reveal_strlit("Contrast");
    reveal_strlit("GammaMode");
    reveal_strlit("AntiAliasMode");
    reveal_strlit("HintingMode");
    reveal_strlit("LcdFilter");
    reveal_strlit("NormalWeight");
    reveal_strlit("ClearTypeLevel");
    reveal_strlit("RenderingMode");
    reveal_strlit("ClipBoxFix");
}

proof fn all_lookups_at(ls: Seq<Seq<char>>, n: int, key: Seq<char>, value: Seq<char>)
    requires
        0 <= n < ls.len(),
        ls.len() == n + 1,
        forall|i: int| 0 <= i < n ==> !entry(text::trim(#[trigger] ls[i])),
        entry(text::trim(ls[n])),
        entry_key(text::trim(ls[n])) == key,
        entry_value(text::trim(ls[n])) == value,
    ensures
        forall|sec: Section, name: Seq<char>, any_case: bool, kind: ValueKind|
            #[trigger] lookup(ls, ls.len() as int, sec, name, any_case, kind) == (if section_at(ls, n) == sec
                && key_matches(name, any_case, key) && value_fits(kind, value) {
                Some(value)
            } else {
                None
            }),
{
    assert forall|sec: Section, name: Seq<char>, any_case: bool, kind: ValueKind|
        #[trigger] lookup(ls, ls.len() as int, sec, name, any_case, kind) == (if section_at(ls, n) == sec
            && key_matches(name, any_case, key) && value_fits(kind, value) {
            Some(value)
        } else {
            None
        }) by {
        the_entry_at(ls, n, key, value, sec, name, any_case, kind);
    }
}

/// An empty text holds the settings of the Clean Greyscale preset.
pub proof fn no_text_is_clean_greyscale()
    ensures
        settings(seq![]) == preset("1.25"@, "1.0"@, "1.0"@, Aa::Grey, 0, 0),
{
    assert(text::lines(seq![]).len() == 0);
}

/// The rendering mode that DirectWrite is told is one that it has, whatever
/// the text says.
pub proof fn the_rendering_mode_is_in_range(text: Seq<char>)
    ensures
        0 <= settings(text).dw_rendering_mode <= 6,
{
}

/// What stands under a section for one program (`[Experimental@idea64.exe]`)
/// counts for no section that is read.
pub proof fn a_section_for_one_program_is_not_read(l: Seq<char>, at: int)
    requires
        ({
            let name = text::trim(text::strip_start(text::strip_end(l, ']'), '['));
            0 <= at < name.len() && name[at] == '@'
        }),
    ensures
        named_section(l) == Section::Other,
{
    let name = text::trim(text::strip_start(text::strip_end(l, ']'), '['));
    reveal_strlit("DirectWrite");
    reveal_strlit("Experimental");
    reveal_strlit("General");
    reveal_strlit("FreeType");
    if text::same_letters(name, "DirectWrite"@) {
        assert(text::lower(name[at]) == text::lower("DirectWrite"@[at]));
    }
    if text::same_letters(name, "Experimental"@) {
        assert(text::lower(name[at]) == text::lower("Experimental"@[at]));
    }
    if text::same_letters(name, "General"@) {
        assert(text::lower(name[at]) == text::lower("General"@[at]));
    }
    if text::same_letters(name, "FreeType"@) {
        assert(text::lower(name[at]) == text::lower("FreeType"@[at]));
    }
}

} // verus!
