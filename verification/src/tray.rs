//! The tray: its profiles in menu order, its menu, and what its commands do.

use vstd::prelude::*;
use vstd::slice::slice_subrange;

use crate::custom;
use crate::lang::Strings;
use crate::stale;
use crate::sysfont;
use crate::text;
use crate::utf16;

verus! {

// ---- profiles ----

pub open spec fn lowered(s: Seq<char>) -> Seq<char> {
    Seq::new(s.len(), |i: int| text::lower(s[i]))
}

pub open spec fn texts(v: Seq<String>) -> Seq<Seq<char>> {
    Seq::new(v.len(), |i: int| v[i]@)
}

/// The name ends in `.ini`, in any case.
pub open spec fn is_ini(name: Seq<char>) -> bool {
    let low = lowered(name);
    low.len() >= 4 && low.skip(low.len() - 4) == ".ini"@
}

/// The place of a profile in the menu: the greyscale pair first, then
/// Accurate, then the LCD ones, then what else there is. `low` is the file's
/// name in small letters.
pub open spec fn rank(low: Seq<char>) -> int {
    if low == "clean greyscale.ini"@ {
        0
    } else if low == "clean dark greyscale.ini"@ {
        1
    } else if low == "accurate.ini"@ {
        2
    } else if low == "clean sharp.ini"@ {
        3
    } else if low == "clean sharp dark.ini"@ {
        4
    } else {
        5
    }
}

/// Name `a` comes before name `b` in the menu: by rank, then by the alphabet.
/// Names that differ only in case have the same place.
pub open spec fn goes_before(a: Seq<char>, b: Seq<char>) -> bool {
    let x = lowered(a);
    let y = lowered(b);
    rank(x) < rank(y) || (rank(x) == rank(y) && text::before(x, y))
}

/// No name stands after one that it comes before.
pub open spec fn in_order(v: Seq<Seq<char>>) -> bool {
    forall|i: int, j: int| 0 <= i < j < v.len() ==> !goes_before(#[trigger] v[j], #[trigger] v[i])
}

/// The names that are `low` in small letters, as they follow one another.
pub open spec fn alike(v: Seq<Seq<char>>, low: Seq<char>) -> Seq<Seq<char>> {
    v.filter(|n: Seq<char>| lowered(n) == low)
}

pub open spec fn inis(v: Seq<Seq<char>>) -> Seq<Seq<char>> {
    v.filter(|n: Seq<char>| is_ini(n))
}

/// `r` is what of `v` is an ini file, in menu order; names that have the same
/// place keep their order.
pub open spec fn menu_order(v: Seq<Seq<char>>, r: Seq<Seq<char>>) -> bool {
    &&& in_order(r)
    &&& forall|low: Seq<char>| #[trigger] alike(r, low) == alike(inis(v), low)
}

fn to_lowered(s: &str) -> (r: Vec<char>)
    ensures
        r@ == lowered(s@),
{
    let chars: Vec<char> = text::chars_of(s);
    let mut r: Vec<char> = Vec::new();
    let mut i: usize = 0;
    while i < chars.len()
        invariant
            i <= chars@.len(),
            chars@ == s@,
            r@.len() == i,
            forall|j: int| 0 <= j < i ==> r@[j] == text::lower(chars@[j]),
        decreases chars@.len() - i,
    {
        r.push(text::to_lower(chars[i]));
        i = i + 1;
    }
    proof {
        assert(r@ =~= lowered(s@));
    }
    r
}

fn has_ini(name: &str) -> (r: bool)
    ensures
        r == is_ini(name@),
{
    let low: Vec<char> = to_lowered(name);
    let end: Vec<char> = text::chars_of(".ini");
    proof {
        reveal_strlit(".ini");
    }
    if low.len() < 4 {
        return false;
    }
    let tail: &[char] = slice_subrange(low.as_slice(), low.len() - 4, low.len());
    proof {
        assert(tail@ =~= low@.skip(low@.len() - 4));
    }
    text::eq_chars(tail, end.as_slice())
}

fn is_text(low: &[char], name: &str) -> (r: bool)
    ensures
        r == (low@ == name@),
{
    let name: Vec<char> = text::chars_of(name);
    text::eq_chars(low, name.as_slice())
}

fn rank_of(low: &[char]) -> (r: u8)
    ensures
        r == rank(low@),
{
    if is_text(low, "clean greyscale.ini") {
        0
    } else if is_text(low, "clean dark greyscale.ini") {
        1
    } else if is_text(low, "accurate.ini") {
        2
    } else if is_text(low, "clean sharp.ini") {
        3
    } else if is_text(low, "clean sharp dark.ini") {
        4
    } else {
        5
    }
}

fn comes_before(a: &str, b: &str) -> (r: bool)
    ensures
        r == goes_before(a@, b@),
{
    let x: Vec<char> = to_lowered(a);
    let y: Vec<char> = to_lowered(b);
    let rx: u8 = rank_of(x.as_slice());
    let ry: u8 = rank_of(y.as_slice());
    rx < ry || (rx == ry && text::is_before(x.as_slice(), y.as_slice()))
}

/// What neither comes before nor after is the same in small letters.
proof fn places_are_total(a: Seq<char>, b: Seq<char>)
    ensures
        goes_before(a, b) || goes_before(b, a) || lowered(a) == lowered(b),
        !(goes_before(a, b) && goes_before(b, a)),
        goes_before(a, b) ==> lowered(a) != lowered(b),
{
    text::before_is_total(lowered(a), lowered(b));
}

proof fn places_are_transitive(a: Seq<char>, b: Seq<char>, c: Seq<char>)
    requires
        goes_before(a, b),
        !goes_before(c, b),
    ensures
        goes_before(a, c),
{
    let (x, y, z) = (lowered(a), lowered(b), lowered(c));
    text::before_is_total(y, z);
    if rank(x) == rank(y) && rank(y) == rank(z) && y != z {
        text::before_is_transitive(x, y, z);
    }
}

/// Nothing of `v` is `low` in small letters.
proof fn none_alike(v: Seq<Seq<char>>, low: Seq<char>)
    requires
        forall|i: int| 0 <= i < v.len() ==> lowered(#[trigger] v[i]) != low,
    ensures
        alike(v, low) == Seq::<Seq<char>>::empty(),
    decreases v.len(),
{
    reveal(Seq::filter);
    if v.len() > 0 {
        let rest = v.drop_last();
        assert forall|i: int| 0 <= i < rest.len() implies lowered(#[trigger] rest[i]) != low by {
            assert(rest[i] == v[i]);
        }
        none_alike(rest, low);
        assert(lowered(v.last()) != low);
    }
    assert(alike(v, low) =~= Seq::<Seq<char>>::empty());
}

proof fn alike_of_push(v: Seq<Seq<char>>, n: Seq<char>, low: Seq<char>)
    ensures
        alike(v.push(n), low) == (if lowered(n) == low {
            alike(v, low).push(n)
        } else {
            alike(v, low)
        }),
{
    reveal(Seq::filter);
    assert(v.push(n).drop_last() =~= v);
}

proof fn inis_of_push(v: Seq<Seq<char>>, n: Seq<char>)
    ensures
        inis(v.push(n)) == (if is_ini(n) {
            inis(v).push(n)
        } else {
            inis(v)
        }),
{
    reveal(Seq::filter);
    assert(v.push(n).drop_last() =~= v);
}

/// A name put in behind all that do not come after it.
proof fn put_in_place(was: Seq<Seq<char>>, k: int, n: Seq<char>, now: Seq<Seq<char>>)
    requires
        in_order(was),
        0 <= k <= was.len(),
        forall|i: int| 0 <= i < k ==> !goes_before(n, #[trigger] was[i]),
        forall|i: int| k <= i < was.len() ==> goes_before(n, #[trigger] was[i]),
        now == was.insert(k, n),
    ensures
        in_order(now),
        forall|low: Seq<char>| #[trigger] alike(now, low) == (if lowered(n) == low {
            alike(was, low).push(n)
        } else {
            alike(was, low)
        }),
{
    assert forall|i: int, j: int| 0 <= i < j < now.len() implies !goes_before(#[trigger] now[j], #[trigger] now[i]) by {
        if j < k {
            assert(now[i] == was[i] && now[j] == was[j]);
        } else if j == k {
            assert(now[i] == was[i]);
        } else if i < k {
            assert(now[i] == was[i] && now[j] == was[j - 1]);
        } else if i == k {
            assert(now[j] == was[j - 1]);
            places_are_total(n, was[j - 1]);
        } else {
            assert(now[i] == was[i - 1] && now[j] == was[j - 1]);
        }
    }
    let (a, b) = (was.take(k), was.skip(k));
    assert(was =~= a + b);
    assert(now =~= a.push(n) + b);
    assert forall|low: Seq<char>| #[trigger] alike(now, low) == (if lowered(n) == low {
        alike(was, low).push(n)
    } else {
        alike(was, low)
    }) by {
        let p = |m: Seq<char>| lowered(m) == low;
        Seq::filter_distributes_over_add(a, b, p);
        Seq::filter_distributes_over_add(a.push(n), b, p);
        alike_of_push(a, n, low);
        if lowered(n) == low {
            assert forall|i: int| 0 <= i < b.len() implies lowered(#[trigger] b[i]) != low by {
                assert(b[i] == was[k + i]);
                places_are_total(n, was[k + i]);
            }
            none_alike(b, low);
            assert(alike(now, low) =~= alike(was, low).push(n));
        }
    }
}

/// Which names come after `n` is a tail of what is in order.
proof fn the_rest_comes_after(v: Seq<Seq<char>>, k: int, n: Seq<char>)
    requires
        in_order(v),
        0 <= k < v.len(),
        goes_before(n, v[k]),
    ensures
        forall|i: int| k <= i < v.len() ==> goes_before(n, #[trigger] v[i]),
{
    assert forall|i: int| k <= i < v.len() implies goes_before(n, #[trigger] v[i]) by {
        if i > k {
            assert(!goes_before(v[i], v[k]));
            places_are_transitive(n, v[k], v[i]);
        }
    }
}

fn copy_text(s: &str) -> (r: String)
    ensures
        r@ == s@,
{
    s.to_owned()
}

fn put_in(v: &mut Vec<String>, name: &str)
    requires
        in_order(texts(old(v)@)),
    ensures
        in_order(texts(final(v)@)),
        forall|low: Seq<char>| #[trigger] alike(texts(final(v)@), low) == (if lowered(name@) == low {
            alike(texts(old(v)@), low).push(name@)
        } else {
            alike(texts(old(v)@), low)
        }),
{
    let ghost was = texts(v@);
    let mut k: usize = v.len();
    let mut i: usize = 0;
    while i < v.len()
        invariant_except_break
            k == v@.len(),
        invariant
            i <= v@.len(),
            v@ == old(v)@,
            was == texts(v@),
            in_order(was),
            forall|j: int| 0 <= j < i ==> !goes_before(name@, #[trigger] was[j]),
        ensures
            k <= v@.len(),
            v@ == old(v)@,
            forall|j: int| 0 <= j < k ==> !goes_before(name@, #[trigger] was[j]),
            forall|j: int| k <= j < v@.len() ==> goes_before(name@, #[trigger] was[j]),
        decreases v@.len() - i,
    {
        if comes_before(name, v[i].as_str()) {
            k = i;
            proof {
                assert(was[i as int] == v@[i as int]@);
                the_rest_comes_after(was, i as int, name@);
            }
            break;
        }
        proof {
            assert(was[i as int] == v@[i as int]@);
        }
        i = i + 1;
    }
    let t: String = copy_text(name);
    v.insert(k, t);
    proof {
        assert(texts(v@) =~= was.insert(k as int, name@));
        put_in_place(was, k as int, name@, texts(v@));
    }
}

/// The profiles among the names of the files in the profile directory, in
/// menu order.
pub fn profiles(files: &[String]) -> (r: Vec<String>)
    ensures
        menu_order(texts(files@), texts(r@)),
{
    let mut r: Vec<String> = Vec::new();
    let ghost all = texts(files@);
    let mut i: usize = 0;
    proof {
        reveal(Seq::filter);
        assert(texts(r@) =~= Seq::<Seq<char>>::empty());
        assert(all.take(0) =~= Seq::<Seq<char>>::empty());
    }
    while i < files.len()
        invariant
            i <= files@.len(),
            all == texts(files@),
            menu_order(all.take(i as int), texts(r@)),
        decreases files@.len() - i,
    {
        let name: &str = files[i].as_str();
        let ghost was = texts(r@);
        proof {
            assert(all[i as int] == name@);
            assert(all.take(i + 1) =~= all.take(i as int).push(name@));
            inis_of_push(all.take(i as int), name@);
        }
        if has_ini(name) {
            put_in(&mut r, name);
            proof {
                assert forall|low: Seq<char>| #[trigger] alike(texts(r@), low) == alike(inis(all.take(i + 1)), low) by {
                    alike_of_push(inis(all.take(i as int)), name@, low);
                    assert(alike(was, low) == alike(inis(all.take(i as int)), low));
                }
            }
        } else {
            assert(menu_order(all.take(i + 1), texts(r@)));
        }
        i = i + 1;
    }
    proof {
        assert(all.take(all.len() as int) =~= all);
    }
    r
}

/// Where the last `\` or `/` stands, or -1.
pub open spec fn last_slash(s: Seq<char>) -> int
    decreases s.len(),
{
    if s.len() == 0 {
        -1
    } else if s.last() == '\\' || s.last() == '/' {
        s.len() - 1
    } else {
        last_slash(s.drop_last())
    }
}

/// The file name part of a path.
pub open spec fn file_part(path: Seq<char>) -> Seq<char> {
    path.skip(last_slash(path) + 1)
}

/// The file name part of what `AlternativeFile=` holds, given as it was read.
pub fn current(value: &[u16]) -> (r: String)
    ensures
        r@ == file_part(utf16::decoded(value@, seq!['\u{fffd}'])),
{
    let whole: String = utf16::decode_lossy(value);
    let chars: Vec<char> = text::chars_of(whole.as_str());
    let mut n: usize = chars.len();
    proof {
        assert(chars@.take(n as int) =~= chars@);
    }
    while n > 0 && chars[n - 1] != '\\' && chars[n - 1] != '/'
        invariant
            n <= chars@.len(),
            last_slash(chars@.take(n as int)) == last_slash(chars@),
        decreases n,
    {
        proof {
            assert(chars@.take(n as int).drop_last() =~= chars@.take(n - 1));
            assert(chars@.take(n as int).last() == chars@[n - 1]);
        }
        n = n - 1;
    }
    proof {
        if n > 0 {
            assert(chars@.take(n as int).last() == chars@[n - 1]);
        }
        assert(last_slash(chars@) + 1 == n);
    }
    let part: &[char] = slice_subrange(chars.as_slice(), n, chars.len());
    proof {
        assert(part@ =~= chars@.skip(n as int));
    }
    text::string_of(part)
}

/// What `AlternativeFile=` is to hold for a profile of the directory.
pub open spec fn selection_of(name: Seq<char>) -> Seq<char> {
    "ini\\"@ + name
}

pub fn selection(name: &str) -> (r: String)
    ensures
        r@ == selection_of(name@),
{
    let mut s: String = "ini\\".to_owned();
    s.append(name);
    s
}

/// A name without the `.ini`s that it ends in.
pub open spec fn without_ini(s: Seq<char>) -> Seq<char>
    decreases s.len(),
{
    if s.len() >= 4 && s.skip(s.len() - 4) == seq!['.', 'i', 'n', 'i'] {
        without_ini(s.take(s.len() - 4))
    } else {
        s
    }
}

/// What the menu calls a profile.
pub fn label(name: &str) -> (r: String)
    ensures
        r@ == without_ini(name@),
{
    let chars: Vec<char> = text::chars_of(name);
    let mut n: usize = chars.len();
    proof {
        assert(chars@.take(n as int) =~= chars@);
    }
    while n >= 4 && chars[n - 4] == '.' && chars[n - 3] == 'i' && chars[n - 2] == 'n' && chars[n - 1] == 'i'
        invariant
            n <= chars@.len(),
            without_ini(chars@.take(n as int)) == without_ini(chars@),
        decreases n,
    {
        proof {
            let s = chars@.take(n as int);
            assert(s.skip(s.len() - 4) =~= seq!['.', 'i', 'n', 'i']);
            assert(s.take(s.len() - 4) =~= chars@.take(n - 4));
        }
        n = n - 4;
    }
    proof {
        let s = chars@.take(n as int);
        if s.len() >= 4 && s.skip(s.len() - 4) == seq!['.', 'i', 'n', 'i'] {
            let tail = s.skip(s.len() - 4);
            assert(tail[0] == '.' && tail[1] == 'i' && tail[2] == 'n' && tail[3] == 'i');
            assert(tail[0] == chars@[n - 4] && tail[1] == chars@[n - 3] && tail[2] == chars@[n - 2] && tail[3]
                == chars@[n - 1]);
        }
    }
    let part: &[char] = slice_subrange(chars.as_slice(), 0, n);
    proof {
        assert(part@ =~= chars@.take(n as int));
    }
    text::string_of(part)
}

// ---- the menu ----

pub const ID_ENABLED: usize = 1;

pub const ID_EXIT: usize = 2;

pub const ID_RELOAD: usize = 3;

pub const ID_VERSION: usize = 4;

pub const ID_CUSTOM: usize = 5;

pub const ID_CUSTOM_EDIT: usize = 6;

pub const ID_RESTART: usize = 7;

pub const ID_PROFILE_BASE: usize = 100;

pub const ID_SYSFONT_DEFAULT: usize = 200;

pub const ID_SYSFONT_BASE: usize = 201;

/// An item of a menu.
#[derive(Debug)]
pub enum Item {
    Command { id: usize, text: String, checked: bool, greyed: bool },
    Separator,
    /// Opens the menu of the profiles.
    Profiles { text: String },
    /// Opens the menu of the system fonts.
    Fonts { text: String },
}

/// An item, over mathematical text.
pub enum Shown {
    Command { id: int, text: Seq<char>, checked: bool, greyed: bool },
    Separator,
    Profiles { text: Seq<char> },
    Fonts { text: Seq<char> },
}

impl View for Item {
    type V = Shown;

    open spec fn view(&self) -> Shown {
        match *self {
            Item::Command { id, text, checked, greyed } => Shown::Command {
                id: id as int,
                text: text@,
                checked,
                greyed,
            },
            Item::Separator => Shown::Separator,
            Item::Profiles { text } => Shown::Profiles { text: text@ },
            Item::Fonts { text } => Shown::Fonts { text: text@ },
        }
    }
}

pub open spec fn items(v: Seq<Item>) -> Seq<Shown> {
    Seq::new(v.len(), |i: int| v[i]@)
}

pub open spec fn plain_item(id: int, text: Seq<char>) -> Shown {
    Shown::Command { id, text, checked: false, greyed: false }
}

/// The profiles, the one in use checked; then the custom profile, greyed
/// where there is none yet, and its dialog.
pub open spec fn profile_items(names: Seq<Seq<char>>, current: Seq<char>, custom: bool, s: Strings) -> Seq<Shown> {
    Seq::new(
        names.len(),
        |i: int|
            Shown::Command {
                id: ID_PROFILE_BASE + i,
                text: without_ini(names[i]),
                checked: text::same_letters(names[i], current),
                greyed: false,
            },
    ) + seq![
        Shown::Separator,
        Shown::Command {
            id: ID_CUSTOM as int,
            text: s.custom@,
            checked: text::same_letters(custom::FILE_NAME@, current),
            greyed: !custom,
        },
        plain_item(ID_CUSTOM_EDIT as int, s.custom_edit@),
    ]
}

/// The way back to the default, then the fonts, the one in use checked.
pub open spec fn font_items(face: Seq<char>, s: Strings) -> Seq<Shown> {
    seq![plain_item(ID_SYSFONT_DEFAULT as int, s.sysfont_default@), Shown::Separator] + Seq::new(
        sysfont::FONTS@.len(),
        |i: int|
            Shown::Command {
                id: ID_SYSFONT_BASE + i,
                text: sysfont::FONTS@[i]@,
                checked: face == sysfont::FONTS@[i]@,
                greyed: false,
            },
    )
}

pub open spec fn main_items(enabled: bool, version: Seq<char>, s: Strings) -> Seq<Shown> {
    seq![
        Shown::Command { id: ID_ENABLED as int, text: s.enabled@, checked: enabled, greyed: false },
        Shown::Profiles { text: s.profile@ },
        plain_item(ID_RELOAD as int, s.reload@),
        Shown::Fonts { text: s.sysfont@ },
        Shown::Separator,
        plain_item(ID_VERSION as int, s.version@ + " "@ + version),
        plain_item(ID_RESTART as int, s.restart@),
        plain_item(ID_EXIT as int, s.exit@),
    ]
}

fn item(id: usize, text: &str, checked: bool) -> (r: Item)
    ensures
        r@ == (Shown::Command { id: id as int, text: text@, checked, greyed: false }),
{
    Item::Command { id, text: text.to_owned(), checked, greyed: false }
}

/// The menu of the profiles.
pub fn profile_menu(names: &[String], current: &str, custom: bool, s: &Strings) -> (r: Vec<Item>)
    requires
        ID_PROFILE_BASE + names@.len() <= usize::MAX,
    ensures
        items(r@) == profile_items(texts(names@), current@, custom, *s),
{
    let chars: Vec<char> = text::chars_of(current);
    let file: Vec<char> = text::chars_of(custom::FILE_NAME);
    let ghost want = profile_items(texts(names@), current@, custom, *s);
    let mut r: Vec<Item> = Vec::new();
    let mut i: usize = 0;
    while i < names.len()
        invariant
            i <= names@.len() <= usize::MAX - ID_PROFILE_BASE,
            chars@ == current@,
            want == profile_items(texts(names@), current@, custom, *s),
            r@.len() == i,
            forall|j: int| 0 <= j < i ==> (#[trigger] r@[j])@ == want[j],
        decreases names@.len() - i,
    {
        let name: Vec<char> = text::chars_of(names[i].as_str());
        let checked: bool = text::eq_ignore_case(name.as_slice(), chars.as_slice());
        let text: String = label(names[i].as_str());
        r.push(item(ID_PROFILE_BASE + i, text.as_str(), checked));
        proof {
            assert(texts(names@)[i as int] == names@[i as int]@);
        }
        i = i + 1;
    }
    r.push(Item::Separator);
    let used: bool = text::eq_ignore_case(file.as_slice(), chars.as_slice());
    r.push(Item::Command { id: ID_CUSTOM, text: s.custom.to_owned(), checked: used, greyed: !custom });
    r.push(item(ID_CUSTOM_EDIT, s.custom_edit, false));
    proof {
        assert(items(r@) =~= want);
    }
    r
}

/// The menu of the system fonts; `face` is the one in use.
pub fn font_menu(face: &str, s: &Strings) -> (r: Vec<Item>)
    ensures
        items(r@) == font_items(face@, *s),
{
    let chars: Vec<char> = text::chars_of(face);
    let ghost want = font_items(face@, *s);
    let mut r: Vec<Item> = Vec::new();
    r.push(item(ID_SYSFONT_DEFAULT, s.sysfont_default, false));
    r.push(Item::Separator);
    let fonts: [&'static str; 4] = sysfont::FONTS;
    let mut i: usize = 0;
    while i < 4
        invariant
            i <= 4,
            chars@ == face@,
            fonts == sysfont::FONTS,
            want == font_items(face@, *s),
            r@.len() == i + 2,
            forall|j: int| 0 <= j < i + 2 ==> (#[trigger] r@[j])@ == want[j],
        decreases 4 - i,
    {
        let checked: bool = is_text(chars.as_slice(), fonts[i]);
        r.push(item(ID_SYSFONT_BASE + i, fonts[i], checked));
        i = i + 1;
    }
    proof {
        assert(items(r@) =~= want);
    }
    r
}

/// The tray's menu.
pub fn main_menu(enabled: bool, version: &str, s: &Strings) -> (r: Vec<Item>)
    ensures
        items(r@) == main_items(enabled, version@, *s),
{
    let mut about: String = s.version.to_owned();
    about.append(" ");
    about.append(version);
    let mut r: Vec<Item> = Vec::new();
    r.push(item(ID_ENABLED, s.enabled, enabled));
    r.push(Item::Profiles { text: s.profile.to_owned() });
    r.push(item(ID_RELOAD, s.reload, false));
    r.push(Item::Fonts { text: s.sysfont.to_owned() });
    r.push(Item::Separator);
    r.push(item(ID_VERSION, about.as_str(), false));
    r.push(item(ID_RESTART, s.restart, false));
    r.push(item(ID_EXIT, s.exit, false));
    proof {
        assert(items(r@) =~= main_items(enabled, version@, *s));
    }
    r
}

// ---- commands ----

/// What a command of the menu does.
#[derive(Clone, Copy, Debug, PartialEq, Eq, Structural)]
pub enum Command {
    Toggle,
    Exit,
    Reload,
    About,
    UseCustom,
    EditCustom,
    Restart,
    RestoreFont,
    /// Use this one of the system fonts.
    Font(usize),
    /// Select this one of the profiles.
    Profile(usize),
    Nothing,
}

pub open spec fn command_of(id: int, profiles: int) -> Command {
    if id == ID_ENABLED {
        Command::Toggle
    } else if id == ID_EXIT {
        Command::Exit
    } else if id == ID_RELOAD {
        Command::Reload
    } else if id == ID_VERSION {
        Command::About
    } else if id == ID_CUSTOM {
        Command::UseCustom
    } else if id == ID_CUSTOM_EDIT {
        Command::EditCustom
    } else if id == ID_RESTART {
        Command::Restart
    } else if id == ID_SYSFONT_DEFAULT {
        Command::RestoreFont
    } else if ID_SYSFONT_BASE <= id < ID_SYSFONT_BASE + 4 {
        Command::Font((id - ID_SYSFONT_BASE) as usize)
    } else if ID_PROFILE_BASE <= id < ID_PROFILE_BASE + profiles {
        Command::Profile((id - ID_PROFILE_BASE) as usize)
    } else {
        Command::Nothing
    }
}

/// What the command with this id does, where the menu shows so many profiles.
pub fn handle_command(id: usize, profiles: usize) -> (r: Command)
    ensures
        r == command_of(id as int, profiles as int),
{
    match id {
        ID_ENABLED => Command::Toggle,
        ID_EXIT => Command::Exit,
        ID_RELOAD => Command::Reload,
        ID_VERSION => Command::About,
        ID_CUSTOM => Command::UseCustom,
        ID_CUSTOM_EDIT => Command::EditCustom,
        ID_RESTART => Command::Restart,
        ID_SYSFONT_DEFAULT => Command::RestoreFont,
        _ => {
            if ID_SYSFONT_BASE <= id && id < ID_SYSFONT_BASE + 4 {
                Command::Font(id - ID_SYSFONT_BASE)
            } else if id >= ID_PROFILE_BASE && id - ID_PROFILE_BASE < profiles {
                Command::Profile(id - ID_PROFILE_BASE)
            } else {
                Command::Nothing
            }
        },
    }
}

/// What the menu shows does what it says: a profile's item selects it. (The
/// ids of the 101st to the 105th profile are those of the system fonts.)
pub proof fn a_profile_item_selects_its_profile(
    names: Seq<Seq<char>>,
    current: Seq<char>,
    custom: bool,
    s: Strings,
    i: int,
)
    requires
        0 <= i < names.len() <= usize::MAX,
        !(ID_SYSFONT_DEFAULT <= ID_PROFILE_BASE + i < ID_SYSFONT_BASE + 4),
    ensures
        match profile_items(names, current, custom, s)[i] {
            Shown::Command { id, .. } => command_of(id, names.len() as int) == Command::Profile(i as usize),
            _ => false,
        },
{
}

/// A system font's item uses that font.
pub proof fn a_font_item_uses_its_font(face: Seq<char>, s: Strings, i: int, profiles: int)
    requires
        0 <= i < 4,
    ensures
        match font_items(face, s)[i + 2] {
            Shown::Command { id, .. } => command_of(id, profiles) == Command::Font(i as usize),
            _ => false,
        },
{
}

// ---- the hook ----

/// Why the hook was not installed.
#[derive(Debug)]
pub enum HookError {
    /// Loading, looking up the export, or setting the hook failed.
    Install,
    /// The hook procedure is not where it belongs: hooking would crash every
    /// process that still holds an older core.
    Layout,
    /// These processes hold a core whose hook procedure is elsewhere: hooking
    /// would crash them.
    Stale(Vec<String>),
}

/// Whether the hook may be set, from where the core's file has its hook
/// procedure (`None` where there is no such file, or no such export) and from
/// who holds a stale core. Asked before the core is loaded.
pub fn guard(file_rva: Option<usize>, holders: Vec<String>) -> (r: Result<(), HookError>)
    ensures
        match r {
            Ok(()) => file_rva == Some(stale::HOOK_PROC_RVA) && holders@.len() == 0,
            Err(HookError::Install) => file_rva is None,
            Err(HookError::Layout) => file_rva is Some && file_rva != Some(stale::HOOK_PROC_RVA),
            Err(HookError::Stale(names)) => file_rva == Some(stale::HOOK_PROC_RVA) && holders@.len() > 0 && names
                == holders,
        },
{
    match file_rva {
        Some(rva) if rva == stale::HOOK_PROC_RVA => {
            if holders.len() == 0 {
                Ok(())
            } else {
                Err(HookError::Stale(holders))
            }
        },
        Some(_) => Err(HookError::Layout),
        None => Err(HookError::Install),
    }
}

/// Names with a comma and a space between them.
pub open spec fn listed(v: Seq<Seq<char>>) -> Seq<char>
    decreases v.len(),
{
    if v.len() == 0 {
        seq![]
    } else if v.len() == 1 {
        v[0]
    } else {
        listed(v.drop_last()) + seq![',', ' '] + v.last()
    }
}

/// What to tell about a hook that was not installed.
pub open spec fn hook_message_text(e: HookError, s: Strings) -> Seq<char> {
    match e {
        HookError::Install => s.err_hook@,
        HookError::Layout => s.err_rva@,
        HookError::Stale(names) => s.err_stale@ + seq!['\n', '\n'] + listed(texts(names@)),
    }
}

fn list_names(names: &Vec<String>) -> (r: String)
    ensures
        r@ == listed(texts(names@)),
{
    let mut out: String = "".to_owned();
    let ghost all = texts(names@);
    let mut i: usize = 0;
    proof {
        reveal_strlit("");
        assert(out@ =~= listed(all.take(0)));
    }
    while i < names.len()
        invariant
            i <= names@.len(),
            all == texts(names@),
            out@ == listed(all.take(i as int)),
        decreases names@.len() - i,
    {
        proof {
            reveal_strlit(", ");
            assert(all.take(i + 1).drop_last() =~= all.take(i as int));
            assert(all.take(i + 1).last() == names@[i as int]@);
        }
        let ghost was = out@;
        if i > 0 {
            out.append(", ");
        }
        out.append(names[i].as_str());
        proof {
            if i > 0 {
                assert(out@ =~= was + seq![',', ' '] + names@[i as int]@);
            } else {
                assert(was =~= seq![]);
                assert(out@ =~= names@[i as int]@);
            }
        }
        i = i + 1;
    }
    proof {
        assert(all.take(all.len() as int) =~= all);
    }
    out
}

pub fn hook_message(e: &HookError, s: &Strings) -> (r: String)
    ensures
        r@ == hook_message_text(*e, *s),
{
    match e {
        HookError::Install => s.err_hook.to_owned(),
        HookError::Layout => s.err_rva.to_owned(),
        HookError::Stale(names) => {
            let mut out: String = s.err_stale.to_owned();
            out.append("\n\n");
            let list: String = list_names(names);
            out.append(list.as_str());
            proof {
                reveal_strlit("\n\n");
                assert(out@ =~= s.err_stale@ + seq!['\n', '\n'] + listed(texts(names@)));
            }
            out
        },
    }
}

/// What the About box says: the version, the licence, where the source is,
/// which rendering core it has, and the credit that FreeType asks for.
pub open spec fn about_text(version: Seq<char>, source: Seq<char>, core: Seq<char>) -> Seq<char> {
    "Font-tuner "@ + version + "\nLicense: GPL-3.0-only\nSource: "@ + source + "\n\nRendering core: "@ + core
        + ", statically linked with\nthe FreeType library.\n"@
        + "Portions of this software are copyright \u{a9} The FreeType\nProject (www.freetype.org). All rights reserved."@
}

/// The text of the About box, for a build of `version` from `source` with the
/// rendering core that `core` describes.
pub fn about(version: &str, source: &str, core: &str) -> (r: String)
    ensures
        r@ == about_text(version@, source@, core@),
{
    let mut r: String = "Font-tuner ".to_owned();
    r.append(version);
    r.append("\nLicense: GPL-3.0-only\nSource: ");
    r.append(source);
    r.append("\n\nRendering core: ");
    r.append(core);
    r.append(", statically linked with\nthe FreeType library.\n");
    r.append("Portions of this software are copyright \u{a9} The FreeType\nProject (www.freetype.org). All rights reserved.");
    r
}

// ---- the icon ----

/// The icon for a light taskbar, and the one for a dark taskbar.
pub const ICON_LIGHT: usize = 1;

pub const ICON_DARK: usize = 2;

/// Whether the taskbar is light, from what the registry gave: dark where it
/// has no value.
pub fn taskbar_is_light(value: Option<u32>) -> (r: bool)
    ensures
        r == (value is Some && value != Some(0u32)),
{
    match value {
        Some(v) => v != 0,
        None => false,
    }
}

pub fn icon_for(light: bool) -> (r: usize)
    ensures
        r == (if light {
            ICON_LIGHT
        } else {
            ICON_DARK
        }),
{
    if light {
        ICON_LIGHT
    } else {
        ICON_DARK
    }
}

/// Whether the icon has to be picked again: the theme is another one than the
/// icon is for, or there is no icon.
pub fn picks_icon(light: bool, shown: bool, valid: bool) -> (r: bool)
    ensures
        r == (light != shown || !valid),
{
    light != shown || !valid
}

/// How many code units the icon's tip has room for.
pub const TIP_UNITS: usize = 128;

/// The tip, with a 0 behind it, as far as there is room.
pub open spec fn tip_units(text: Seq<char>) -> Seq<u16> {
    let all = utf16::encoded(text).push(0);
    all.take(
        if all.len() < TIP_UNITS {
            all.len() as int
        } else {
            TIP_UNITS as int
        },
    )
}

pub fn tip(enabled: bool, s: &Strings) -> (r: Vec<u16>)
    ensures
        r@ == tip_units(
            if enabled {
                s.tip_on@
            } else {
                s.tip_off@
            },
        ),
{
    let text: &str = if enabled {
        s.tip_on
    } else {
        s.tip_off
    };
    let mut all: Vec<u16> = utf16::wide(text);
    if all.len() > TIP_UNITS {
        all.truncate(TIP_UNITS);
    }
    proof {
        assert(all@ =~= tip_units(text@));
    }
    all
}

// ---- messages ----

pub const WM_DESTROY: u32 = 0x0002;

pub const WM_SETTINGCHANGE: u32 = 0x001a;

pub const WM_CONTEXTMENU: u32 = 0x007b;

pub const WM_LBUTTONUP: u32 = 0x0202;

pub const WM_RBUTTONUP: u32 = 0x0205;

/// What the icon tells of itself.
pub const WM_TRAY: u32 = 0x8001;

/// What a message asks of the tray's window.
#[derive(Clone, Copy, Debug, PartialEq, Eq, Structural)]
pub enum Message {
    /// The icon was clicked: open the menu.
    OpenMenu,
    /// The icon tells something else.
    Ignored,
    /// The theme may have changed.
    Theme,
    Destroyed,
    /// The taskbar is a new one: put the icon back.
    NewTaskbar,
    /// Not for the tray.
    Other,
}

pub open spec fn message_of(msg: u32, event: u32, taskbar_created: u32) -> Message {
    if msg == WM_TRAY {
        if event == WM_RBUTTONUP || event == WM_LBUTTONUP || event == WM_CONTEXTMENU {
            Message::OpenMenu
        } else {
            Message::Ignored
        }
    } else if msg == WM_SETTINGCHANGE {
        Message::Theme
    } else if msg == WM_DESTROY {
        Message::Destroyed
    } else if msg != 0 && msg == taskbar_created {
        Message::NewTaskbar
    } else {
        Message::Other
    }
}

/// What message `msg` asks; `event` is what the icon tells, and
/// `taskbar_created` the number of the message that Explorer sends when it
/// has started again.
pub fn message(msg: u32, event: u32, taskbar_created: u32) -> (r: Message)
    ensures
        r == message_of(msg, event, taskbar_created),
{
    if msg == WM_TRAY {
        if event == WM_RBUTTONUP || event == WM_LBUTTONUP || event == WM_CONTEXTMENU {
            Message::OpenMenu
        } else {
            Message::Ignored
        }
    } else if msg == WM_SETTINGCHANGE {
        Message::Theme
    } else if msg == WM_DESTROY {
        Message::Destroyed
    } else if msg != 0 && msg == taskbar_created {
        Message::NewTaskbar
    } else {
        Message::Other
    }
}

// ---- laws ----

/// Sorting the profiles drops none and adds none: a name is in the menu
/// where it is among the ini files.
pub proof fn the_menu_holds_every_profile(v: Seq<Seq<char>>, r: Seq<Seq<char>>, name: Seq<char>)
    requires
        menu_order(v, r),
    ensures
        r.contains(name) <==> v.contains(name) && is_ini(name),
{
    let low = lowered(name);
    assert(alike(r, low) == alike(inis(v), low));
    kept(r, |n: Seq<char>| lowered(n) == low, name);
    kept(inis(v), |n: Seq<char>| lowered(n) == low, name);
    kept(v, |n: Seq<char>| is_ini(n), name);
}

/// What a filter keeps.
proof fn kept(v: Seq<Seq<char>>, p: spec_fn(Seq<char>) -> bool, x: Seq<char>)
    ensures
        v.filter(p).contains(x) <==> v.contains(x) && p(x),
    decreases v.len(),
{
    reveal(Seq::filter);
    if v.len() > 0 {
        let rest = v.drop_last();
        kept(rest, p, x);
        assert(v =~= rest.push(v.last()));
        contains_push(rest, v.last(), x);
        contains_push(rest.filter(p), v.last(), x);
    }
}

proof fn contains_push(v: Seq<Seq<char>>, n: Seq<char>, x: Seq<char>)
    ensures
        v.push(n).contains(x) <==> v.contains(x) || x == n,
{
    if v.contains(x) {
        let i = choose|i: int| 0 <= i < v.len() && v[i] == x;
        assert(v.push(n)[i] == x);
    }
    if x == n {
        assert(v.push(n)[v.len() as int] == x);
    }
    if v.push(n).contains(x) {
        let i = choose|i: int| 0 <= i < v.push(n).len() && v.push(n)[i] == x;
        if i < v.len() {
            assert(v[i] == x);
        }
    }
}

/// A profile is a file whose name ends in `.ini`, in letters of either case.
pub proof fn profiles_end_in_ini(stem: Seq<char>, end: Seq<char>)
    requires
        end.len() == 4,
    ensures
        is_ini(stem + end) <==> end[0] == '.' && (end[1] == 'i' || end[1] == 'I') && (end[2] == 'n' || end[2] == 'N')
            && (end[3] == 'i' || end[3] == 'I'),
        stem.len() < 4 ==> !is_ini(stem),
{
    reveal_strlit(".ini");
    let low = lowered(stem + end);
    let tail = low.skip(low.len() - 4);
    assert forall|i: int| 0 <= i < 4 implies #[trigger] tail[i] == text::lower(end[i]) by {
        assert((stem + end)[stem.len() + i] == end[i]);
    }
    assert(tail[0] == text::lower(end[0]) && tail[1] == text::lower(end[1]));
    assert(tail[2] == text::lower(end[2]) && tail[3] == text::lower(end[3]));
    if tail == ".ini"@ {
        assert(".ini"@[0] == '.' && ".ini"@[1] == 'i' && ".ini"@[2] == 'n' && ".ini"@[3] == 'i');
    }
    if end[0] == '.' && (end[1] == 'i' || end[1] == 'I') && (end[2] == 'n' || end[2] == 'N') && (end[3] == 'i'
        || end[3] == 'I') {
        assert(tail =~= ".ini"@);
    }
}

/// The name is that of profile `i` of those that come with the program, in
/// letters of either case.
pub open spec fn known_profile(name: Seq<char>, i: int) -> bool {
    text::same_letters(
        name,
        if i == 0 {
            "Clean Greyscale.ini"@
        } else if i == 1 {
            "Clean Dark Greyscale.ini"@
        } else if i == 2 {
            "Accurate.ini"@
        } else if i == 3 {
            "Clean Sharp.ini"@
        } else {
            "Clean Sharp Dark.ini"@
        },
    )
}

/// The profiles that come with the program stand first in the menu, in their
/// order; the others stand after them, by the alphabet.
pub proof fn the_known_profiles_come_first(a: Seq<char>, b: Seq<char>, i: int, j: int)
    requires
        0 <= i < j < 5,
        known_profile(a, i),
    ensures
        known_profile(b, j) ==> goes_before(a, b) && !goes_before(b, a),
        (forall|k: int| 0 <= k < 5 ==> !known_profile(b, k)) ==> goes_before(a, b) && !goes_before(b, a),
{
    profile_ranks(a);
    profile_ranks(b);
    assert(known_profile(a, 0) || known_profile(a, 1) || known_profile(a, 2) || known_profile(a, 3));
}

/// Two profiles that do not come with the program are ordered by their names
/// in small letters.
pub proof fn other_profiles_go_by_the_alphabet(a: Seq<char>, b: Seq<char>)
    requires
        forall|k: int| 0 <= k < 5 ==> !known_profile(a, k),
        forall|k: int| 0 <= k < 5 ==> !known_profile(b, k),
    ensures
        goes_before(a, b) <==> text::before(lowered(a), lowered(b)),
        lowered(a).len() == a.len(),
        forall|i: int| 0 <= i < a.len() ==> #[trigger] lowered(a)[i] == text::lower(a[i]),
{
    profile_ranks(a);
    profile_ranks(b);
}

proof fn profile_ranks(name: Seq<char>)
    ensures
        forall|i: int| 0 <= i < 5 ==> (#[trigger] known_profile(name, i) <==> rank(lowered(name)) == i),
        (forall|i: int| 0 <= i < 5 ==> !#[trigger] known_profile(name, i)) ==> rank(lowered(name)) == 5,
{
    reveal_strlit("clean greyscale.ini");
    reveal_strlit("clean dark greyscale.ini");
    reveal_strlit("accurate.ini");
    reveal_strlit("clean sharp.ini");
    reveal_strlit("clean sharp dark.ini");
    reveal_strlit("Clean Greyscale.ini");
    reveal_strlit("Clean Dark Greyscale.ini");
    reveal_strlit("Accurate.ini");
    reveal_strlit("Clean Sharp.ini");
    reveal_strlit("Clean Sharp Dark.ini");
    assert(lowered("Clean Greyscale.ini"@) =~= "clean greyscale.ini"@);
    assert(lowered("Clean Dark Greyscale.ini"@) =~= "clean dark greyscale.ini"@);
    assert(lowered("Accurate.ini"@) =~= "accurate.ini"@);
    assert(lowered("Clean Sharp.ini"@) =~= "clean sharp.ini"@);
    assert(lowered("Clean Sharp Dark.ini"@) =~= "clean sharp dark.ini"@);
    same_when_lowered(name, "Clean Greyscale.ini"@);
    same_when_lowered(name, "Clean Dark Greyscale.ini"@);
    same_when_lowered(name, "Accurate.ini"@);
    same_when_lowered(name, "Clean Sharp.ini"@);
    same_when_lowered(name, "Clean Sharp Dark.ini"@);
    assert(known_profile(name, 0) <==> rank(lowered(name)) == 0);
    assert(known_profile(name, 1) <==> rank(lowered(name)) == 1);
    assert(known_profile(name, 2) <==> rank(lowered(name)) == 2);
    assert(known_profile(name, 3) <==> rank(lowered(name)) == 3);
    assert(known_profile(name, 4) <==> rank(lowered(name)) == 4);
}

proof fn same_when_lowered(a: Seq<char>, b: Seq<char>)
    ensures
        text::same_letters(a, b) <==> lowered(a) == lowered(b),
{
    if text::same_letters(a, b) {
        assert(lowered(a) =~= lowered(b));
    }
    if lowered(a) == lowered(b) {
        assert(lowered(a).len() == lowered(b).len());
        assert forall|i: int| 0 <= i < a.len() implies text::lower(a[i]) == text::lower(b[i]) by {
            assert(lowered(a)[i] == lowered(b)[i]);
        }
    }
}

/// The file name of a path is what stands after its last slash, of either
/// kind, or all of it.
pub proof fn the_file_name_stands_after_the_last_slash(directory: Seq<char>, slash: char, file: Seq<char>)
    requires
        slash == '\\' || slash == '/',
        forall|i: int| 0 <= i < file.len() ==> #[trigger] file[i] != '\\' && file[i] != '/',
    ensures
        file_part(directory + seq![slash] + file) == file,
        file_part(file) == file,
        file_part(selection_of(file)) == file,
{
    a_last_slash_is_there(directory + seq![slash], file);
    a_last_slash_is_there(seq![], file);
    assert(Seq::<char>::empty() + file =~= file);
    let path = directory + seq![slash] + file;
    assert(path.skip(directory.len() as int + 1) =~= file);
    assert(file.skip(0) =~= file);
    reveal_strlit("ini\\");
    assert("ini\\"@.last() == '\\');
    a_last_slash_is_there("ini\\"@, file);
    assert(selection_of(file).skip(4) =~= file);
}

proof fn a_last_slash_is_there(before: Seq<char>, file: Seq<char>)
    requires
        before.len() > 0 ==> before.last() == '\\' || before.last() == '/',
        forall|i: int| 0 <= i < file.len() ==> #[trigger] file[i] != '\\' && file[i] != '/',
    ensures
        last_slash(before + file) == before.len() - 1,
    decreases file.len(),
{
    if file.len() > 0 {
        assert((before + file).last() == file[file.len() - 1]);
        assert((before + file).drop_last() =~= before + file.drop_last());
        a_last_slash_is_there(before, file.drop_last());
    } else {
        assert(before + file =~= before);
    }
}

/// A profile is called by its file's name without the `.ini` behind it; any
/// other end stays.
pub proof fn the_menu_leaves_out_the_ending(name: Seq<char>, end: Seq<char>)
    requires
        end.len() == 4,
    ensures
        end == seq!['.', 'i', 'n', 'i'] ==> without_ini(name + end) == without_ini(name),
        end != seq!['.', 'i', 'n', 'i'] ==> without_ini(name + end) == name + end,
        name.len() < 4 ==> without_ini(name) == name,
{
    let s = name + end;
    assert(s.skip(s.len() - 4) =~= end);
    assert(s.take(s.len() - 4) =~= name);
}

/// The menu of the profiles, item by item: each profile under 100 and its
/// place, checked if it is the one in use; a separator; the custom profile (5),
/// greyed where there is none; and its dialog (6).
pub proof fn the_items_of_the_profile_menu(
    names: Seq<Seq<char>>,
    current: Seq<char>,
    custom: bool,
    s: Strings,
    i: int,
)
    requires
        0 <= i < names.len(),
    ensures
        ({
            let m = profile_items(names, current, custom, s);
            let n = names.len() as int;
            &&& m.len() == n + 3
            &&& m[i] == (Shown::Command {
                id: 100 + i,
                text: without_ini(names[i]),
                checked: text::same_letters(names[i], current),
                greyed: false,
            })
            &&& m[n] == Shown::Separator
            &&& m[n + 1] == (Shown::Command {
                id: 5,
                text: s.custom@,
                checked: text::same_letters("Custom.ini"@, current),
                greyed: !custom,
            })
            &&& m[n + 2] == (Shown::Command { id: 6, text: s.custom_edit@, checked: false, greyed: false })
        }),
{
}

/// The menu of the system fonts, item by item: the way back (200), a
/// separator, and each font under 201 and its place, checked if it is the one
/// in use.
pub proof fn the_items_of_the_font_menu(face: Seq<char>, s: Strings, i: int)
    requires
        0 <= i < 4,
    ensures
        ({
            let m = font_items(face, s);
            &&& m.len() == 6
            &&& m[0] == (Shown::Command { id: 200, text: s.sysfont_default@, checked: false, greyed: false })
            &&& m[1] == Shown::Separator
            &&& m[2 + i] == (Shown::Command {
                id: 201 + i,
                text: sysfont::FONTS@[i]@,
                checked: face == sysfont::FONTS@[i]@,
                greyed: false,
            })
        }),
{
}

/// The tray's menu, item by item.
pub proof fn the_items_of_the_main_menu(enabled: bool, version: Seq<char>, s: Strings)
    ensures
        ({
            let m = main_items(enabled, version, s);
            &&& m.len() == 8
            &&& m[0] == (Shown::Command { id: 1, text: s.enabled@, checked: enabled, greyed: false })
            &&& m[1] == (Shown::Profiles { text: s.profile@ })
            &&& m[2] == (Shown::Command { id: 3, text: s.reload@, checked: false, greyed: false })
            &&& m[3] == (Shown::Fonts { text: s.sysfont@ })
            &&& m[4] == Shown::Separator
            &&& m[5] == (Shown::Command {
                id: 4,
                text: s.version@ + seq![' '] + version,
                checked: false,
                greyed: false,
            })
            &&& m[6] == (Shown::Command { id: 7, text: s.restart@, checked: false, greyed: false })
            &&& m[7] == (Shown::Command { id: 2, text: s.exit@, checked: false, greyed: false })
        }),
{
    reveal_strlit(" ");
    assert(" "@ =~= seq![' ']);
}

/// What each number is the command of: 1 to 7 and 200 their own, 201 to 204
/// the system fonts, and from 100 on as many profiles as there are.
pub proof fn numbers_are_these_commands(id: int, profiles: int)
    requires
        0 <= id <= usize::MAX,
        0 <= profiles <= usize::MAX,
    ensures
        ({
            let c = command_of(id, profiles);
            &&& c == Command::Toggle <==> id == 1
            &&& c == Command::Exit <==> id == 2
            &&& c == Command::Reload <==> id == 3
            &&& c == Command::About <==> id == 4
            &&& c == Command::UseCustom <==> id == 5
            &&& c == Command::EditCustom <==> id == 6
            &&& c == Command::Restart <==> id == 7
            &&& c == Command::RestoreFont <==> id == 200
            &&& 201 <= id <= 204 ==> c == Command::Font((id - 201) as usize)
            &&& 100 <= id < 100 + profiles && !(200 <= id <= 204) ==> c == Command::Profile((id - 100) as usize)
            &&& c == Command::Nothing <==> !(1 <= id <= 7) && !(200 <= id <= 204) && !(100 <= id < 100 + profiles)
        }),
{
}

/// Names are listed in their order, with a comma and a blank between two.
pub proof fn names_are_listed_in_order(v: Seq<Seq<char>>, n: Seq<char>)
    ensures
        listed(seq![]) == Seq::<char>::empty(),
        listed(seq![n]) == n,
        v.len() > 0 ==> listed(v.push(n)) == listed(v) + seq![',', ' '] + n,
{
    assert(v.push(n).drop_last() =~= v);
}

/// A hook that was not set is told about by what stopped it; stale cores by
/// the list of who holds them, below the text.
pub proof fn a_failed_hook_is_told_about(e: HookError, s: Strings)
    ensures
        e is Install ==> hook_message_text(e, s) == s.err_hook@,
        e is Layout ==> hook_message_text(e, s) == s.err_rva@,
        e matches HookError::Stale(names) ==> hook_message_text(e, s) == s.err_stale@ + seq!['\n', '\n'] + listed(
            texts(names@),
        ),
        stale::HOOK_PROC_RVA == 0x1000,
{
}

/// The tip is its text and a NUL where that fits into 128 units, and the first
/// 128 of them where it does not.
pub proof fn a_tip_has_128_units(text: Seq<char>)
    ensures
        utf16::encoded(text).len() < 128 ==> tip_units(text) == utf16::encoded(text).push(0),
        utf16::encoded(text).len() >= 128 ==> tip_units(text) == utf16::encoded(text).take(128),
{
    let all = utf16::encoded(text).push(0);
    if utf16::encoded(text).len() < 128 {
        assert(all.take(all.len() as int) =~= all);
    } else {
        assert(all.take(128) =~= utf16::encoded(text).take(128));
    }
}

/// What the numbers of the messages are: the icon's own is `8001`, and it
/// opens the menu on `0202`, `0205` and `007B`; `001A` is a change of the
/// settings, `0002` the end of the window.
pub proof fn messages_by_number(msg: u32, event: u32, taskbar_created: u32)
    ensures
        ({
            let m = message_of(msg, event, taskbar_created);
            &&& m == Message::OpenMenu <==> msg == 0x8001 && (event == 0x202 || event == 0x205 || event == 0x7b)
            &&& m == Message::Ignored <==> msg == 0x8001 && !(event == 0x202 || event == 0x205 || event == 0x7b)
            &&& m == Message::Theme <==> msg == 0x1a
            &&& m == Message::Destroyed <==> msg == 2
            &&& m == Message::NewTaskbar <==> {
                &&& msg == taskbar_created
                &&& msg != 0 && msg != 2 && msg != 0x1a && msg != 0x8001
            }
        }),
{
}

/// The items of a menu, and the names of a list, are shown in their order.
pub proof fn items_keep_their_order(v: Seq<Item>, names: Seq<String>, i: int)
    ensures
        items(v).len() == v.len() && texts(names).len() == names.len(),
        0 <= i < v.len() ==> items(v)[i] == v[i]@,
        0 <= i < names.len() ==> texts(names)[i] == names[i]@,
{
}

/// An item shows what it holds.
pub proof fn an_item_shows_what_it_holds(item: Item)
    ensures
        match item {
            Item::Command { id, text, checked, greyed } => item@ == (Shown::Command {
                id: id as int,
                text: text@,
                checked,
                greyed,
            }),
            Item::Separator => item@ == Shown::Separator,
            Item::Profiles { text } => item@ == (Shown::Profiles { text: text@ }),
            Item::Fonts { text } => item@ == (Shown::Fonts { text: text@ }),
        },
{
}

/// In the menu no profile stands before one that comes before it, and those
/// whose names differ only in case keep the order in which they were found.
pub proof fn the_menu_is_in_order(v: Seq<Seq<char>>, r: Seq<Seq<char>>, i: int, j: int, low: Seq<char>)
    requires
        menu_order(v, r),
        0 <= i < j < r.len(),
    ensures
        !goes_before(r[j], r[i]),
        r.filter(|n: Seq<char>| lowered(n) == low) == v.filter(|n: Seq<char>| is_ini(n)).filter(
            |n: Seq<char>| lowered(n) == low,
        ),
{
    assert(alike(r, low) == alike(inis(v), low));
}

} // verus!
