//! Characters of settings files: trimming, lines, numbers and comparisons.

use vstd::prelude::*;
use vstd::slice::slice_subrange;

verus! {

// ---- single characters ----

/// The characters with Unicode's `White_Space` property.
pub open spec fn white(c: char) -> bool {
    let n = c as u32;
    ||| 0x09 <= n <= 0x0d
    ||| n == 0x20
    ||| n == 0x85
    ||| n == 0xa0
    ||| n == 0x1680
    ||| 0x2000 <= n <= 0x200a
    ||| n == 0x2028
    ||| n == 0x2029
    ||| n == 0x202f
    ||| n == 0x205f
    ||| n == 0x3000
}

pub fn is_white(c: char) -> (r: bool)
    ensures
        r == white(c),
{
    let n: u32 = c as u32;
    (0x09 <= n && n <= 0x0d) || n == 0x20 || n == 0x85 || n == 0xa0 || n == 0x1680
        || (0x2000 <= n && n <= 0x200a) || n == 0x2028 || n == 0x2029 || n == 0x202f || n == 0x205f
        || n == 0x3000
}

/// `A` to `Z` made small; every other character as it is.
pub open spec fn lower(c: char) -> char {
    if 'A' <= c <= 'Z' {
        ((c as u32) + 32) as char
    } else {
        c
    }
}

pub fn to_lower(c: char) -> (r: char)
    ensures
        r == lower(c),
{
    if 'A' <= c && c <= 'Z' {
        ((c as u8) + 32) as char
    } else {
        c
    }
}

pub open spec fn digit(c: char) -> bool {
    '0' <= c <= '9'
}

pub open spec fn digit_value(c: char) -> int {
    (c as u32) - ('0' as u32)
}

pub fn is_digit(c: char) -> (r: bool)
    ensures
        r == digit(c),
{
    '0' <= c && c <= '9'
}

// ---- whole strings ----

/// The characters of `s`, one by one.
pub fn chars_of(s: &str) -> (r: Vec<char>)
    ensures
        r@ == s@,
{
    let mut out: Vec<char> = Vec::new();
    for c in it: s.chars()
        invariant
            out@ == it.seq().take(it.index() as int),
    {
        out.push(c);
    }
    out
}

/// `String::push` puts one character behind the text.
pub assume_specification[ String::push ](s: &mut String, c: char)
    ensures
        final(s)@ == old(s)@.push(c),
;

/// The text that `s` holds, as a string.
pub fn string_of(s: &[char]) -> (r: String)
    ensures
        r@ == s@,
{
    let mut out: String = String::new();
    let mut i: usize = 0;
    while i < s.len()
        invariant
            i <= s@.len(),
            out@ == s@.take(i as int),
        decreases s@.len() - i,
    {
        out.push(s[i]);
        proof {
            assert(s@.take(i + 1) =~= s@.take(i as int).push(s@[i as int]));
        }
        i = i + 1;
    }
    proof {
        assert(s@.take(i as int) =~= s@);
    }
    out
}

/// The two texts differ at most in the case of ASCII letters.
pub open spec fn same_letters(a: Seq<char>, b: Seq<char>) -> bool {
    a.len() == b.len() && forall|i: int| 0 <= i < a.len() ==> lower(a[i]) == lower(b[i])
}

pub fn eq_ignore_case(a: &[char], b: &[char]) -> (r: bool)
    ensures
        r == same_letters(a@, b@),
{
    if a.len() != b.len() {
        return false;
    }
    let mut i: usize = 0;
    while i < a.len()
        invariant
            a.len() == b.len(),
            i <= a.len(),
            forall|j: int| 0 <= j < i ==> lower(a@[j]) == lower(b@[j]),
        decreases a.len() - i,
    {
        if to_lower(a[i]) != to_lower(b[i]) {
            return false;
        }
        i = i + 1;
    }
    true
}

pub fn eq_chars(a: &[char], b: &[char]) -> (r: bool)
    ensures
        r == (a@ == b@),
{
    if a.len() != b.len() {
        return false;
    }
    let mut i: usize = 0;
    while i < a.len()
        invariant
            a.len() == b.len(),
            i <= a.len(),
            forall|j: int| 0 <= j < i ==> a@[j] == b@[j],
        decreases a.len() - i,
    {
        if a[i] != b[i] {
            return false;
        }
        i = i + 1;
    }
    proof {
        assert(a@ =~= b@);
    }
    true
}

/// Where `c` first stands in `s`, or the length of `s` where it does not.
pub open spec fn find(s: Seq<char>, c: char) -> int
    decreases s.len(),
{
    if s.len() == 0 || s[0] == c {
        0
    } else {
        1 + find(s.skip(1), c)
    }
}

/// `find` is the least position that holds `c`.
pub proof fn find_is_first(s: Seq<char>, c: char)
    ensures
        0 <= find(s, c) <= s.len(),
        find(s, c) < s.len() ==> s[find(s, c)] == c,
        forall|i: int| 0 <= i < find(s, c) ==> s[i] != c,
    decreases s.len(),
{
    if s.len() > 0 && s[0] != c {
        find_is_first(s.skip(1), c);
        assert forall|i: int| 0 <= i < find(s, c) implies s[i] != c by {
            if i > 0 {
                assert(s.skip(1)[i - 1] == s[i]);
            }
        }
    }
}

/// A position that holds `c`, with none before it that does, is `find`'s.
pub proof fn find_unique(s: Seq<char>, c: char, at: int)
    requires
        0 <= at <= s.len(),
        at < s.len() ==> s[at] == c,
        forall|i: int| 0 <= i < at ==> s[i] != c,
    ensures
        find(s, c) == at,
{
    find_is_first(s, c);
}

pub fn find_char(s: &[char], c: char) -> (r: usize)
    ensures
        r == find(s@, c),
        r <= s@.len(),
{
    let mut i: usize = 0;
    while i < s.len() && s[i] != c
        invariant
            i <= s.len(),
            forall|j: int| 0 <= j < i ==> s@[j] != c,
        decreases s.len() - i,
    {
        i = i + 1;
    }
    proof {
        find_unique(s@, c, i as int);
    }
    i
}

// ---- trimming ----

/// `s` without the white space it starts with.
pub open spec fn trim_start(s: Seq<char>) -> Seq<char>
    decreases s.len(),
{
    if s.len() > 0 && white(s[0]) {
        trim_start(s.skip(1))
    } else {
        s
    }
}

/// `s` without the white space it ends in.
pub open spec fn trim_end(s: Seq<char>) -> Seq<char>
    decreases s.len(),
{
    if s.len() > 0 && white(s.last()) {
        trim_end(s.drop_last())
    } else {
        s
    }
}

/// `s` without the white space around it.
pub open spec fn trim(s: Seq<char>) -> Seq<char> {
    trim_end(trim_start(s))
}

/// `s` without the `c`s it starts with.
pub open spec fn strip_start(s: Seq<char>, c: char) -> Seq<char>
    decreases s.len(),
{
    if s.len() > 0 && s[0] == c {
        strip_start(s.skip(1), c)
    } else {
        s
    }
}

/// `s` without the `c`s it ends in.
pub open spec fn strip_end(s: Seq<char>, c: char) -> Seq<char>
    decreases s.len(),
{
    if s.len() > 0 && s.last() == c {
        strip_end(s.drop_last(), c)
    } else {
        s
    }
}

/// Where `s` starts and ends without the white space around it.
pub fn trim_range(s: &[char]) -> (r: (usize, usize))
    ensures
        r.0 <= r.1 <= s@.len(),
        s@.subrange(r.0 as int, r.1 as int) == trim(s@),
{
    let mut a: usize = 0;
    let n: usize = s.len();
    proof {
        assert(s@.skip(0) =~= s@);
    }
    while a < n && is_white(s[a])
        invariant
            a <= n,
            n == s@.len(),
            trim_start(s@.skip(a as int)) == trim_start(s@),
        decreases n - a,
    {
        proof {
            assert(s@.skip(a as int).skip(1) =~= s@.skip(a + 1));
        }
        a = a + 1;
    }
    let ghost t = s@.skip(a as int);
    assert(trim_start(s@) == t);
    let mut b: usize = n;
    proof {
        assert(t.take(b - a) =~= t);
    }
    while a < b && is_white(s[b - 1])
        invariant
            a <= b <= n,
            n == s@.len(),
            t == s@.skip(a as int),
            trim_end(t.take(b - a)) == trim_end(t),
        decreases b - a,
    {
        proof {
            assert(t.take(b - a).drop_last() =~= t.take(b - a - 1));
            assert(t.take(b - a).last() == s@[b - 1]);
        }
        b = b - 1;
    }
    proof {
        assert(s@.subrange(a as int, b as int) =~= t.take(b - a));
        if a < b {
            assert(t.take(b - a).last() == s@[b - 1]);
        }
    }
    (a, b)
}

pub fn trimmed(s: &[char]) -> (r: &[char])
    ensures
        r@ == trim(s@),
{
    let (a, b): (usize, usize) = trim_range(s);
    slice_subrange(s, a, b)
}

pub fn stripped_start(s: &[char], c: char) -> (r: &[char])
    ensures
        r@ == strip_start(s@, c),
{
    let mut a: usize = 0;
    let n: usize = s.len();
    proof {
        assert(s@.skip(0) =~= s@);
    }
    while a < n && s[a] == c
        invariant
            a <= n,
            n == s@.len(),
            strip_start(s@.skip(a as int), c) == strip_start(s@, c),
        decreases n - a,
    {
        proof {
            assert(s@.skip(a as int).skip(1) =~= s@.skip(a + 1));
        }
        a = a + 1;
    }
    proof {
        assert(s@.subrange(a as int, n as int) =~= s@.skip(a as int));
    }
    slice_subrange(s, a, n)
}

pub fn stripped_end(s: &[char], c: char) -> (r: &[char])
    ensures
        r@ == strip_end(s@, c),
{
    let mut b: usize = s.len();
    let n: usize = s.len();
    proof {
        assert(s@.take(n as int) =~= s@);
    }
    while 0 < b && s[b - 1] == c
        invariant
            b <= n,
            n == s@.len(),
            strip_end(s@.take(b as int), c) == strip_end(s@, c),
        decreases b,
    {
        proof {
            assert(s@.take(b as int).drop_last() =~= s@.take(b - 1));
        }
        b = b - 1;
    }
    proof {
        assert(s@.subrange(0, b as int) =~= s@.take(b as int));
    }
    slice_subrange(s, 0, b)
}

// ---- lines ----

/// `line` as it stood before its `'\n'`, without a carriage return at its end.
pub open spec fn without_cr(line: Seq<char>) -> Seq<char> {
    if line.len() > 0 && line.last() == '\r' {
        line.drop_last()
    } else {
        line
    }
}

/// The lines of `s`: each ends before a `'\n'` (and a `'\r'` right before it)
/// or at the end of `s`; a text that ends in `'\n'` has no empty line after it.
pub open spec fn lines(s: Seq<char>) -> Seq<Seq<char>>
    decreases s.len(),
{
    let at = find(s, '\n');
    if s.len() == 0 {
        seq![]
    } else if 0 <= at < s.len() {
        seq![without_cr(s.take(at))] + lines(s.skip(at + 1))
    } else {
        seq![s]
    }
}

/// The parts of `s` that the ranges in `v` cut out.
pub open spec fn pieces(s: Seq<char>, v: Seq<(usize, usize)>) -> Seq<Seq<char>> {
    v.map_values(|x: (usize, usize)| s.subrange(x.0 as int, x.1 as int))
}

/// Where each line of `s` starts and ends.
pub fn line_ranges(s: &[char]) -> (r: Vec<(usize, usize)>)
    ensures
        forall|i: int| 0 <= i < r@.len() ==> (#[trigger] r@[i]).0 <= r@[i].1 <= s@.len(),
        pieces(s@, r@) == lines(s@),
{
    let mut out: Vec<(usize, usize)> = Vec::new();
    let mut from: usize = 0;
    proof {
        assert(s@.skip(0) =~= s@);
        assert(pieces(s@, out@) + lines(s@) =~= lines(s@));
    }
    while from < s.len()
        invariant
            from <= s@.len(),
            forall|i: int| 0 <= i < out@.len() ==> (#[trigger] out@[i]).0 <= out@[i].1 <= s@.len(),
            pieces(s@, out@) + lines(s@.skip(from as int)) == lines(s@),
        decreases s@.len() - from,
    {
        let rest: &[char] = slice_subrange(s, from, s.len());
        proof {
            assert(rest@ =~= s@.skip(from as int));
        }
        let at: usize = find_char(rest, '\n');
        let ghost before = out@;
        if at < rest.len() {
            let end: usize = if at > 0 && rest[at - 1] == '\r' {
                at - 1
            } else {
                at
            };
            out.push((from, from + end));
            proof {
                let line = s@.subrange(from as int, from + end);
                assert(line =~= without_cr(rest@.take(at as int)));
                assert(s@.skip(from + at + 1) =~= rest@.skip(at + 1));
                assert(pieces(s@, out@) =~= pieces(s@, before) + seq![line]);
                assert(pieces(s@, out@) + lines(s@.skip(from + at + 1)) =~= pieces(s@, before)
                    + lines(rest@));
            }
            from = from + at + 1;
        } else {
            out.push((from, s.len()));
            proof {
                let line = s@.subrange(from as int, s@.len() as int);
                assert(line =~= rest@);
                assert(pieces(s@, out@) =~= pieces(s@, before) + seq![line]);
                assert(pieces(s@, out@) + lines(s@.skip(s@.len() as int)) =~= pieces(s@, before)
                    + lines(rest@));
            }
            from = s.len();
        }
    }
    proof {
        assert(lines(s@.skip(from as int)) =~= seq![]);
        assert(pieces(s@, out@) + lines(s@.skip(from as int)) =~= pieces(s@, out@));
    }
    out
}

// ---- numbers ----

pub open spec fn all_digits(s: Seq<char>) -> bool {
    forall|i: int| 0 <= i < s.len() ==> digit(s[i])
}

/// The number that decimal digits write.
pub open spec fn decimal(s: Seq<char>) -> int
    decreases s.len(),
{
    if s.len() == 0 {
        0
    } else {
        decimal(s.drop_last()) * 10 + digit_value(s.last())
    }
}

/// `s` without one leading sign.
pub open spec fn unsigned_part(s: Seq<char>) -> Seq<char> {
    if s.len() > 0 && (s[0] == '-' || s[0] == '+') {
        s.skip(1)
    } else {
        s
    }
}

/// The integer `s` writes: an optional sign, then one or more decimal digits.
pub open spec fn integer(s: Seq<char>) -> Option<int> {
    let d = unsigned_part(s);
    if d.len() == 0 || !all_digits(d) {
        None
    } else if s[0] == '-' {
        Some(-decimal(d))
    } else {
        Some(decimal(d))
    }
}

/// The 32-bit integer `s` writes, if it writes one that fits.
pub open spec fn small_integer(s: Seq<char>) -> Option<i32> {
    match integer(s) {
        Some(n) => if i32::MIN <= n <= i32::MAX {
            Some(n as i32)
        } else {
            None
        },
        None => None,
    }
}

pub fn parse_i32(s: &[char]) -> (r: Option<i32>)
    ensures
        r == small_integer(s@),
{
    if s.len() == 0 {
        return None;
    }
    let negative: bool = s[0] == '-';
    let signed: bool = negative || s[0] == '+';
    let from: usize = if signed {
        1
    } else {
        0
    };
    let d: &[char] = slice_subrange(s, from, s.len());
    proof {
        assert(d@ =~= unsigned_part(s@));
    }
    if d.len() == 0 {
        return None;
    }
    let mut i: usize = 0;
    let mut over: bool = false;
    let mut value: i64 = 0;
    while i < d.len()
        invariant
            i <= d.len(),
            d@ == unsigned_part(s@),
            forall|j: int| 0 <= j < i ==> digit(d@[j]),
            over ==> decimal(d@.take(i as int)) > 0x8000_0000,
            !over ==> value == decimal(d@.take(i as int)),
            0 <= value <= 0x8000_0000,
        decreases d.len() - i,
    {
        let c: char = d[i];
        if !is_digit(c) {
            proof {
                assert(!digit(d@[i as int]));
            }
            return None;
        }
        proof {
            assert(d@.take(i + 1).drop_last() =~= d@.take(i as int));
            assert(d@.take(i + 1).last() == c);
        }
        if !over {
            let next: i64 = value * 10 + (c as i64 - '0' as i64);
            if next > 0x8000_0000 {
                over = true;
            } else {
                value = next;
            }
        }
        i = i + 1;
    }
    proof {
        assert(d@.take(d@.len() as int) =~= d@);
    }
    if over {
        None
    } else if negative {
        Some((-value) as i32)
    } else if value <= 0x7fff_ffff {
        Some(value as i32)
    } else {
        None
    }
}

fn digits_only(s: &[char]) -> (r: bool)
    ensures
        r == all_digits(s@),
{
    let mut i: usize = 0;
    while i < s.len()
        invariant
            i <= s.len(),
            forall|j: int| 0 <= j < i ==> digit(s@[j]),
        decreases s.len() - i,
    {
        if !is_digit(s[i]) {
            proof {
                assert(!digit(s@[i as int]));
            }
            return false;
        }
        i = i + 1;
    }
    true
}

fn unsigned<'a>(s: &'a [char]) -> (r: &'a [char])
    ensures
        r@ == unsigned_part(s@),
{
    if s.len() > 0 && (s[0] == '-' || s[0] == '+') {
        let r: &'a [char] = slice_subrange(s, 1, s.len());
        proof {
            assert(r@ =~= s@.skip(1));
        }
        r
    } else {
        s
    }
}

/// Digits with at most one dot among them, and at least one digit.
pub open spec fn mantissa(s: Seq<char>) -> bool {
    let dot = find(s, '.');
    if dot == s.len() {
        s.len() > 0 && all_digits(s)
    } else {
        s.len() > 1 && all_digits(s.take(dot)) && all_digits(s.skip(dot + 1))
    }
}

/// An optional sign, then one or more digits.
pub open spec fn exponent(s: Seq<char>) -> bool {
    unsigned_part(s).len() > 0 && all_digits(unsigned_part(s))
}

/// Where the exponent's `e` (of either case) stands, or the length of `s`.
pub open spec fn find_exponent(s: Seq<char>) -> int {
    if find(s, 'e') <= find(s, 'E') {
        find(s, 'e')
    } else {
        find(s, 'E')
    }
}

/// `s` writes a real number in positional or scientific notation, or names
/// infinity or not-a-number; either way with an optional sign in front.
pub open spec fn real_number(s: Seq<char>) -> bool {
    let u = unsigned_part(s);
    let e = find_exponent(u);
    ||| same_letters(u, seq!['i', 'n', 'f'])
    ||| same_letters(u, seq!['i', 'n', 'f', 'i', 'n', 'i', 't', 'y'])
    ||| same_letters(u, seq!['n', 'a', 'n'])
    ||| mantissa(u.take(e)) && (e < u.len() ==> exponent(u.skip(e + 1)))
}

fn is_mantissa(s: &[char]) -> (r: bool)
    ensures
        r == mantissa(s@),
{
    let dot: usize = find_char(s, '.');
    if dot == s.len() {
        return s.len() > 0 && digits_only(s);
    }
    let whole: &[char] = slice_subrange(s, 0, dot);
    let part: &[char] = slice_subrange(s, dot + 1, s.len());
    proof {
        assert(whole@ =~= s@.take(dot as int));
        assert(part@ =~= s@.skip(dot + 1));
    }
    s.len() > 1 && digits_only(whole) && digits_only(part)
}

/// Does `s` write a real number?
pub fn is_real(s: &[char]) -> (r: bool)
    ensures
        r == real_number(s@),
{
    let u: &[char] = unsigned(s);
    let inf: [char; 3] = ['i', 'n', 'f'];
    let infinity: [char; 8] = ['i', 'n', 'f', 'i', 'n', 'i', 't', 'y'];
    let nan: [char; 3] = ['n', 'a', 'n'];
    proof {
        assert(inf@ =~= seq!['i', 'n', 'f']);
        assert(infinity@ =~= seq!['i', 'n', 'f', 'i', 'n', 'i', 't', 'y']);
        assert(nan@ =~= seq!['n', 'a', 'n']);
    }
    if eq_ignore_case(u, inf.as_slice()) || eq_ignore_case(u, infinity.as_slice()) || eq_ignore_case(
        u,
        nan.as_slice(),
    ) {
        return true;
    }
    let small: usize = find_char(u, 'e');
    let big: usize = find_char(u, 'E');
    let e: usize = if small <= big {
        small
    } else {
        big
    };
    let m: &[char] = slice_subrange(u, 0, e);
    proof {
        assert(m@ =~= u@.take(e as int));
    }
    if !is_mantissa(m) {
        return false;
    }
    if e == u.len() {
        return true;
    }
    let x: &[char] = slice_subrange(u, e + 1, u.len());
    proof {
        assert(x@ =~= u@.skip(e + 1));
    }
    let d: &[char] = unsigned(x);
    d.len() > 0 && digits_only(d)
}

// ---- writing numbers ----

/// The digit that writes `d`.
pub open spec fn digit_char(d: int) -> char {
    ('0' as u32 + d) as char
}

/// The decimal digits of `n`, without leading zeros.
pub open spec fn numeral(n: int) -> Seq<char>
    decreases n,
{
    if n < 10 {
        seq![digit_char(n)]
    } else {
        numeral(n / 10).push(digit_char(n % 10))
    }
}

/// The decimal digits of `n`, with a sign where it is negative.
pub open spec fn signed_numeral(n: int) -> Seq<char> {
    if n < 0 {
        seq!['-'] + numeral(-n)
    } else {
        numeral(n)
    }
}

fn char_of_digit(d: u64) -> (r: char)
    requires
        d < 10,
    ensures
        r == digit_char(d as int),
{
    (48 + d as u8) as char
}

/// Write `n` behind `s`.
pub fn push_number(s: &mut String, n: u64)
    ensures
        final(s)@ == old(s)@ + numeral(n as int),
    decreases n,
{
    if n >= 10 {
        push_number(s, n / 10);
        s.push(char_of_digit(n % 10));
    } else {
        s.push(char_of_digit(n));
    }
    proof {
        assert(s@ =~= old(s)@ + numeral(n as int));
    }
}

/// Write `n` behind `s`, with a sign where it is negative.
pub fn push_signed(s: &mut String, n: i64)
    ensures
        final(s)@ == old(s)@ + signed_numeral(n as int),
{
    if n < 0 {
        s.push('-');
        push_number(s, (-(n as i128)) as u64);
        proof {
            assert(s@ =~= old(s)@ + signed_numeral(n as int));
        }
    } else {
        push_number(s, n as u64);
    }
}

/// A numeral is digits, and writes the number it was made from.
pub proof fn numeral_reads_back(n: int)
    requires
        n >= 0,
    ensures
        numeral(n).len() > 0,
        all_digits(numeral(n)),
        decimal(numeral(n)) == n,
    decreases n,
{
    if n < 10 {
        let s = numeral(n);
        assert(s[0] == digit_char(n));
        assert(digit(digit_char(n)) && digit_value(digit_char(n)) == n);
        assert(s.drop_last() =~= seq![]);
        assert(decimal(s.drop_last()) == 0);
    } else {
        numeral_reads_back(n / 10);
        let s = numeral(n);
        let d = digit_char(n % 10);
        assert(digit(d) && digit_value(d) == n % 10);
        assert(s.last() == d);
        assert(s.drop_last() =~= numeral(n / 10));
        assert forall|i: int| 0 <= i < s.len() implies digit(s[i]) by {
            if i < s.len() - 1 {
                assert(s[i] == numeral(n / 10)[i]);
            }
        }
    }
}

/// An integer that is written reads back as it was.
pub proof fn signed_numeral_reads_back(n: int)
    requires
        i32::MIN <= n <= i32::MAX,
    ensures
        small_integer(signed_numeral(n)) == Some(n as i32),
{
    if n < 0 {
        numeral_reads_back(-n);
        assert(signed_numeral(n).skip(1) =~= numeral(-n));
    } else {
        numeral_reads_back(n);
        let s = numeral(n);
        assert(digit(s[0]));
    }
}

// ---- order ----

/// `a` comes before `b` in the order of their first different characters; a
/// text comes before what it starts.
pub open spec fn before(a: Seq<char>, b: Seq<char>) -> bool
    decreases a.len(),
{
    if b.len() == 0 {
        false
    } else if a.len() == 0 {
        true
    } else if a[0] != b[0] {
        a[0] < b[0]
    } else {
        before(a.skip(1), b.skip(1))
    }
}

/// Of two texts one comes before the other, or they are the same; never both.
pub proof fn before_is_total(a: Seq<char>, b: Seq<char>)
    ensures
        before(a, b) || before(b, a) || a == b,
        !(before(a, b) && before(b, a)),
        before(a, b) ==> a != b,
    decreases a.len(),
{
    if a.len() > 0 && b.len() > 0 && a[0] == b[0] {
        before_is_total(a.skip(1), b.skip(1));
        if a.skip(1) == b.skip(1) {
            assert(a =~= seq![a[0]] + a.skip(1));
            assert(b =~= seq![b[0]] + b.skip(1));
        }
    } else if a.len() == 0 && b.len() == 0 {
        assert(a =~= b);
    }
}

/// What comes before a text comes before all that the text comes before.
pub proof fn before_is_transitive(a: Seq<char>, b: Seq<char>, c: Seq<char>)
    requires
        before(a, b),
        before(b, c),
    ensures
        before(a, c),
    decreases a.len(),
{
    if a.len() > 0 && a[0] == b[0] && b[0] == c[0] {
        before_is_transitive(a.skip(1), b.skip(1), c.skip(1));
    }
}

pub fn is_before(a: &[char], b: &[char]) -> (r: bool)
    ensures
        r == before(a@, b@),
{
    let mut i: usize = 0;
    proof {
        assert(a@.skip(0) =~= a@);
        assert(b@.skip(0) =~= b@);
    }
    while i < a.len() && i < b.len()
        invariant
            i <= a@.len(),
            i <= b@.len(),
            before(a@.skip(i as int), b@.skip(i as int)) == before(a@, b@),
        decreases a@.len() - i,
    {
        if a[i] != b[i] {
            return a[i] < b[i];
        }
        proof {
            assert(a@.skip(i as int).skip(1) =~= a@.skip(i + 1));
            assert(b@.skip(i as int).skip(1) =~= b@.skip(i + 1));
        }
        i = i + 1;
    }
    i < b.len()
}

// ---- unsigned numbers ----

/// The number that an unsigned numeral (with a `+` or not) stands for.
pub open spec fn natural(s: Seq<char>) -> Option<int> {
    let d = if s.len() > 0 && s[0] == '+' {
        s.skip(1)
    } else {
        s
    };
    if d.len() == 0 || !all_digits(d) {
        None
    } else {
        Some(decimal(d))
    }
}

/// The number that `s` stands for, if it is an unsigned numeral and no more
/// than `max`.
pub fn parse_unsigned(s: &[char], max: u64) -> (r: Option<u64>)
    ensures
        match r {
            Some(v) => natural(s@) == Some(v as int) && v <= max,
            None => match natural(s@) {
                Some(n) => n > max,
                None => true,
            },
        },
{
    let from: usize = if s.len() > 0 && s[0] == '+' {
        1
    } else {
        0
    };
    let d: &[char] = slice_subrange(s, from, s.len());
    proof {
        assert(d@ =~= (if s@.len() > 0 && s@[0] == '+' {
            s@.skip(1)
        } else {
            s@
        }));
    }
    if d.len() == 0 {
        return None;
    }
    let mut i: usize = 0;
    let mut over: bool = false;
    let mut value: u128 = 0;
    while i < d.len()
        invariant
            i <= d.len(),
            d@ == (if s@.len() > 0 && s@[0] == '+' {
                s@.skip(1)
            } else {
                s@
            }),
            forall|j: int| 0 <= j < i ==> digit(d@[j]),
            over ==> decimal(d@.take(i as int)) > max,
            !over ==> value == decimal(d@.take(i as int)),
            0 <= value <= max,
        decreases d.len() - i,
    {
        let c: char = d[i];
        if !is_digit(c) {
            proof {
                assert(!digit(d@[i as int]));
            }
            return None;
        }
        proof {
            assert(d@.take(i + 1).drop_last() =~= d@.take(i as int));
            assert(d@.take(i + 1).last() == c);
        }
        if !over {
            let next: u128 = value * 10 + (c as u32 - '0' as u32) as u128;
            if next > max as u128 {
                over = true;
            } else {
                value = next;
            }
        }
        i = i + 1;
    }
    proof {
        assert(d@.take(d@.len() as int) =~= d@);
    }
    if over {
        None
    } else {
        Some(value as u64)
    }
}

// ---- text without white space ----

/// No character of `s` is white space.
pub open spec fn plain(s: Seq<char>) -> bool {
    forall|i: int| 0 <= i < s.len() ==> !white(#[trigger] s[i])
}

/// Trimming keeps a text with no white space at its ends.
pub proof fn trim_keeps(s: Seq<char>)
    requires
        s.len() > 0 ==> !white(s[0]) && !white(s.last()),
    ensures
        trim(s) == s,
{
}

/// A line that ends in a carriage return and a line feed is the first line,
/// without them.
pub proof fn first_line(line: Seq<char>, rest: Seq<char>)
    requires
        forall|i: int| 0 <= i < line.len() ==> line[i] != '\n',
    ensures
        lines(line + seq!['\r', '\n'] + rest) == seq![line] + lines(rest),
{
    let s = line + seq!['\r', '\n'] + rest;
    let at = line.len() as int + 1;
    assert(s[at] == '\n');
    assert(s[at - 1] == '\r');
    assert forall|i: int| 0 <= i < at implies s[i] != '\n' by {
        if i < line.len() {
            assert(s[i] == line[i]);
        }
    }
    find_unique(s, '\n', at);
    assert(s.take(at).drop_last() =~= line);
    assert(s.take(at).last() == '\r');
    assert(s.skip(at + 1) =~= rest);
}

// ---- laws of lines and white space ----

/// White space around a text goes, and nothing else.
pub proof fn padding_is_trimmed(a: Seq<char>, s: Seq<char>, b: Seq<char>)
    requires
        forall|i: int| 0 <= i < a.len() ==> white(#[trigger] a[i]),
        forall|i: int| 0 <= i < b.len() ==> white(#[trigger] b[i]),
        s.len() > 0,
        !white(s[0]),
        !white(s.last()),
    ensures
        trim(a + s + b) == s,
{
    start_goes(a, s + b);
    assert(a + s + b =~= a + (s + b));
    end_goes(s, b);
}

proof fn start_goes(a: Seq<char>, t: Seq<char>)
    requires
        forall|i: int| 0 <= i < a.len() ==> white(#[trigger] a[i]),
        t.len() > 0,
        !white(t[0]),
    ensures
        trim_start(a + t) == t,
    decreases a.len(),
{
    if a.len() > 0 {
        assert((a + t)[0] == a[0]);
        assert((a + t).skip(1) =~= a.skip(1) + t);
        start_goes(a.skip(1), t);
    } else {
        assert(a + t =~= t);
    }
}

proof fn end_goes(s: Seq<char>, b: Seq<char>)
    requires
        forall|i: int| 0 <= i < b.len() ==> white(#[trigger] b[i]),
        s.len() > 0,
        !white(s.last()),
    ensures
        trim_end(s + b) == s,
    decreases b.len(),
{
    if b.len() > 0 {
        assert((s + b).last() == b.last());
        assert((s + b).drop_last() =~= s + b.drop_last());
        end_goes(s, b.drop_last());
    } else {
        assert(s + b =~= s);
    }
}

/// A line that ends in a line feed is the first line, without it.
pub proof fn a_line_ends_at_its_feed(line: Seq<char>, rest: Seq<char>)
    requires
        forall|i: int| 0 <= i < line.len() ==> line[i] != '\n',
        line.len() > 0 ==> line.last() != '\r',
    ensures
        lines(line + seq!['\n'] + rest) == seq![line] + lines(rest),
        line.len() > 0 ==> lines(line) == seq![line],
{
    let s = line + seq!['\n'] + rest;
    let at = line.len() as int;
    assert(s[at] == '\n');
    assert forall|i: int| 0 <= i < at implies s[i] != '\n' by {
        assert(s[i] == line[i]);
    }
    find_unique(s, '\n', at);
    assert(s.take(at) =~= line);
    assert(s.skip(at + 1) =~= rest);
    find_unique(line, '\n', at);
}

/// A text that ends in a line feed keeps its lines, whatever is put after it.
pub proof fn lines_follow_each_other(before: Seq<char>, rest: Seq<char>)
    requires
        before.len() > 0 ==> before.last() == '\n',
    ensures
        lines(before + rest) == lines(before) + lines(rest),
    decreases before.len(),
{
    if before.len() == 0 {
        assert(before + rest =~= rest);
        assert(lines(before) + lines(rest) =~= lines(rest));
    } else {
        find_is_first(before, '\n');
        let at = find(before, '\n');
        assert(at < before.len());
        let s = before + rest;
        assert forall|i: int| 0 <= i < at implies s[i] != '\n' by {
            assert(s[i] == before[i]);
        }
        assert(s[at] == before[at]);
        find_unique(s, '\n', at);
        let left = before.skip(at + 1);
        assert(s.skip(at + 1) =~= left + rest);
        assert(s.take(at) =~= before.take(at));
        if left.len() > 0 {
            assert(left.last() == before.last());
        }
        lines_follow_each_other(left, rest);
        assert(lines(s) =~= lines(before) + lines(rest));
    }
}

/// A line holds no character that its text does not, nor does what is left of
/// it without the white space around it.
pub proof fn lines_hold_what_the_text_holds(s: Seq<char>, c: char, i: int)
    requires
        !s.contains(c),
        0 <= i < lines(s).len(),
    ensures
        !lines(s)[i].contains(c),
        !trim(lines(s)[i]).contains(c),
    decreases s.len(),
{
    find_is_first(s, '\n');
    let at = find(s, '\n');
    if at < s.len() {
        let (first, rest) = (s.take(at), s.skip(at + 1));
        assert forall|j: int| 0 <= j < rest.len() implies rest[j] != c by {
            assert(s.contains(s[at + 1 + j]));
        }
        if i > 0 {
            assert(lines(s)[i] == lines(rest)[i - 1]);
            lines_hold_what_the_text_holds(rest, c, i - 1);
        } else {
            assert forall|j: int| 0 <= j < first.len() implies first[j] != c by {
                assert(s.contains(s[j]));
            }
            assert(lines(s)[0] == without_cr(first));
        }
    }
    trim_holds_what_the_text_holds(lines(s)[i], c);
}

proof fn trim_holds_what_the_text_holds(s: Seq<char>, c: char)
    requires
        !s.contains(c),
    ensures
        !trim(s).contains(c),
{
    start_holds(s, c);
    end_holds(trim_start(s), c);
}

proof fn start_holds(s: Seq<char>, c: char)
    requires
        !s.contains(c),
    ensures
        !trim_start(s).contains(c),
    decreases s.len(),
{
    if s.len() > 0 && white(s[0]) {
        assert forall|j: int| 0 <= j < s.skip(1).len() implies s.skip(1)[j] != c by {
            assert(s.contains(s[j + 1]));
        }
        start_holds(s.skip(1), c);
    }
}

proof fn end_holds(s: Seq<char>, c: char)
    requires
        !s.contains(c),
    ensures
        !trim_end(s).contains(c),
    decreases s.len(),
{
    if s.len() > 0 && white(s.last()) {
        assert forall|j: int| 0 <= j < s.drop_last().len() implies s.drop_last()[j] != c by {
            assert(s.contains(s[j]));
        }
        end_holds(s.drop_last(), c);
    }
}

proof fn digits_are_plain(s: Seq<char>)
    requires
        all_digits(s),
    ensures
        plain(s),
{
}

proof fn letters_are_plain(s: Seq<char>, t: Seq<char>)
    requires
        same_letters(s, t),
        forall|i: int| 0 <= i < t.len() ==> 'a' <= #[trigger] t[i] <= 'z',
    ensures
        plain(s),
{
    assert forall|i: int| 0 <= i < s.len() implies !white(#[trigger] s[i]) by {
        assert(lower(s[i]) == lower(t[i]));
        assert('a' <= t[i] <= 'z');
    }
}

proof fn signs_are_plain(s: Seq<char>)
    requires
        plain(unsigned_part(s)),
    ensures
        plain(s),
{
    assert forall|i: int| 0 <= i < s.len() implies !white(#[trigger] s[i]) by {
        if s[0] == '-' || s[0] == '+' {
            if i > 0 {
                assert(unsigned_part(s)[i - 1] == s[i]);
            }
        }
    }
}

proof fn mantissas_are_plain(s: Seq<char>)
    requires
        mantissa(s),
    ensures
        s.len() > 0,
        plain(s),
{
    find_is_first(s, '.');
    let dot = find(s, '.');
    if dot < s.len() {
        assert forall|i: int| 0 <= i < s.len() implies !white(#[trigger] s[i]) by {
            if i < dot {
                assert(s.take(dot)[i] == s[i]);
            } else if i > dot {
                assert(s.skip(dot + 1)[i - dot - 1] == s[i]);
            }
        }
    }
}

/// A real number has no white space in it, and is not empty.
pub proof fn real_numbers_are_plain(s: Seq<char>)
    requires
        real_number(s),
    ensures
        s.len() > 0,
        plain(s),
{
    let u = unsigned_part(s);
    let e = find_exponent(u);
    find_is_first(u, 'e');
    find_is_first(u, 'E');
    if same_letters(u, seq!['i', 'n', 'f']) {
        letters_are_plain(u, seq!['i', 'n', 'f']);
    } else if same_letters(u, seq!['i', 'n', 'f', 'i', 'n', 'i', 't', 'y']) {
        letters_are_plain(u, seq!['i', 'n', 'f', 'i', 'n', 'i', 't', 'y']);
    } else if same_letters(u, seq!['n', 'a', 'n']) {
        letters_are_plain(u, seq!['n', 'a', 'n']);
    } else {
        mantissas_are_plain(u.take(e));
        if e < u.len() {
            digits_are_plain(unsigned_part(u.skip(e + 1)));
            signs_are_plain(u.skip(e + 1));
        }
        assert forall|i: int| 0 <= i < u.len() implies !white(#[trigger] u[i]) by {
            if i < e {
                assert(u.take(e)[i] == u[i]);
            } else if i > e {
                assert(u.skip(e + 1)[i - e - 1] == u[i]);
            }
        }
    }
    signs_are_plain(s);
}

/// The numeral of an integer has no white space in it, and is not empty.
pub proof fn numerals_are_plain(n: int)
    ensures
        signed_numeral(n).len() > 0,
        plain(signed_numeral(n)),
{
    let m = if n < 0 {
        -n
    } else {
        n
    };
    numeral_reads_back(m);
    digits_are_plain(numeral(m));
    if n < 0 {
        assert forall|i: int| 0 <= i < signed_numeral(n).len() implies !white(#[trigger] signed_numeral(n)[i]) by {
            if i > 0 {
                assert(signed_numeral(n)[i] == numeral(m)[i - 1]);
            }
        }
    }
}

// ---- laws of letters and numbers ----

/// Letters match whatever their case, `A` to `Z` with `a` to `z`; any other
/// character matches itself only.
pub proof fn letters_match_in_any_case(a: char, b: char)
    ensures
        lower(a) == lower(b) <==> {
            ||| a == b
            ||| 'A' <= a <= 'Z' && b as u32 == a as u32 + 32
            ||| 'A' <= b <= 'Z' && a as u32 == b as u32 + 32
        },
{
}

/// Texts match in any case letter by letter, and only with as many of them.
pub proof fn texts_match_letter_by_letter(a: Seq<char>, b: Seq<char>, x: char, y: char)
    ensures
        a.len() != b.len() ==> !same_letters(a, b),
        same_letters(seq![], seq![]),
        same_letters(a.push(x), b.push(y)) <==> same_letters(a, b) && lower(x) == lower(y),
{
    if same_letters(a.push(x), b.push(y)) {
        assert forall|i: int| 0 <= i < a.len() implies lower(a[i]) == lower(b[i]) by {
            assert(lower(a.push(x)[i]) == lower(b.push(y)[i]));
        }
        assert(lower(a.push(x)[a.len() as int]) == lower(b.push(y)[a.len() as int]));
    }
    if same_letters(a, b) && lower(x) == lower(y) {
        assert forall|i: int| 0 <= i < a.push(x).len() implies lower(a.push(x)[i]) == lower(b.push(y)[i]) by {
            if i < a.len() {
                assert(lower(a[i]) == lower(b[i]));
            }
        }
    }
}

/// Digits write a number from the highest on: one more digit counts the ones,
/// and what was written before it counts ten times.
pub proof fn digits_write_a_number(s: Seq<char>, c: char)
    ensures
        decimal(seq![]) == 0,
        decimal(s.push(c)) == 10 * decimal(s) + (c as u32 - 48),
{
    assert(s.push(c).drop_last() =~= s);
}

/// An integer is written as digits, with a sign before them or none, and as
/// nothing else.
pub proof fn integers_are_digits_with_a_sign(d: Seq<char>)
    requires
        d.len() > 0,
    ensures
        (forall|i: int| 0 <= i < d.len() ==> '0' <= #[trigger] d[i] <= '9') ==> {
            &&& integer(d) == Some(decimal(d))
            &&& integer(seq!['+'] + d) == Some(decimal(d))
            &&& integer(seq!['-'] + d) == Some(-decimal(d))
            &&& natural(d) == Some(decimal(d))
            &&& natural(seq!['+'] + d) == Some(decimal(d))
            &&& natural(seq!['-'] + d) is None
        },
        (exists|i: int| 0 < i < d.len() && !('0' <= #[trigger] d[i] <= '9')) ==> integer(d) is None && natural(d) is None,
        integer(seq![]) is None && natural(seq![]) is None,
        integer(seq!['-']) is None && integer(seq!['+']) is None && natural(seq!['+']) is None,
{
    assert((seq!['+'] + d).skip(1) =~= d);
    assert((seq!['-'] + d).skip(1) =~= d);
    if forall|i: int| 0 <= i < d.len() ==> '0' <= #[trigger] d[i] <= '9' {
        assert('0' <= d[0] <= '9');
        assert(all_digits(d));
        assert((seq!['-'] + d)[0] == '-');
        assert(!digit((seq!['-'] + d)[0]));
    }
    if exists|i: int| 0 < i < d.len() && !('0' <= #[trigger] d[i] <= '9') {
        let i = choose|i: int| 0 < i < d.len() && !('0' <= #[trigger] d[i] <= '9');
        assert(!digit(d[i]));
        assert(d.skip(1)[i - 1] == d[i]);
        assert(!all_digits(d) && !all_digits(d.skip(1)));
    }
    assert(seq!['-'].skip(1).len() == 0 && seq!['+'].skip(1).len() == 0);
}

/// A 32-bit integer is one of those from `-2147483648` to `2147483647`.
pub proof fn small_integers_have_32_bits(s: Seq<char>)
    ensures
        small_integer(s) is Some <==> integer(s) is Some && -2147483648 <= integer(s)->0 <= 2147483647,
        small_integer(s) is Some ==> small_integer(s)->0 == integer(s)->0,
{
}

/// A numeral is the number it writes, with a `+` before it or without.
pub proof fn numerals_are_natural(n: int)
    requires
        n >= 0,
    ensures
        natural(numeral(n)) == Some(n),
        natural(seq!['+'] + numeral(n)) == Some(n),
        n < 10 ==> numeral(n).len() == 1,
        n >= 10 ==> numeral(n).drop_last() == numeral(n / 10),
        numeral(n).last() as u32 == 48 + n % 10,
{
    numeral_reads_back(n);
    let d = numeral(n);
    assert(digit(d[0]));
    assert((seq!['+'] + d).skip(1) =~= d);
    if n >= 10 {
        assert(d.drop_last() =~= numeral(n / 10));
    }
}

/// Digits are a real number, and so are digits around one dot, on one side of
/// it or on both; a dot alone is none.
pub proof fn decimals_are_real_numbers(a: Seq<char>, b: Seq<char>)
    requires
        forall|i: int| 0 <= i < a.len() ==> '0' <= #[trigger] a[i] <= '9',
        forall|i: int| 0 <= i < b.len() ==> '0' <= #[trigger] b[i] <= '9',
    ensures
        a.len() > 0 ==> real_number(a),
        a.len() > 0 || b.len() > 0 ==> real_number(a + seq!['.'] + b),
        !real_number(seq![]),
        !real_number(seq!['.']),
{
    if a.len() > 0 {
        assert('0' <= a[0] <= '9');
        find_unique(a, '.', a.len() as int);
        find_unique(a, 'e', a.len() as int);
        find_unique(a, 'E', a.len() as int);
        assert(a.take(a.len() as int) =~= a);
        assert(mantissa(a));
    }
    if a.len() > 0 || b.len() > 0 {
        let s = a + seq!['.'] + b;
        let at = a.len() as int;
        assert forall|i: int| 0 <= i < s.len() implies (i == at || '0' <= #[trigger] s[i] <= '9') by {
            if i < at {
                assert(s[i] == a[i]);
            } else if i > at {
                assert(s[i] == b[i - at - 1]);
            }
        }
        assert(s[at] == '.');
        assert(at == 0 || '0' <= s[0] <= '9');
        find_unique(s, '.', at);
        find_unique(s, 'e', s.len() as int);
        find_unique(s, 'E', s.len() as int);
        assert(s.take(s.len() as int) =~= s);
        assert(s.take(at) =~= a);
        assert(s.skip(at + 1) =~= b);
        assert(mantissa(s));
    }
    let none = Seq::<char>::empty();
    assert(none.take(0) =~= none);
    find_unique(none, '.', 0);
    let dot = seq!['.'];
    find_unique(dot, '.', 0);
    find_unique(dot, 'e', 1);
    find_unique(dot, 'E', 1);
    assert(dot.take(1) =~= dot);
    if same_letters(dot, seq!['i', 'n', 'f']) || same_letters(dot, seq!['n', 'a', 'n']) {
        assert(dot.len() == 3);
    }
}

/// A sign may stand before a real number, once.
pub proof fn a_sign_may_stand_before_a_real_number(s: Seq<char>)
    requires
        s.len() > 0,
        s[0] != '-',
        s[0] != '+',
    ensures
        real_number(seq!['-'] + s) == real_number(s),
        real_number(seq!['+'] + s) == real_number(s),
{
    assert((seq!['-'] + s).skip(1) =~= s);
    assert((seq!['+'] + s).skip(1) =~= s);
}

/// An exponent may follow digits, with or without a dot among them: `e` or
/// `E`, a sign or none, and digits.
pub proof fn an_exponent_may_follow_digits(m: Seq<char>, e: char, sign: Seq<char>, x: Seq<char>)
    requires
        e == 'e' || e == 'E',
        m.len() > 0,
        forall|i: int| 0 <= i < m.len() ==> '0' <= #[trigger] m[i] <= '9' || m[i] == '.',
        sign.len() == 0 || sign == seq!['-'] || sign == seq!['+'],
        forall|i: int| 0 <= i < x.len() ==> '0' <= #[trigger] x[i] <= '9',
    ensures
        x.len() > 0 ==> real_number(m + seq![e] + (sign + x)) == real_number(m),
        x.len() == 0 ==> !real_number(m + seq![e] + sign),
{
    let tail = sign + x;
    let s = m + seq![e] + tail;
    let at = m.len() as int;
    assert('0' <= m[0] <= '9' || m[0] == '.');
    assert forall|i: int| 0 <= i < s.len() && i != at implies s[i] != 'e' && s[i] != 'E' by {
        if i < at {
            assert(s[i] == m[i]);
        } else if i - at - 1 < sign.len() {
            assert(s[i] == sign[i - at - 1]);
        } else {
            assert(s[i] == x[i - at - 1 - sign.len()]);
        }
    }
    assert(s[at] == e);
    assert(s[0] == m[0]);
    find_unique(s, 'e', if e == 'e' {
        at
    } else {
        s.len() as int
    });
    find_unique(s, 'E', if e == 'E' {
        at
    } else {
        s.len() as int
    });
    find_unique(m, 'e', at);
    find_unique(m, 'E', at);
    assert(m.take(at) =~= m);
    assert(s.take(at) =~= m);
    assert(s.skip(at + 1) =~= tail);
    no_word(s);
    no_word(m);
    if x.len() == 0 {
        assert(tail =~= sign);
        assert(m + seq![e] + sign =~= s);
        assert(unsigned_part(tail).len() == 0);
    } else {
        if sign.len() > 0 {
            assert(tail[0] == sign[0]);
            assert(unsigned_part(tail) =~= x);
        } else {
            assert(tail =~= x);
            assert('0' <= x[0] <= '9');
        }
        assert(all_digits(unsigned_part(tail)));
    }
}

/// What starts with a digit or a dot is no word.
proof fn no_word(s: Seq<char>)
    requires
        s.len() > 0,
        '0' <= s[0] <= '9' || s[0] == '.',
    ensures
        !same_letters(s, seq!['i', 'n', 'f']),
        !same_letters(s, seq!['i', 'n', 'f', 'i', 'n', 'i', 't', 'y']),
        !same_letters(s, seq!['n', 'a', 'n']),
{
    if same_letters(s, seq!['i', 'n', 'f']) {
        assert(lower(s[0]) == lower(seq!['i', 'n', 'f'][0]));
    }
    if same_letters(s, seq!['i', 'n', 'f', 'i', 'n', 'i', 't', 'y']) {
        assert(lower(s[0]) == lower(seq!['i', 'n', 'f', 'i', 'n', 'i', 't', 'y'][0]));
    }
    if same_letters(s, seq!['n', 'a', 'n']) {
        assert(lower(s[0]) == lower(seq!['n', 'a', 'n'][0]));
    }
}

/// The words for infinity and for no number are real numbers, in letters of
/// either case.
pub proof fn words_are_real_numbers(s: Seq<char>)
    requires
        same_letters(s, "inf"@) || same_letters(s, "infinity"@) || same_letters(s, "nan"@),
    ensures
        real_number(s),
{
    reveal_strlit("inf");
    reveal_strlit("infinity");
    reveal_strlit("nan");
    assert("inf"@ =~= seq!['i', 'n', 'f']);
    assert("infinity"@ =~= seq!['i', 'n', 'f', 'i', 'n', 'i', 't', 'y']);
    assert("nan"@ =~= seq!['n', 'a', 'n']);
    if same_letters(s, "inf"@) {
        assert(lower(s[0]) == lower("inf"@[0]));
    } else if same_letters(s, "infinity"@) {
        assert(lower(s[0]) == lower("infinity"@[0]));
    } else {
        assert(lower(s[0]) == lower("nan"@[0]));
    }
}

/// A text with two dots, or with a character that is neither a letter nor one
/// of those that numbers are written with, is no real number.
pub proof fn what_is_no_real_number(s: Seq<char>, i: int, j: int)
    requires
        0 <= i < s.len(),
        0 <= j < s.len(),
        ({
            let c = s[i];
            ||| i < j && s[i] == '.' && s[j] == '.'
            ||| !('0' <= c <= '9') && !('a' <= c <= 'z') && !('A' <= c <= 'Z') && c != '.' && c != '-' && c != '+'
        }),
    ensures
        !real_number(s),
{
    let u = unsigned_part(s);
    let e = find_exponent(u);
    find_is_first(u, 'e');
    find_is_first(u, 'E');
    let cut = s.len() - u.len();
    if real_number(s) {
        let (p, q) = (i - cut, j - cut);
        assert(0 <= p);
        assert(u[p] == s[i]);
        if s[i] == '.' && s[j] == '.' && i < j {
            assert(u[q] == s[j]);
        }
        if same_letters(u, seq!['i', 'n', 'f']) {
            letters_only(u, seq!['i', 'n', 'f'], p);
        } else if same_letters(u, seq!['i', 'n', 'f', 'i', 'n', 'i', 't', 'y']) {
            letters_only(u, seq!['i', 'n', 'f', 'i', 'n', 'i', 't', 'y'], p);
        } else if same_letters(u, seq!['n', 'a', 'n']) {
            letters_only(u, seq!['n', 'a', 'n'], p);
        } else {
            let m = u.take(e);
            find_is_first(m, '.');
            let dot = find(m, '.');
            if e < u.len() {
                let x = u.skip(e + 1);
                assert(exponent(x));
                if p > e {
                    exponent_digit(x, p - e - 1);
                    assert(x[p - e - 1] == u[p]);
                }
                if s[i] == '.' && s[j] == '.' && i < j && q > e {
                    exponent_digit(x, q - e - 1);
                    assert(x[q - e - 1] == u[q]);
                }
            }
            if p < e {
                assert(m[p] == u[p]);
                mantissa_digit(m, p);
                if s[i] == '.' && s[j] == '.' && i < j && q < e {
                    assert(m[q] == u[q]);
                    mantissa_digit(m, q);
                }
            }
        }
    }
}

proof fn letters_only(s: Seq<char>, t: Seq<char>, i: int)
    requires
        same_letters(s, t),
        forall|i: int| 0 <= i < t.len() ==> 'a' <= #[trigger] t[i] <= 'z',
        0 <= i < s.len(),
    ensures
        'a' <= s[i] <= 'z' || 'A' <= s[i] <= 'Z',
{
    assert(lower(s[i]) == lower(t[i]));
    assert('a' <= t[i] <= 'z');
}

proof fn exponent_digit(x: Seq<char>, i: int)
    requires
        exponent(x),
        0 <= i < x.len(),
    ensures
        '0' <= x[i] <= '9' || x[i] == '-' || x[i] == '+',
{
    if unsigned_part(x).len() < x.len() {
        if i > 0 {
            assert(unsigned_part(x)[i - 1] == x[i]);
            assert(digit(unsigned_part(x)[i - 1]));
        }
    } else {
        assert(digit(unsigned_part(x)[i]));
    }
}

proof fn mantissa_digit(m: Seq<char>, i: int)
    requires
        mantissa(m),
        0 <= i < m.len(),
    ensures
        '0' <= m[i] <= '9' || m[i] == '.' && i == find(m, '.'),
{
    find_is_first(m, '.');
    let dot = find(m, '.');
    if dot == m.len() {
        assert(digit(m[i]));
    } else if i < dot {
        assert(m.take(dot)[i] == m[i]);
        assert(digit(m.take(dot)[i]));
    } else if i > dot {
        assert(m.skip(dot + 1)[i - dot - 1] == m[i]);
        assert(digit(m.skip(dot + 1)[i - dot - 1]));
    }
}

/// The order of texts is that of their first characters that differ, and what
/// another text goes on from comes before it.
pub proof fn texts_are_ordered_by_the_first_difference(
    common: Seq<char>,
    a: char,
    b: char,
    rest: Seq<char>,
    other: Seq<char>,
)
    requires
        a != b,
    ensures
        before(common + seq![a] + rest, common + seq![b] + other) <==> (a as u32) < (b as u32),
        before(common, common + seq![a] + rest),
        !before(common + seq![a] + rest, common),
        !before(common, common),
    decreases common.len(),
{
    let (s, t) = (common + seq![a] + rest, common + seq![b] + other);
    if common.len() > 0 {
        let left = common.skip(1);
        assert(s[0] == common[0] && t[0] == common[0]);
        assert(s.skip(1) =~= left + seq![a] + rest);
        assert(t.skip(1) =~= left + seq![b] + other);
        texts_are_ordered_by_the_first_difference(left, a, b, rest, other);
    } else {
        assert(s[0] == a && t[0] == b);
    }
}


} // verus!
