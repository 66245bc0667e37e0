//! UTF-16, as Windows writes text.

use vstd::prelude::*;

use crate::text;

verus! {

/// `char::from_u32` gives the character with that number: there is one for
/// every number up to 0x10FFFF but the surrogates.
pub assume_specification[ char::from_u32 ](n: u32) -> (r: Option<char>)
    ensures
        r is Some <==> scalar(n as int),
        r is Some ==> r->0 as u32 == n,
;

/// `n` numbers a character.
pub open spec fn scalar(n: int) -> bool {
    0 <= n <= 0x10ffff && !(0xd800 <= n <= 0xdfff)
}

pub open spec fn high_surrogate(u: u16) -> bool {
    0xd800 <= u <= 0xdbff
}

pub open spec fn low_surrogate(u: u16) -> bool {
    0xdc00 <= u <= 0xdfff
}

/// The number that a high and a low surrogate stand for together.
pub open spec fn paired(hi: u16, lo: u16) -> int {
    0x10000 + (hi - 0xd800) * 0x400 + (lo - 0xdc00)
}

/// The text that the units write; `bad` stands for each surrogate without its
/// other half.
pub open spec fn decoded(units: Seq<u16>, bad: Seq<char>) -> Seq<char>
    decreases units.len(),
{
    if units.len() == 0 {
        seq![]
    } else if high_surrogate(units[0]) && units.len() > 1 && low_surrogate(units[1]) {
        seq![paired(units[0], units[1]) as char] + decoded(units.skip(2), bad)
    } else if high_surrogate(units[0]) || low_surrogate(units[0]) {
        bad + decoded(units.skip(1), bad)
    } else {
        seq![units[0] as char] + decoded(units.skip(1), bad)
    }
}

/// The units that write `c`.
pub open spec fn encoded_char(c: char) -> Seq<u16> {
    let n = c as u32;
    if n < 0x10000 {
        seq![n as u16]
    } else {
        seq![(0xd800 + (n - 0x10000) / 0x400) as u16, (0xdc00 + (n - 0x10000) % 0x400) as u16]
    }
}

/// A field up to its terminating 0; one that has none is empty.
pub open spec fn ended(w: Seq<u16>) -> Seq<u16> {
    if first_nul(w) < w.len() {
        until_nul(w)
    } else {
        seq![]
    }
}

/// The text in a field that ends in a 0.
pub fn ended_to_string(w: &[u16]) -> (r: String)
    ensures
        r@ == decoded(ended(w@), seq!['\u{fffd}']),
{
    let n: usize = nul_position(w);
    let end: usize = if n < w.len() {
        n
    } else {
        0
    };
    let part: &[u16] = vstd::slice::slice_subrange(w, 0, end);
    proof {
        assert(part@ =~= ended(w@));
    }
    decode_lossy(part)
}

/// The units that write `s`.
pub open spec fn encoded(s: Seq<char>) -> Seq<u16>
    decreases s.len(),
{
    if s.len() == 0 {
        seq![]
    } else {
        encoded_char(s[0]) + encoded(s.skip(1))
    }
}

/// Where the first 0 stands, or the length where there is none.
pub open spec fn first_nul(units: Seq<u16>) -> int
    decreases units.len(),
{
    if units.len() == 0 || units[0] == 0 {
        0
    } else {
        1 + first_nul(units.skip(1))
    }
}

/// Up to the terminating 0, or all of it where there is none.
pub open spec fn until_nul(units: Seq<u16>) -> Seq<u16> {
    units.take(first_nul(units))
}

proof fn first_nul_range(units: Seq<u16>)
    ensures
        0 <= first_nul(units) <= units.len(),
        forall|i: int| 0 <= i < first_nul(units) ==> units[i] != 0,
        first_nul(units) < units.len() ==> units[first_nul(units)] == 0,
    decreases units.len(),
{
    if units.len() > 0 && units[0] != 0 {
        first_nul_range(units.skip(1));
        assert forall|i: int| 0 <= i < first_nul(units) implies units[i] != 0 by {
            if i > 0 {
                assert(units.skip(1)[i - 1] == units[i]);
            }
        }
    }
}

/// Where the first 0 stands, or the length where there is none.
pub fn nul_position(units: &[u16]) -> (r: usize)
    ensures
        r == first_nul(units@),
        r <= units@.len(),
{
    let mut i: usize = 0;
    while i < units.len() && units[i] != 0
        invariant
            i <= units@.len(),
            forall|j: int| 0 <= j < i ==> units@[j] != 0,
        decreases units@.len() - i,
    {
        i = i + 1;
    }
    proof {
        first_nul_range(units@);
        if first_nul(units@) < i {
            assert(units@[first_nul(units@)] != 0);
        }
    }
    i
}

/// The text that the units write, with `bad` (or nothing) for each surrogate
/// without its other half.
pub fn decode(units: &[u16], bad: Option<char>) -> (r: Vec<char>)
    ensures
        r@ == decoded(
            units@,
            match bad {
                Some(c) => seq![c],
                None => seq![],
            },
        ),
{
    let ghost b = match bad {
        Some(c) => seq![c],
        None => seq![],
    };
    let mut out: Vec<char> = Vec::new();
    let mut i: usize = 0;
    proof {
        assert(units@.skip(0) =~= units@);
        assert(out@ + decoded(units@, b) =~= decoded(units@, b));
    }
    while i < units.len()
        invariant
            i <= units@.len(),
            b == (match bad {
                Some(c) => seq![c],
                None => seq![],
            }),
            out@ + decoded(units@.skip(i as int), b) == decoded(units@, b),
        decreases units@.len() - i,
    {
        let ghost rest = units@.skip(i as int);
        let ghost before = out@;
        let u: u16 = units[i];
        assert(rest[0] == u);
        let hi: bool = 0xd800 <= u && u <= 0xdbff;
        let lo: bool = 0xdc00 <= u && u <= 0xdfff;
        let next: u16 = if i + 1 < units.len() {
            units[i + 1]
        } else {
            0
        };
        if hi && 0xdc00 <= next && next <= 0xdfff {
            assert(rest[1] == next);
            let n: u32 = 0x10000 + (u as u32 - 0xd800) * 0x400 + (next as u32 - 0xdc00);
            let c: char = char::from_u32(n).unwrap();
            out.push(c);
            proof {
                char_number(c);
                assert(paired(u, next) == n);
                assert(paired(u, next) as char == c);
                assert(out@ =~= before + seq![c]);
                assert(decoded(rest, b) =~= seq![c] + decoded(rest.skip(2), b));
                assert(rest.skip(2) =~= units@.skip(i + 2));
                assert(out@ + decoded(units@.skip(i + 2), b) =~= before + decoded(rest, b));
            }
            i = i + 2;
        } else {
            if hi || lo {
                match bad {
                    Some(c) => {
                        out.push(c);
                    },
                    None => {},
                }
            } else {
                let c: char = char::from_u32(u as u32).unwrap();
                out.push(c);
                proof {
                    char_number(c);
                }
                assert(u as char == c);
                assert(out@ =~= before + seq![c]);
            }
            proof {
                if i + 1 < units@.len() {
                    assert(rest[1] == next);
                }
                assert(rest.skip(1) =~= units@.skip(i + 1));
                assert(out@ + decoded(units@.skip(i + 1), b) =~= before + decoded(rest, b));
            }
            i = i + 1;
        }
    }
    proof {
        assert(out@ + decoded(units@.skip(i as int), b) =~= out@);
    }
    out
}

/// The text that the units write, with U+FFFD for each surrogate without its
/// other half.
pub fn decode_lossy(units: &[u16]) -> (r: String)
    ensures
        r@ == decoded(units@, seq!['\u{fffd}']),
{
    let chars: Vec<char> = decode(units, Some('\u{fffd}'));
    text::string_of(chars.as_slice())
}

/// The text of a buffer that ends at its first 0, or at its end.
pub fn wide_to_string(w: &[u16]) -> (r: String)
    ensures
        r@ == decoded(until_nul(w@), seq!['\u{fffd}']),
{
    let n: usize = nul_position(w);
    let part: &[u16] = vstd::slice::slice_subrange(w, 0, n);
    proof {
        assert(part@ =~= until_nul(w@));
    }
    decode_lossy(part)
}

/// The units that write `s`.
pub fn encode(s: &str) -> (r: Vec<u16>)
    ensures
        r@ == encoded(s@),
{
    let chars: Vec<char> = text::chars_of(s);
    let mut out: Vec<u16> = Vec::new();
    let mut i: usize = 0;
    proof {
        assert(s@.skip(0) =~= s@);
        assert(out@ + encoded(s@) =~= encoded(s@));
    }
    while i < chars.len()
        invariant
            i <= chars@.len(),
            chars@ == s@,
            out@ + encoded(s@.skip(i as int)) == encoded(s@),
        decreases chars@.len() - i,
    {
        let ghost before = out@;
        let ghost rest = s@.skip(i as int);
        let c: char = chars[i];
        assert(rest[0] == c);
        let n: u32 = c as u32;
        if n < 0x10000 {
            out.push(n as u16);
        } else {
            let v: u32 = n - 0x10000;
            out.push((0xd800 + v / 0x400) as u16);
            out.push((0xdc00 + v % 0x400) as u16);
        }
        proof {
            assert(out@ =~= before + encoded_char(c));
            assert(rest.skip(1) =~= s@.skip(i + 1));
            assert(out@ + encoded(s@.skip(i + 1)) =~= before + encoded(rest));
        }
        i = i + 1;
    }
    proof {
        assert(out@ + encoded(s@.skip(i as int)) =~= out@);
    }
    out
}

/// The units that write `s`, and a 0 behind them.
pub fn wide(s: &str) -> (r: Vec<u16>)
    ensures
        r@ == encoded(s@).push(0),
{
    let mut out: Vec<u16> = encode(s);
    out.push(0);
    out
}

/// A character's number numbers it.
proof fn char_number(c: char)
    ensures
        scalar(c as int),
        c as u32 == c as int,
        (c as int) as char == c,
{
}

// ---- laws ----

/// Text that is written as UTF-16 reads back as it was.
pub proof fn decode_undoes_encode(s: Seq<char>, bad: Seq<char>)
    ensures
        decoded(encoded(s), bad) == s,
    decreases s.len(),
{
    if s.len() > 0 {
        let c = s[0];
        let n = c as u32;
        let u = encoded(s);
        let first = encoded_char(c);
        char_number(c);
        decode_undoes_encode(s.skip(1), bad);
        if n < 0x10000 {
            assert(u[0] == n as u16);
            assert(u.skip(1) =~= encoded(s.skip(1)));
            assert(u[0] as char == c);
        } else {
            let v = n - 0x10000;
            assert(u[0] == first[0]);
            assert(u[1] == first[1]);
            assert(u.skip(2) =~= encoded(s.skip(1)));
            assert(high_surrogate(u[0]));
            assert(low_surrogate(u[1]));
            assert(paired(u[0], u[1]) == n);
        }
        assert(decoded(u, bad) =~= seq![c] + s.skip(1));
        assert(s =~= seq![c] + s.skip(1));
    }
}

/// Units are read from the first on. One that is no surrogate is the character
/// with its number; a high surrogate (`D800` to `DBFF`) and a low one (`DC00`
/// to `DFFF`) after it are one character together; any other surrogate is
/// `bad`.
pub proof fn units_are_read_from_the_first_on(u: u16, next: u16, rest: Seq<u16>, bad: Seq<char>, c: char)
    ensures
        decoded(seq![], bad) == Seq::<char>::empty(),
        u < 0xd800 || u >= 0xe000 ==> (c as u32 == u ==> decoded(seq![u] + rest, bad) == seq![c] + decoded(rest, bad)),
        0xd800 <= u < 0xdc00 && 0xdc00 <= next < 0xe000 ==> (c as u32 == 0x1_0000 + 0x400 * (u - 0xd800) + (next
            - 0xdc00) ==> decoded(seq![u, next] + rest, bad) == seq![c] + decoded(rest, bad)),
        0xd800 <= u < 0xdc00 && !(0xdc00 <= next < 0xe000) ==> decoded(seq![u, next] + rest, bad) == bad + decoded(
            seq![next] + rest,
            bad,
        ),
        0xd800 <= u < 0xdc00 ==> decoded(seq![u], bad) == bad,
        0xdc00 <= u < 0xe000 ==> decoded(seq![u] + rest, bad) == bad + decoded(rest, bad),
{
    let one = seq![u] + rest;
    let two = seq![u, next] + rest;
    char_number(c);
    assert(one[0] == u && two[0] == u && two[1] == next);
    assert(one.skip(1) =~= rest);
    assert(two.skip(2) =~= rest);
    assert(two.skip(1) =~= seq![next] + rest);
    assert(seq![u].skip(1) =~= Seq::<u16>::empty());
    assert(seq![u][0] == u);
    assert(decoded(Seq::<u16>::empty(), bad) =~= Seq::<char>::empty());
    assert(bad + Seq::<char>::empty() =~= bad);
    if u < 0xd800 || u >= 0xe000 {
        if c as u32 == u {
            assert(u as char == c);
        }
    }
    if 0xd800 <= u < 0xdc00 && 0xdc00 <= next < 0xe000 {
        if c as u32 == 0x1_0000 + 0x400 * (u - 0xd800) + (next - 0xdc00) {
            assert(paired(u, next) == c as int);
        }
    }
}

/// A character below `10000` is written as its number, another one as a high
/// surrogate with the upper ten bits of what it is above that, and a low one
/// with the lower ten.
pub proof fn characters_are_written_one_after_the_other(c: char, rest: Seq<char>)
    ensures
        encoded(seq![]) == Seq::<u16>::empty(),
        ({
            let n = c as int;
            let units = encoded(seq![c] + rest);
            &&& n < 0x1_0000 ==> units.len() > 0 && units[0] == n && units.skip(1) == encoded(rest)
            &&& n >= 0x1_0000 ==> {
                &&& units.len() > 1
                &&& 0x400 * (units[0] - 0xd800) + (units[1] - 0xdc00) == n - 0x1_0000
                &&& 0xdc00 <= units[1] < 0xe000
                &&& units.skip(2) == encoded(rest)
            }
        }),
{
    let s = seq![c] + rest;
    char_number(c);
    assert(s[0] == c);
    assert(s.skip(1) =~= rest);
    let first = encoded_char(c);
    assert(encoded(s) == first + encoded(rest));
    if (c as int) < 0x1_0000 {
        assert((first + encoded(rest)).skip(1) =~= encoded(rest));
    } else {
        assert((first + encoded(rest)).skip(2) =~= encoded(rest));
        assert(first[0] == 0xd800 + (c as int - 0x1_0000) / 0x400);
        assert(first[1] == 0xdc00 + (c as int - 0x1_0000) % 0x400);
    }
}

/// Units up to a NUL are the ones before it; without one they are all of them,
/// or none in a field that has to end in one.
pub proof fn units_end_at_the_first_nul(units: Seq<u16>, at: int)
    requires
        0 <= at <= units.len(),
        at < units.len() ==> units[at] == 0,
        forall|i: int| 0 <= i < at ==> #[trigger] units[i] != 0,
    ensures
        first_nul(units) == at,
        until_nul(units) == units.take(at),
        at < units.len() ==> ended(units) == units.take(at),
        at == units.len() ==> ended(units) == Seq::<u16>::empty(),
{
    first_nul_range(units);
    if first_nul(units) < at {
        assert(units[first_nul(units)] != 0);
    }
}

/// Text without a NUL has none in UTF-16 either.
pub proof fn no_nul_in_encoded(s: Seq<char>)
    requires
        forall|i: int| 0 <= i < s.len() ==> #[trigger] s[i] != '\0',
    ensures
        forall|i: int| 0 <= i < encoded(s).len() ==> #[trigger] encoded(s)[i] != 0,
    decreases s.len(),
{
    if s.len() > 0 {
        let c = s[0];
        char_number(c);
        let rest = s.skip(1);
        assert forall|i: int| 0 <= i < rest.len() implies #[trigger] rest[i] != '\0' by {
            assert(rest[i] == s[i + 1]);
        }
        no_nul_in_encoded(rest);
        let first = encoded_char(c);
        assert(first.len() == 1 || first.len() == 2);
        assert(first[0] != 0);
        assert forall|i: int| 0 <= i < encoded(s).len() implies #[trigger] encoded(s)[i] != 0 by {
            if i >= first.len() {
                assert(encoded(s)[i] == encoded(rest)[i - first.len()]);
            } else {
                assert(encoded(s)[i] == first[i]);
            }
        }
    }
}

/// The first NUL is where a NUL stands with none before it.
pub proof fn first_nul_at(units: Seq<u16>, at: int)
    requires
        0 <= at < units.len(),
        units[at] == 0,
        forall|i: int| 0 <= i < at ==> #[trigger] units[i] != 0,
    ensures
        first_nul(units) == at,
{
    first_nul_range(units);
    if first_nul(units) < at {
        assert(units[first_nul(units)] != 0);
    }
}

} // verus!
