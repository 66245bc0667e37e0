//! Version numbers and version resources.

use vstd::prelude::*;
use vstd::slice::slice_subrange;

use crate::text;

verus! {

// ---- the manifest ----

/// `s` without `prefix`, if it starts with it.
pub open spec fn after(s: Seq<char>, prefix: Seq<char>) -> Option<Seq<char>> {
    if prefix.len() <= s.len() && s.take(prefix.len() as int) == prefix {
        Some(s.skip(prefix.len() as int))
    } else {
        None
    }
}

/// The version that a (trimmed) line gives: `version = "..."`, with the quotes
/// or not.
pub open spec fn given_version(l: Seq<char>) -> Option<Seq<char>> {
    match after(l, "version"@) {
        Some(rest) => match after(text::trim_start(rest), seq!['=']) {
            Some(v) => Some(text::strip_start(text::strip_end(text::trim(v), '"'), '"')),
            None => None,
        },
        None => None,
    }
}

/// The version from the lines, `inside` the section or not yet: the first one
/// that is given under `[workspace.package]`.
pub open spec fn version_in(ls: Seq<Seq<char>>, inside: bool) -> Option<Seq<char>>
    decreases ls.len(),
{
    if ls.len() == 0 {
        None
    } else {
        let l = text::trim(ls[0]);
        if l.len() > 0 && l[0] == '[' {
            version_in(ls.skip(1), l == "[workspace.package]"@)
        } else if inside && given_version(l) is Some {
            given_version(l)
        } else {
            version_in(ls.skip(1), inside)
        }
    }
}

fn without_prefix<'a>(s: &'a [char], prefix: &[char]) -> (r: Option<&'a [char]>)
    ensures
        match r {
            Some(rest) => after(s@, prefix@) == Some(rest@),
            None => after(s@, prefix@) is None,
        },
{
    let n: usize = prefix.len();
    if n > s.len() {
        return None;
    }
    let head: &[char] = slice_subrange(s, 0, n);
    let rest: &[char] = slice_subrange(s, n, s.len());
    proof {
        assert(head@ =~= s@.take(n as int));
        assert(rest@ =~= s@.skip(n as int));
    }
    if text::eq_chars(head, prefix) {
        Some(rest)
    } else {
        None
    }
}

fn trimmed_start(s: &[char]) -> (r: &[char])
    ensures
        r@ == text::trim_start(s@),
{
    let mut i: usize = 0;
    proof {
        assert(s@.skip(0) =~= s@);
    }
    while i < s.len() && text::is_white(s[i])
        invariant
            i <= s@.len(),
            text::trim_start(s@.skip(i as int)) == text::trim_start(s@),
        decreases s@.len() - i,
    {
        proof {
            assert(s@.skip(i as int).skip(1) =~= s@.skip(i + 1));
        }
        i = i + 1;
    }
    let r: &[char] = slice_subrange(s, i, s.len());
    proof {
        assert(r@ =~= s@.skip(i as int));
    }
    r
}

fn version_of_line(l: &[char]) -> (r: Option<String>)
    ensures
        match r {
            Some(v) => given_version(l@) == Some(v@),
            None => given_version(l@) is None,
        },
{
    let word: Vec<char> = text::chars_of("version");
    let eq: [char; 1] = ['='];
    proof {
        assert(eq@ =~= seq!['=']);
    }
    match without_prefix(l, word.as_slice()) {
        Some(rest) => match without_prefix(trimmed_start(rest), eq.as_slice()) {
            Some(v) => Some(text::string_of(text::stripped_start(text::stripped_end(text::trimmed(v), '"'), '"'))),
            None => None,
        },
        None => None,
    }
}

/// The workspace's version, from the text of its manifest.
pub fn workspace_version(toml: &str) -> (r: Option<String>)
    ensures
        match r {
            Some(v) => version_in(text::lines(toml@), false) == Some(v@),
            None => version_in(text::lines(toml@), false) is None,
        },
{
    let chars: Vec<char> = text::chars_of(toml);
    let s: &[char] = chars.as_slice();
    let section: Vec<char> = text::chars_of("[workspace.package]");
    let ranges: Vec<(usize, usize)> = text::line_ranges(s);
    let ghost ls = text::lines(toml@);
    let mut inside: bool = false;
    let mut i: usize = 0;
    proof {
        assert(ls.skip(0) =~= ls);
    }
    while i < ranges.len()
        invariant
            i <= ranges@.len(),
            s@ == toml@,
            section@ == "[workspace.package]"@,
            ls == text::lines(toml@),
            text::pieces(s@, ranges@) == ls,
            forall|j: int| 0 <= j < ranges@.len() ==> (#[trigger] ranges@[j]).0 <= ranges@[j].1 <= s@.len(),
            version_in(ls.skip(i as int), inside) == version_in(ls, false),
        decreases ranges@.len() - i,
    {
        let (from, to): (usize, usize) = ranges[i];
        let l: &[char] = text::trimmed(slice_subrange(s, from, to));
        proof {
            assert(text::pieces(s@, ranges@)[i as int] == ls[i as int]);
            assert(ls.skip(i as int)[0] == ls[i as int]);
            assert(ls.skip(i as int).skip(1) =~= ls.skip(i + 1));
        }
        if l.len() > 0 && l[0] == '[' {
            inside = text::eq_chars(l, section.as_slice());
        } else if inside {
            match version_of_line(l) {
                Some(v) => {
                    return Some(v);
                },
                None => {},
            }
        }
        i = i + 1;
    }
    None
}

// ---- numbers ----

/// What stands between the dots of `s`.
pub open spec fn dotted(s: Seq<char>) -> Seq<Seq<char>>
    decreases s.len(),
{
    let at = text::find(s, '.');
    if 0 <= at < s.len() {
        seq![s.take(at)] + dotted(s.skip(at + 1))
    } else {
        seq![s]
    }
}

/// Number `i` of a version: 0 where there is none, or where it is no number.
pub open spec fn number_at(parts: Seq<Seq<char>>, i: int) -> int {
    if i < parts.len() {
        match text::natural(parts[i]) {
            Some(n) => if n <= u32::MAX {
                n
            } else {
                0
            },
            None => 0,
        }
    } else {
        0
    }
}

fn number_of(s: &[char]) -> (r: u32)
    ensures
        r == number_at(seq![s@], 0),
{
    match text::parse_unsigned(s, u32::MAX as u64) {
        Some(n) => n as u32,
        None => 0,
    }
}

/// The first number of `s`, and what follows the first dot.
fn next_number(s: &[char]) -> (r: (u32, Option<&[char]>))
    ensures
        r.0 == number_at(dotted(s@), 0),
        match r.1 {
            Some(rest) => dotted(s@) == seq![dotted(s@)[0]] + dotted(rest@),
            None => dotted(s@).len() == 1,
        },
{
    let at: usize = text::find_char(s, '.');
    if at < s.len() {
        let head: &[char] = slice_subrange(s, 0, at);
        let rest: &[char] = slice_subrange(s, at + 1, s.len());
        proof {
            assert(head@ =~= s@.take(at as int));
            assert(rest@ =~= s@.skip(at + 1));
            assert(dotted(s@)[0] == head@);
        }
        (number_of(head), Some(rest))
    } else {
        (number_of(s), None)
    }
}

/// The first three numbers of a version.
pub fn numbers(version: &str) -> (r: (u32, u32, u32))
    ensures
        r.0 == number_at(dotted(version@), 0),
        r.1 == number_at(dotted(version@), 1),
        r.2 == number_at(dotted(version@), 2),
{
    let chars: Vec<char> = text::chars_of(version);
    let (a, rest): (u32, Option<&[char]>) = next_number(chars.as_slice());
    match rest {
        Some(rest) => {
            let (b, last): (u32, Option<&[char]>) = next_number(rest);
            match last {
                Some(last) => {
                    let (c, _): (u32, Option<&[char]>) = next_number(last);
                    (a, b, c)
                },
                None => (a, b, 0),
            }
        },
        None => (a, 0, 0),
    }
}

// ---- the resource ----

/// Three numbers with commas between them.
pub open spec fn commas(a: int, b: int, c: int) -> Seq<char> {
    text::numeral(a) + ","@ + text::numeral(b) + ","@ + text::numeral(c)
}

fn push_commas(s: &mut String, a: u32, b: u32, c: u32)
    ensures
        final(s)@ == old(s)@ + commas(a as int, b as int, c as int),
{
    text::push_number(s, a as u64);
    s.append(",");
    text::push_number(s, b as u64);
    s.append(",");
    text::push_number(s, c as u64);
    proof {
        assert(s@ =~= old(s)@ + commas(a as int, b as int, c as int));
    }
}

/// The version resource of `file`. Windows Installer replaces a file only by
/// one with a higher version, and leaves one without any alone.
pub open spec fn resource_of(
    version: Seq<char>,
    file: Seq<char>,
    description: Seq<char>,
    filetype: int,
) -> Seq<char> {
    let a = number_at(dotted(version), 0);
    let b = number_at(dotted(version), 1);
    let c = number_at(dotted(version), 2);
    "1 VERSIONINFO\nFILEVERSION "@
        + commas(a, b, c)
        + ",0\nPRODUCTVERSION "@
        + commas(a, b, c)
        + ",0\nFILEFLAGSMASK 0x3f\nFILEFLAGS 0\nFILEOS 0x40004\nFILETYPE "@
        + text::numeral(filetype)
        + "\nFILESUBTYPE 0\nBEGIN\n  BLOCK \"StringFileInfo\"\n  BEGIN\n    BLOCK \"040904b0\"\n    BEGIN\n      VALUE \"CompanyName\", \"zero-platform-Lab\"\n      VALUE \"FileDescription\", \""@
        + description
        + "\"\n      VALUE \"FileVersion\", \""@
        + version
        + "\"\n      VALUE \"InternalName\", \""@
        + file
        + "\"\n      VALUE \"LegalCopyright\", \"GPL-3.0-only\"\n      VALUE \"OriginalFilename\", \""@
        + file
        + "\"\n      VALUE \"ProductName\", \"font-tuner\"\n      VALUE \"ProductVersion\", \""@
        + version
        + "\"\n    END\n  END\n  BLOCK \"VarFileInfo\"\n  BEGIN\n    VALUE \"Translation\", 0x409, 1200\n  END\nEND\n"@
}

/// The text of the version resource of `file`.
pub fn resource(version: &str, file: &str, description: &str, filetype: u32) -> (r: String)
    ensures
        r@ == resource_of(version@, file@, description@, filetype as int),
{
    let (a, b, c): (u32, u32, u32) = numbers(version);
    let mut s: String = "1 VERSIONINFO\nFILEVERSION ".to_owned();
    push_commas(&mut s, a, b, c);
    s.append(",0\nPRODUCTVERSION ");
    push_commas(&mut s, a, b, c);
    s.append(",0\nFILEFLAGSMASK 0x3f\nFILEFLAGS 0\nFILEOS 0x40004\nFILETYPE ");
    text::push_number(&mut s, filetype as u64);
    s.append("\nFILESUBTYPE 0\nBEGIN\n  BLOCK \"StringFileInfo\"\n  BEGIN\n    BLOCK \"040904b0\"\n    BEGIN\n      VALUE \"CompanyName\", \"zero-platform-Lab\"\n      VALUE \"FileDescription\", \"");
    s.append(description);
    s.append("\"\n      VALUE \"FileVersion\", \"");
    s.append(version);
    s.append("\"\n      VALUE \"InternalName\", \"");
    s.append(file);
    s.append("\"\n      VALUE \"LegalCopyright\", \"GPL-3.0-only\"\n      VALUE \"OriginalFilename\", \"");
    s.append(file);
    s.append("\"\n      VALUE \"ProductName\", \"font-tuner\"\n      VALUE \"ProductVersion\", \"");
    s.append(version);
    s.append("\"\n    END\n  END\n  BLOCK \"VarFileInfo\"\n  BEGIN\n    VALUE \"Translation\", 0x409, 1200\n  END\nEND\n");
    s
}

// ---- laws ----

/// A version that is given under `[workspace.package]` is the one that is
/// read, whatever comes after it and whatever text without a section comes
/// before it. Under another section a version does not count.
pub proof fn the_workspace_version_reads_back(before: Seq<char>, version: Seq<char>, after: Seq<char>)
    requires
        before.len() > 0 ==> before.last() == '\n',
        !before.contains('['),
        version.len() > 0,
        text::plain(version),
        version[0] != '"',
        version.last() != '"',
    ensures
        ({
            let line = "version = \""@ + version + seq!['"', '\n'];
            &&& version_in(
                text::lines(before + ("[workspace.package]"@ + seq!['\n'] + (line + after))),
                false,
            ) == Some(version)
            &&& version_in(text::lines("[package]"@ + seq!['\n'] + line), false) is None
            &&& version_in(text::lines(line), false) is None
        }),
{
    let line = "version = \""@ + version + seq!['"', '\n'];
    let l = "version = \""@ + version + seq!['"'];
    reveal_strlit("[workspace.package]");
    reveal_strlit("[package]");
    reveal_strlit("version = \"");
    reveal_strlit("version");
    assert(line + after =~= l + seq!['\n'] + after);
    assert(line =~= l + seq!['\n'] + Seq::<char>::empty());
    assert forall|i: int| 0 <= i < l.len() implies l[i] != '\n' by {
        if i < 11 {
            assert(l[i] == "version = \""@[i]);
        } else if i < l.len() - 1 {
            assert(l[i] == version[i - 11]);
            assert(!text::white(version[i - 11]));
        }
    }
    assert(l.last() == '"');
    a_version_line(version);
    text::trim_keeps(l);
    text::a_line_ends_at_its_feed(l, after);
    text::a_line_ends_at_its_feed(l, seq![]);
    // In its section.
    let head = "[workspace.package]"@;
    assert(head.last() == ']');
    text::trim_keeps(head);
    text::a_line_ends_at_its_feed(head, line + after);
    text::lines_follow_each_other(before, head + seq!['\n'] + (line + after));
    let (a, b) = (text::lines(before), text::lines(after));
    let rest = seq![head] + (seq![l] + b);
    passed_over(before, a, rest);
    assert(rest[0] == head);
    assert(rest.skip(1) =~= seq![l] + b);
    assert((seq![l] + b)[0] == l);
    assert(version_in(seq![l] + b, true) == Some(version));
    // Elsewhere.
    let other = "[package]"@;
    assert(other.last() == ']');
    text::trim_keeps(other);
    text::a_line_ends_at_its_feed(other, line);
    let none = Seq::<Seq<char>>::empty();
    let (alone, under) = (seq![l] + none, seq![other] + (seq![l] + none));
    assert(alone[0] == l && alone.skip(1) =~= none);
    assert(version_in(none, false) is None);
    assert(version_in(alone, false) is None);
    assert(under[0] == other && under.skip(1) =~= alone);
    assert(other.len() != head.len());
    assert(version_in(under, false) is None);
}

proof fn a_version_line(version: Seq<char>)
    requires
        version.len() > 0,
        text::plain(version),
        version[0] != '"',
        version.last() != '"',
    ensures
        given_version("version = \""@ + version + seq!['"']) == Some(version),
{
    reveal_strlit("version = \"");
    reveal_strlit("version");
    let l = "version = \""@ + version + seq!['"'];
    assert(l.take(7) =~= "version"@);
    let rest = l.skip(7);
    let quoted = seq!['"'] + version + seq!['"'];
    assert(rest =~= seq![' ', '=', ' '] + quoted);
    assert(rest[0] == ' ');
    let eq = rest.skip(1);
    assert(eq =~= seq!['=', ' '] + quoted);
    assert(eq[0] == '=');
    assert(text::trim_start(eq) == eq);
    assert(text::trim_start(rest) == eq);
    assert(eq.take(1) =~= seq!['=']);
    assert(eq.skip(1) =~= seq![' '] + quoted + Seq::<char>::empty());
    assert(quoted[0] == '"' && quoted.last() == '"');
    text::padding_is_trimmed(seq![' '], quoted, seq![]);
    let open = seq!['"'] + version;
    assert(quoted.drop_last() =~= open);
    assert(open.last() == version.last());
    assert(text::strip_end(open, '"') == open);
    assert(text::strip_end(quoted, '"') == open);
    assert(open.skip(1) =~= version);
    assert(text::strip_start(version, '"') == version);
    assert(text::strip_start(open, '"') == version);
}

/// Lines without a section say nothing before one.
proof fn passed_over(before: Seq<char>, a: Seq<Seq<char>>, rest: Seq<Seq<char>>)
    requires
        a == text::lines(before),
        !before.contains('['),
    ensures
        version_in(a + rest, false) == version_in(rest, false),
{
    assert forall|i: int| 0 <= i < a.len() implies text::trim(#[trigger] a[i]).len() == 0 || text::trim(a[i])[0]
        != '[' by {
        text::lines_hold_what_the_text_holds(before, '[', i);
        let l = text::trim(a[i]);
        if l.len() > 0 {
            assert(l.contains(l[0]));
        }
    }
    skipped(a, rest);
}

proof fn skipped(a: Seq<Seq<char>>, rest: Seq<Seq<char>>)
    requires
        forall|i: int|
            0 <= i < a.len() ==> text::trim(#[trigger] a[i]).len() == 0 || text::trim(a[i])[0] != '[',
    ensures
        version_in(a + rest, false) == version_in(rest, false),
    decreases a.len(),
{
    if a.len() > 0 {
        assert((a + rest)[0] == a[0]);
        assert((a + rest).skip(1) =~= a.skip(1) + rest);
        assert forall|i: int| 0 <= i < a.skip(1).len() implies text::trim(#[trigger] a.skip(1)[i]).len() == 0
            || text::trim(a.skip(1)[i])[0] != '[' by {
            assert(a.skip(1)[i] == a[i + 1]);
        }
        skipped(a.skip(1), rest);
    } else {
        assert(a + rest =~= rest);
    }
}

/// The numbers of a version are those between its dots; one that is missing,
/// or is no number, counts as 0.
pub proof fn a_version_is_its_numbers(a: u32, b: u32, c: u32, rest: Seq<char>, s: Seq<char>)
    ensures
        ({
            let parts = dotted(
                text::numeral(a as int) + seq!['.'] + (text::numeral(b as int) + seq!['.'] + text::numeral(c as int)),
            );
            &&& number_at(parts, 0) == a && number_at(parts, 1) == b && number_at(parts, 2) == c
            &&& number_at(parts, 3) == 0
        }),
        !s.contains('.') ==> dotted(s + seq!['.'] + rest) == seq![s] + dotted(rest) && dotted(s) == seq![s],
        text::natural(s) is None ==> number_at(seq![s], 0) == 0,
{
    let (x, y, z) = (text::numeral(a as int), text::numeral(b as int), text::numeral(c as int));
    no_dot(a as int);
    no_dot(b as int);
    no_dot(c as int);
    text::numerals_are_natural(a as int);
    text::numerals_are_natural(b as int);
    text::numerals_are_natural(c as int);
    first_part(x, y + seq!['.'] + z);
    first_part(y, z);
    first_part(z, seq![]);
    if !s.contains('.') {
        first_part(s, rest);
    }
}

proof fn no_dot(n: int)
    requires
        n >= 0,
    ensures
        !text::numeral(n).contains('.'),
{
    text::numeral_reads_back(n);
    let d = text::numeral(n);
    assert forall|i: int| 0 <= i < d.len() implies d[i] != '.' by {
        assert(text::digit(d[i]));
    }
}

proof fn first_part(s: Seq<char>, rest: Seq<char>)
    requires
        !s.contains('.'),
    ensures
        dotted(s + seq!['.'] + rest) == seq![s] + dotted(rest),
        dotted(s) == seq![s],
{
    let all = s + seq!['.'] + rest;
    let at = s.len() as int;
    assert forall|i: int| 0 <= i < at implies s[i] != '.' by {
        assert(s.contains(s[i]));
    }
    assert forall|i: int| 0 <= i < at implies all[i] != '.' by {
        assert(all[i] == s[i]);
    }
    assert(all[at] == '.');
    text::find_unique(all, '.', at);
    text::find_unique(s, '.', at);
    assert(all.take(at) =~= s);
    assert(all.skip(at + 1) =~= rest);
}

/// The text stands somewhere in another.
pub open spec fn stands_in(part: Seq<char>, whole: Seq<char>) -> bool {
    exists|i: int| 0 <= i <= i + part.len() <= whole.len() && #[trigger] whole.subrange(i, i + part.len()) == part
}

proof fn stands_between(a: Seq<char>, part: Seq<char>, b: Seq<char>)
    ensures
        stands_in(part, a + part + b),
{
    let whole = a + part + b;
    assert(whole.subrange(a.len() as int, a.len() as int + part.len()) =~= part);
}

/// A resource tells the version, as it is written, as the file's and as the
/// product's, and the file's name as the one it has and the one it was built
/// with.
pub proof fn a_resource_tells_version_and_name(
    version: Seq<char>,
    file: Seq<char>,
    description: Seq<char>,
    filetype: int,
)
    ensures
        ({
            let r = resource_of(version, file, description, filetype);
            &&& stands_in("VALUE \"FileVersion\", \""@ + version + "\"\n"@, r)
            &&& stands_in("VALUE \"ProductVersion\", \""@ + version + "\"\n"@, r)
            &&& stands_in("VALUE \"InternalName\", \""@ + file + "\"\n"@, r)
            &&& stands_in("VALUE \"OriginalFilename\", \""@ + file + "\"\n"@, r)
            &&& stands_in("VALUE \"FileDescription\", \""@ + description + "\"\n"@, r)
        }),
{
    let a = number_at(dotted(version), 0);
    let b = number_at(dotted(version), 1);
    let c = number_at(dotted(version), 2);
    let head = "1 VERSIONINFO\nFILEVERSION "@ + commas(a, b, c) + ",0\nPRODUCTVERSION "@ + commas(a, b, c)
        + ",0\nFILEFLAGSMASK 0x3f\nFILEFLAGS 0\nFILEOS 0x40004\nFILETYPE "@ + text::numeral(filetype);
    let l0 = "\nFILESUBTYPE 0\nBEGIN\n  BLOCK \"StringFileInfo\"\n  BEGIN\n    BLOCK \"040904b0\"\n    BEGIN\n      VALUE \"CompanyName\", \"zero-platform-Lab\"\n      VALUE \"FileDescription\", \""@;
    let l1 = "\"\n      VALUE \"FileVersion\", \""@;
    let l2 = "\"\n      VALUE \"InternalName\", \""@;
    let l3 = "\"\n      VALUE \"LegalCopyright\", \"GPL-3.0-only\"\n      VALUE \"OriginalFilename\", \""@;
    let l4 = "\"\n      VALUE \"ProductName\", \"font-tuner\"\n      VALUE \"ProductVersion\", \""@;
    let l5 = "\"\n    END\n  END\n  BLOCK \"VarFileInfo\"\n  BEGIN\n    VALUE \"Translation\", 0x409, 1200\n  END\nEND\n"@;
    reveal_strlit("\nFILESUBTYPE 0\nBEGIN\n  BLOCK \"StringFileInfo\"\n  BEGIN\n    BLOCK \"040904b0\"\n    BEGIN\n      VALUE \"CompanyName\", \"zero-platform-Lab\"\n      VALUE \"FileDescription\", \"");
    reveal_strlit("\"\n      VALUE \"FileVersion\", \"");
    reveal_strlit("\"\n      VALUE \"InternalName\", \"");
    reveal_strlit("\"\n      VALUE \"LegalCopyright\", \"GPL-3.0-only\"\n      VALUE \"OriginalFilename\", \"");
    reveal_strlit("\"\n      VALUE \"ProductName\", \"font-tuner\"\n      VALUE \"ProductVersion\", \"");
    reveal_strlit("\"\n    END\n  END\n  BLOCK \"VarFileInfo\"\n  BEGIN\n    VALUE \"Translation\", 0x409, 1200\n  END\nEND\n");
    let r = resource_of(version, file, description, filetype);
    assert(r =~= head + l0 + description + l1 + version + l2 + file + l3 + file + l4 + version + l5);
    reveal_strlit("\"\n");
    reveal_strlit("VALUE \"FileDescription\", \"");
    an_entry_stands(head, l0, "VALUE \"FileDescription\", \""@, description, l1, version + l2 + file + l3 + file + l4 + version + l5, r);
    reveal_strlit("VALUE \"FileVersion\", \"");
    an_entry_stands(head + l0 + description, l1, "VALUE \"FileVersion\", \""@, version, l2, file + l3 + file + l4 + version + l5, r);
    reveal_strlit("VALUE \"InternalName\", \"");
    an_entry_stands(head + l0 + description + l1 + version, l2, "VALUE \"InternalName\", \""@, file, l3, file + l4 + version + l5, r);
    reveal_strlit("VALUE \"OriginalFilename\", \"");
    an_entry_stands(head + l0 + description + l1 + version + l2 + file, l3, "VALUE \"OriginalFilename\", \""@, file, l4, version + l5, r);
    reveal_strlit("VALUE \"ProductVersion\", \"");
    an_entry_stands(head + l0 + description + l1 + version + l2 + file + l3 + file, l4, "VALUE \"ProductVersion\", \""@, version, l5, seq![], r);
}

proof fn an_entry_stands(
    a: Seq<char>,
    left: Seq<char>,
    key: Seq<char>,
    value: Seq<char>,
    right: Seq<char>,
    b: Seq<char>,
    r: Seq<char>,
)
    requires
        key.len() <= left.len(),
        left.skip(left.len() - key.len()) =~= key,
        right.len() >= 2,
        right[0] == '"',
        right[1] == '\n',
        r =~= a + left + value + right + b,
    ensures
        stands_in(key + value + "\"\n"@, r),
{
    reveal_strlit("\"\n");
    let n = left.len() - key.len();
    let part = key + value + "\"\n"@;
    let (x, y) = (a + left.take(n), right.skip(2) + b);
    assert(left =~= left.take(n) + key);
    assert(right =~= "\"\n"@ + right.skip(2));
    assert(r =~= x + part + y);
    stands_between(x, part, y);
}

} // verus!
