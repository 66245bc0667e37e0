//! Which rendering profile is active, and when to read it again.
//!
//! The tray owns the choice: it writes `[General] AlternativeFile=` into the
//! install directory's `font-tuner.ini`.

use vstd::prelude::*;
use vstd::slice::slice_subrange;

use crate::config;
use crate::text;

verus! {

/// The (trimmed) line is a comment.
pub open spec fn remark(l: Seq<char>) -> bool {
    l.len() > 0 && (l[0] == ';' || l[0] == '#')
}

/// The (trimmed) line gives `AlternativeFile` a value.
pub open spec fn names_file(l: Seq<char>) -> bool {
    let eq = text::find(l, '=');
    !remark(l) && eq < l.len() && text::same_letters(text::trim(l.take(eq)), "AlternativeFile"@)
}

/// The value of a line's key.
pub open spec fn named_file(l: Seq<char>) -> Seq<char> {
    text::trim(l.skip(text::find(l, '=') + 1))
}

/// The file that the first line with the key names; an empty name is none.
pub open spec fn alternative(ls: Seq<Seq<char>>) -> Option<Seq<char>>
    decreases ls.len(),
{
    if ls.len() == 0 {
        None
    } else if names_file(text::trim(ls[0])) {
        let v = named_file(text::trim(ls[0]));
        if v.len() == 0 {
            None
        } else {
            Some(v)
        }
    } else {
        alternative(ls.skip(1))
    }
}

/// The `AlternativeFile=` value from the text of a `font-tuner.ini`.
///
/// The key match ignores case and surrounding blanks, `;` and `#` comment
/// lines are skipped, and a value containing `=` (a path can) is kept whole.
/// An empty value means "not set".
#[verifier::spinoff_prover]
#[verifier::rlimit(40)]
pub fn parse_alternative_file(text: &str) -> (r: Option<&str>)
    ensures
        match r {
            Some(v) => alternative(text::lines(text@)) == Some(v@),
            None => alternative(text::lines(text@)) is None,
        },
{
    let chars: Vec<char> = text::chars_of(text);
    let s: &[char] = chars.as_slice();
    let key: Vec<char> = text::chars_of("AlternativeFile");
    let ranges: Vec<(usize, usize)> = text::line_ranges(s);
    let ghost ls = text::lines(text@);
    let mut i: usize = 0;
    proof {
        assert(ls.skip(0) =~= ls);
    }
    while i < ranges.len()
        invariant
            i <= ranges@.len(),
            s@ == text@,
            ls == text::lines(text@),
            key@ == "AlternativeFile"@,
            text::pieces(s@, ranges@) == ls,
            forall|j: int| 0 <= j < ranges@.len() ==> (#[trigger] ranges@[j]).0 <= ranges@[j].1 <= s@.len(),
            alternative(ls.skip(i as int)) == alternative(ls),
        decreases ranges@.len() - i,
    {
        let (from, to): (usize, usize) = ranges[i];
        let line: &[char] = slice_subrange(s, from, to);
        let (a, b): (usize, usize) = text::trim_range(line);
        let l: &[char] = slice_subrange(line, a, b);
        proof {
            assert(text::pieces(s@, ranges@)[i as int] == ls[i as int]);
            assert(ls.skip(i as int)[0] == ls[i as int]);
            assert(ls.skip(i as int).skip(1) =~= ls.skip(i + 1));
        }
        let is_remark: bool = l.len() > 0 && (l[0] == ';' || l[0] == '#');
        let eq: usize = text::find_char(l, '=');
        if !is_remark && eq < l.len() {
            let name: &[char] = slice_subrange(l, 0, eq);
            let value: &[char] = slice_subrange(l, eq + 1, l.len());
            proof {
                assert(name@ =~= l@.take(eq as int));
                assert(value@ =~= l@.skip(eq + 1));
            }
            if text::eq_ignore_case(text::trimmed(name), key.as_slice()) {
                let (c, d): (usize, usize) = text::trim_range(value);
                if c == d {
                    return None;
                }
                let start: usize = from + a + eq + 1;
                proof {
                    assert(text@.subrange(start + c, start + d) =~= value@.subrange(c as int, d as int));
                }
                return Some(text.substring_char(start + c, start + d));
            }
        }
        i = i + 1;
    }
    None
}

// ---- programs that are left alone ----

/// The (trimmed) line opens the section that lists the programs to leave alone.
pub open spec fn opens_list(l: Seq<char>) -> bool {
    text::same_letters(text::trim(text::strip_start(text::strip_end(l, ']'), '[')), "UnloadDll"@)
}

/// Line `n` stands under `[UnloadDll]`.
pub open spec fn in_list(ls: Seq<Seq<char>>, n: int) -> bool
    decreases n,
{
    if n <= 0 {
        false
    } else {
        let l = text::trim(ls[n - 1]);
        if l.len() > 0 && l[0] == '[' {
            opens_list(l)
        } else {
            in_list(ls, n - 1)
        }
    }
}

/// One of the first `n` lines lists the program `exe`.
pub open spec fn listed(ls: Seq<Seq<char>>, n: int, exe: Seq<char>) -> bool {
    exists|i: int|
        0 <= i < n && #[trigger] in_list(ls, i) && !remark(text::trim(ls[i])) && text::same_letters(
            text::trim(ls[i]),
            exe,
        )
}

fn heads_list(l: &[char]) -> (r: bool)
    ensures
        r == opens_list(l@),
{
    let name: &[char] = text::trimmed(text::stripped_start(text::stripped_end(l, ']'), '['));
    let list: Vec<char> = text::chars_of("UnloadDll");
    text::eq_ignore_case(name, list.as_slice())
}

/// Whether the text of a `font-tuner.ini` lists the program `exe` under
/// `[UnloadDll]`: one that is to be left alone. Case does not matter, and
/// comment lines do not count.
pub fn is_process_excluded(text: &str, exe: &str) -> (r: bool)
    ensures
        r == listed(text::lines(text@), text::lines(text@).len() as int, exe@),
{
    let chars: Vec<char> = text::chars_of(text);
    let s: &[char] = chars.as_slice();
    let want: Vec<char> = text::chars_of(exe);
    let ranges: Vec<(usize, usize)> = text::line_ranges(s);
    let ghost ls = text::lines(text@);
    let mut inside: bool = false;
    let mut i: usize = 0;
    while i < ranges.len()
        invariant
            i <= ranges@.len(),
            s@ == text@,
            ls == text::lines(text@),
            text::pieces(s@, ranges@) == ls,
            forall|j: int| 0 <= j < ranges@.len() ==> (#[trigger] ranges@[j]).0 <= ranges@[j].1 <= s@.len(),
            want@ == exe@,
            inside == in_list(ls, i as int),
            !listed(ls, i as int, exe@),
        decreases ranges@.len() - i,
    {
        let (from, to): (usize, usize) = ranges[i];
        let l: &[char] = text::trimmed(slice_subrange(s, from, to));
        proof {
            assert(text::pieces(s@, ranges@)[i as int] == ls[i as int]);
            assert(l@ == text::trim(ls[i as int]));
        }
        let is_remark: bool = l.len() > 0 && (l[0] == ';' || l[0] == '#');
        if inside && !is_remark && text::eq_ignore_case(l, want.as_slice()) {
            assert(in_list(ls, i as int));
            return true;
        }
        if l.len() > 0 && l[0] == '[' {
            inside = heads_list(l);
        }
        i = i + 1;
    }
    false
}

/// A message that a `WH_GETMESSAGE` hook sees asks for the profile to be read
/// again: it is being taken off the queue (not only looked at, so once per
/// delivered message), and it is the registered one (0 is none).
pub fn reload_requested(code: i32, removal: u32, message: Option<u32>, registered: u32) -> (r: bool)
    ensures
        r <==> code == 0 && removal == 1 && registered != 0 && message == Some(registered),
{
    if code != 0 || removal != 1 || registered == 0 {
        return false;
    }
    match message {
        Some(m) => m == registered,
        None => false,
    }
}

// ---- laws ----

/// The first line with the key decides: what follows it changes nothing, not
/// even where it names no file.
pub proof fn the_first_line_decides(before: Seq<Seq<char>>, line: Seq<char>, after: Seq<Seq<char>>)
    requires
        forall|i: int| 0 <= i < before.len() ==> !names_file(text::trim(#[trigger] before[i])),
        names_file(text::trim(line)),
    ensures
        alternative(before.push(line) + after) == alternative(seq![line]),
    decreases before.len(),
{
    let all = before.push(line) + after;
    if before.len() == 0 {
        assert(all[0] == line);
    } else {
        assert(all[0] == before[0]);
        assert(all.skip(1) =~= before.skip(1).push(line) + after);
        assert forall|i: int| 0 <= i < before.skip(1).len() implies !names_file(text::trim(#[trigger] before.skip(1)[i])) by {
            assert(before.skip(1)[i] == before[i + 1]);
        }
        the_first_line_decides(before.skip(1), line, after);
    }
}

/// Without a line that has the key there is no file.
pub proof fn no_line_no_file(ls: Seq<Seq<char>>)
    requires
        forall|i: int| 0 <= i < ls.len() ==> !names_file(text::trim(#[trigger] ls[i])),
    ensures
        alternative(ls) is None,
    decreases ls.len(),
{
    if ls.len() > 0 {
        assert(!names_file(text::trim(ls[0])));
        assert forall|i: int| 0 <= i < ls.skip(1).len() implies !names_file(text::trim(#[trigger] ls.skip(1)[i])) by {
            assert(ls.skip(1)[i] == ls[i + 1]);
        }
        no_line_no_file(ls.skip(1));
    }
}

/// A file that is named is the one that is read, whatever comes after it and
/// whatever lines without a `=` come before it: the key in letters of either
/// case, blanks around it and around the name, and the name kept whole. A
/// blank name is none.
pub proof fn a_named_file_reads_back(
    before: Seq<char>,
    pads: (Seq<char>, Seq<char>, Seq<char>, Seq<char>),
    key: Seq<char>,
    name: Seq<char>,
    after: Seq<char>,
)
    requires
        before.len() > 0 ==> before.last() == '\n',
        !before.contains('='),
        config::blank(pads.0) && config::blank(pads.1) && config::blank(pads.2) && config::blank(pads.3),
        text::same_letters(key, "AlternativeFile"@),
        name.len() > 0,
        !text::white(name[0]) && !text::white(name.last()),
        forall|i: int| 0 <= i < name.len() ==> name[i] != '\n' && name[i] != '\r',
    ensures
        alternative(text::lines(before + config::written_entry(pads, key, name) + after)) == Some(name),
        alternative(text::lines(before + config::written_entry(pads, key, seq![]) + after)) is None,
{
    a_file_line_is_found(before, pads, key, name, after);
    a_file_line_is_found(before, pads, key, seq![], after);
}

proof fn a_file_line_is_found(
    before: Seq<char>,
    pads: (Seq<char>, Seq<char>, Seq<char>, Seq<char>),
    key: Seq<char>,
    name: Seq<char>,
    after: Seq<char>,
)
    requires
        before.len() > 0 ==> before.last() == '\n',
        !before.contains('='),
        config::blank(pads.0) && config::blank(pads.1) && config::blank(pads.2) && config::blank(pads.3),
        text::same_letters(key, "AlternativeFile"@),
        name.len() > 0 ==> !text::white(name[0]) && !text::white(name.last()),
        forall|i: int| 0 <= i < name.len() ==> name[i] != '\n' && name[i] != '\r',
    ensures
        alternative(text::lines(before + config::written_entry(pads, key, name) + after)) == (if name.len() > 0 {
            Some(name)
        } else {
            None
        }),
{
    let whole = before + config::written_entry(pads, key, name) + after;
    let line = pads.0 + key + pads.1 + seq!['='] + pads.2 + name + pads.3;
    key_letters(key);
    assert(whole =~= before + (line + seq!['\n'] + after));
    assert forall|i: int| 0 <= i < line.len() implies line[i] != '\n' && line[i] != '\r' by {
        let n1 = pads.0.len() as int;
        let n2 = n1 + key.len();
        let n3 = n2 + pads.1.len();
        let n4 = n3 + 1 + pads.2.len();
        let n5 = n4 + name.len();
        if i < n1 {
            assert(line[i] == pads.0[i]);
        } else if i < n2 {
            assert(line[i] == key[i - n1]);
            assert(!text::white(key[i - n1]));
        } else if i < n3 {
            assert(line[i] == pads.1[i - n2]);
        } else if i == n3 {
            assert(line[i] == '=');
        } else if i < n4 {
            assert(line[i] == pads.2[i - n3 - 1]);
        } else if i < n5 {
            assert(line[i] == name[i - n4]);
        } else {
            assert(line[i] == pads.3[i - n5]);
        }
    }
    text::lines_follow_each_other(before, line + seq!['\n'] + after);
    text::a_line_ends_at_its_feed(line, after);
    let (a, b) = (text::lines(before), text::lines(after));
    assert(text::lines(whole) =~= a.push(line) + b);
    assert forall|i: int| 0 <= i < a.len() implies !names_file(text::trim(#[trigger] a[i])) by {
        text::lines_hold_what_the_text_holds(before, '=', i);
        let l = text::trim(a[i]);
        text::find_is_first(l, '=');
        if text::find(l, '=') < l.len() {
            assert(l.contains(l[text::find(l, '=')]));
        }
    }
    // The line, cut up.
    let (core, tail) = if name.len() > 0 {
        (key + pads.1 + seq!['='] + pads.2 + name, pads.3)
    } else {
        (key + pads.1 + seq!['='], pads.2 + pads.3)
    };
    assert(line =~= pads.0 + core + tail);
    assert(core[0] == key[0]);
    assert(core.last() == (if name.len() > 0 {
        name.last()
    } else {
        '='
    }));
    assert forall|i: int| 0 <= i < tail.len() implies text::white(#[trigger] tail[i]) by {
        if name.len() == 0 {
            if i < pads.2.len() {
                assert(tail[i] == pads.2[i]);
            } else {
                assert(tail[i] == pads.3[i - pads.2.len()]);
            }
        }
    }
    text::padding_is_trimmed(pads.0, core, tail);
    let at = key.len() as int + pads.1.len();
    assert(core[at] == '=');
    assert forall|i: int| 0 <= i < at implies core[i] != '=' by {
        if i < key.len() {
            assert(core[i] == key[i]);
        } else {
            assert(core[i] == pads.1[i - key.len()]);
        }
    }
    text::find_unique(core, '=', at);
    assert(core.take(at) =~= Seq::<char>::empty() + key + pads.1);
    text::padding_is_trimmed(seq![], key, pads.1);
    if name.len() > 0 {
        assert(core.skip(at + 1) =~= pads.2 + name + Seq::<char>::empty());
        text::padding_is_trimmed(pads.2, name, seq![]);
    } else {
        assert(core.skip(at + 1) =~= Seq::<char>::empty());
    }
    assert(names_file(text::trim(line)));
    the_first_line_decides(a, line, b);
    assert(seq![line][0] == line);
}

proof fn key_letters(key: Seq<char>)
    requires
        text::same_letters(key, "AlternativeFile"@),
    ensures
        key.len() == 15,
        text::plain(key),
        forall|i: int| 0 <= i < key.len() ==> #[trigger] key[i] != '=' && key[i] != ';' && key[i] != '#',
{
    reveal_strlit("AlternativeFile");
    assert forall|i: int| 0 <= i < key.len() implies {
        &&& !text::white(#[trigger] key[i])
        &&& key[i] != '='
        &&& key[i] != ';'
        &&& key[i] != '#'
    } by {
        assert(text::lower(key[i]) == text::lower("AlternativeFile"@[i]));
        assert('A' <= "AlternativeFile"@[i] <= 'z');
        assert('A' <= "AlternativeFile"@[i] <= 'Z' || 'a' <= "AlternativeFile"@[i] <= 'z');
    }
}

/// A comment names no file, with either sign.
pub proof fn a_comment_names_no_file(l: Seq<char>)
    requires
        l.len() > 0,
        l[0] == ';' || l[0] == '#',
    ensures
        !names_file(l),
        remark(l),
{
}

/// A program is left alone if a line under `[UnloadDll]` names it, in letters
/// of either case, wherever that section stands and whatever comes after.
pub proof fn a_listed_program_is_left_alone(
    before: Seq<char>,
    section: Seq<char>,
    pads: (Seq<char>, Seq<char>),
    line: Seq<char>,
    exe: Seq<char>,
    after: Seq<char>,
)
    requires
        before.len() > 0 ==> before.last() == '\n',
        text::same_letters(section, "UnloadDll"@),
        config::blank(pads.0) && config::blank(pads.1),
        text::same_letters(line, exe),
        line.len() > 0,
        !text::white(line[0]) && !text::white(line.last()),
        line[0] != ';' && line[0] != '#',
        forall|i: int| 0 <= i < line.len() ==> line[i] != '\n' && line[i] != '\r',
    ensures
        ({
            let ls = text::lines(
                before + config::written_header(section) + (pads.0 + line + pads.1 + seq!['\n']) + after,
            );
            listed(ls, ls.len() as int, exe)
        }),
{
    let whole = before + config::written_header(section) + (pads.0 + line + pads.1 + seq!['\n']) + after;
    let head = seq!['['] + section + seq![']'];
    let padded = pads.0 + line + pads.1;
    the_list_header(section);
    assert(whole =~= before + (head + seq!['\n'] + (padded + seq!['\n'] + after)));
    assert forall|i: int| 0 <= i < padded.len() implies padded[i] != '\n' && padded[i] != '\r' by {
        let n1 = pads.0.len() as int;
        let n2 = n1 + line.len();
        if i < n1 {
            assert(padded[i] == pads.0[i]);
        } else if i < n2 {
            assert(padded[i] == line[i - n1]);
        } else {
            assert(padded[i] == pads.1[i - n2]);
        }
    }
    text::lines_follow_each_other(before, head + seq!['\n'] + (padded + seq!['\n'] + after));
    text::a_line_ends_at_its_feed(head, padded + seq!['\n'] + after);
    text::a_line_ends_at_its_feed(padded, after);
    text::padding_is_trimmed(pads.0, line, pads.1);
    let (a, b) = (text::lines(before), text::lines(after));
    let ls = text::lines(whole);
    assert(ls =~= a + (seq![head] + (seq![padded] + b)));
    let n = a.len() as int + 1;
    assert(ls[n - 1] == head && ls[n] == padded);
    assert(in_list(ls, n));
}

/// Under another section a program may be named and is not left alone.
pub proof fn a_program_named_elsewhere_is_not_left_alone(section: Seq<char>, line: Seq<char>, exe: Seq<char>)
    requires
        text::plain(section),
        section.len() > 0,
        section[0] != '[',
        section.last() != ']',
        !text::same_letters(section, "UnloadDll"@),
        line.len() > 0,
        line[0] != '[',
        !text::white(line[0]) && !text::white(line.last()),
        forall|i: int| 0 <= i < line.len() ==> line[i] != '\n' && line[i] != '\r',
    ensures
        ({
            let ls = text::lines(config::written_header(section) + (line + seq!['\n']));
            !listed(ls, ls.len() as int, exe)
        }),
{
    let whole = config::written_header(section) + (line + seq!['\n']);
    let head = seq!['['] + section + seq![']'];
    assert(whole =~= head + seq!['\n'] + (line + seq!['\n'] + Seq::<char>::empty()));
    assert forall|i: int| 0 <= i < head.len() implies head[i] != '\n' by {
        if 0 < i < head.len() - 1 {
            assert(head[i] == section[i - 1]);
            assert(!text::white(section[i - 1]));
        }
    }
    text::a_line_ends_at_its_feed(head, line + seq!['\n'] + Seq::<char>::empty());
    text::a_line_ends_at_its_feed(line, seq![]);
    let ls = text::lines(whole);
    assert(ls =~= seq![head, line]);
    text::trim_keeps(head);
    text::trim_keeps(line);
    header_name(section);
    assert(!in_list(ls, 0));
    assert(!in_list(ls, 1));
}

proof fn the_list_header(section: Seq<char>)
    requires
        text::same_letters(section, "UnloadDll"@),
    ensures
        ({
            let head = seq!['['] + section + seq![']'];
            &&& forall|i: int| 0 <= i < head.len() ==> head[i] != '\n'
            &&& text::trim(head) == head
            &&& opens_list(head)
        }),
{
    reveal_strlit("UnloadDll");
    assert forall|i: int| 0 <= i < section.len() implies {
        &&& !text::white(#[trigger] section[i])
        &&& section[i] != '['
        &&& section[i] != ']'
    } by {
        assert(text::lower(section[i]) == text::lower("UnloadDll"@[i]));
        assert('A' <= "UnloadDll"@[i] <= 'Z' || 'a' <= "UnloadDll"@[i] <= 'z');
    }
    let head = seq!['['] + section + seq![']'];
    assert forall|i: int| 0 <= i < head.len() implies head[i] != '\n' by {
        if 0 < i < head.len() - 1 {
            assert(head[i] == section[i - 1]);
        }
    }
    assert(section[0] != '[' && section[section.len() - 1] != ']');
    text::trim_keeps(head);
    header_name(section);
}

proof fn header_name(section: Seq<char>)
    requires
        text::plain(section),
        section.len() > 0,
        section[0] != '[',
        section.last() != ']',
    ensures
        text::trim(text::strip_start(text::strip_end(seq!['['] + section + seq![']'], ']'), '[')) == section,
{
    let l = seq!['['] + section + seq![']'];
    assert(l.drop_last() =~= seq!['['] + section);
    assert((seq!['['] + section).last() == section.last());
    assert(text::strip_end(seq!['['] + section, ']') == seq!['['] + section);
    assert(text::strip_end(l, ']') == seq!['['] + section);
    assert((seq!['['] + section).skip(1) =~= section);
    assert(text::strip_start(section, '[') == section);
    assert(text::strip_start(seq!['['] + section, '[') == section);
    assert(!text::white(section[0]) && !text::white(section[section.len() - 1]));
    text::trim_keeps(section);
}

} // verus!
