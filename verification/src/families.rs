//! Which face of a font collection has a family name.

use vstd::prelude::*;

use crate::text;
use crate::utf16;

verus! {

/// The lower case of a character, as Unicode has it: one character or more.
pub uninterp spec fn lowercase(c: char) -> Seq<char>;

/// `char::to_lowercase`, its characters put into a vector. Nothing is said of
/// which characters they are: the mapping is Unicode's, and needs no locale.
#[verifier::external_body]
fn to_lowercase(c: char) -> (r: Vec<char>)
    ensures
        r@ == lowercase(c),
{
    c.to_lowercase().collect()
}

/// A text in lower case, character by character.
pub open spec fn lowercase_text(s: Seq<char>) -> Seq<char>
    decreases s.len(),
{
    if s.len() == 0 {
        seq![]
    } else {
        lowercase_text(s.drop_last()) + lowercase(s.last())
    }
}

/// `s` in lower case.
pub fn lowered(s: &[char]) -> (r: Vec<char>)
    ensures
        r@ == lowercase_text(s@),
{
    let mut r: Vec<char> = Vec::new();
    let mut i: usize = 0;
    proof {
        assert(r@ =~= lowercase_text(s@.take(0)));
    }
    while i < s.len()
        invariant
            i <= s@.len(),
            r@ == lowercase_text(s@.take(i as int)),
        decreases s@.len() - i,
    {
        let mut low: Vec<char> = to_lowercase(s[i]);
        proof {
            assert(s@.take(i + 1).drop_last() =~= s@.take(i as int));
            assert(s@.take(i + 1).last() == s@[i as int]);
        }
        r.append(&mut low);
        i = i + 1;
    }
    proof {
        assert(s@.take(s@.len() as int) =~= s@);
    }
    r
}

/// An entry of a font's name table.
#[derive(Debug)]
pub struct SfntName {
    pub platform_id: u16,
    pub name_id: u16,
    pub string: Option<Vec<u8>>,
}

/// What names a face.
#[derive(Debug)]
pub struct FaceNames {
    /// The ASCII family name.
    pub family_name: Option<Vec<u8>>,
    /// The name table; `None` for an entry that could not be read.
    pub names: Vec<Option<SfntName>>,
}

/// The ASCII lower case of a byte.
pub open spec fn lower_byte(b: u8) -> u8 {
    if 0x41 <= b <= 0x5a {
        (b + 32) as u8
    } else {
        b
    }
}

pub open spec fn same_bytes(a: Seq<u8>, b: Seq<u8>) -> bool {
    a.len() == b.len() && forall|i: int| 0 <= i < a.len() ==> lower_byte(#[trigger] a[i]) == lower_byte(b[i])
}

/// Code units, high byte first; an odd byte at the end is none.
pub open spec fn big_endian(b: Seq<u8>) -> Seq<u16> {
    Seq::new(b.len() / 2, |i: int| (b[2 * i] * 0x100 + b[2 * i + 1]) as u16)
}

/// The family name that a name table entry holds: Windows' (platform 3),
/// under the ids for family names. Lone surrogates are left out.
pub open spec fn family_text(e: SfntName) -> Option<Seq<char>> {
    match e.string {
        Some(s) => if e.platform_id == 3 && (e.name_id == 1 || e.name_id == 16 || e.name_id == 21) {
            Some(utf16::decoded(big_endian(s@), seq![]))
        } else {
            None
        },
        None => None,
    }
}

fn eq_bytes(a: &[u8], b: &[u8]) -> (r: bool)
    ensures
        r == same_bytes(a@, b@),
{
    if a.len() != b.len() {
        return false;
    }
    let mut i: usize = 0;
    while i < a.len()
        invariant
            a@.len() == b@.len(),
            i <= a@.len(),
            forall|j: int| 0 <= j < i ==> lower_byte(#[trigger] a@[j]) == lower_byte(b@[j]),
        decreases a@.len() - i,
    {
        let x: u8 = if 0x41 <= a[i] && a[i] <= 0x5a {
            a[i] + 32
        } else {
            a[i]
        };
        let y: u8 = if 0x41 <= b[i] && b[i] <= 0x5a {
            b[i] + 32
        } else {
            b[i]
        };
        if x != y {
            assert(lower_byte(a@[i as int]) != lower_byte(b@[i as int]));
            return false;
        }
        i = i + 1;
    }
    true
}

fn units_of(b: &[u8]) -> (r: Vec<u16>)
    ensures
        r@ == big_endian(b@),
{
    let mut r: Vec<u16> = Vec::new();
    let n: usize = b.len() / 2;
    let mut i: usize = 0;
    while i < n
        invariant
            i <= n,
            n == b@.len() / 2,
            b@.len() <= usize::MAX,
            r@.len() == i,
            forall|j: int| 0 <= j < i ==> #[trigger] r@[j] == (b@[2 * j] * 0x100 + b@[2 * j + 1]) as u16,
        decreases n - i,
    {
        r.push(b[2 * i] as u16 * 0x100 + b[2 * i + 1] as u16);
        i = i + 1;
    }
    proof {
        assert(r@ =~= big_endian(b@));
    }
    r
}

/// The family name that a name table entry holds.
pub fn family_of(e: &SfntName) -> (r: Option<Vec<char>>)
    ensures
        match r {
            Some(t) => family_text(*e) == Some(t@),
            None => family_text(*e) is None,
        },
{
    match &e.string {
        Some(s) => if e.platform_id == 3 && (e.name_id == 1 || e.name_id == 16 || e.name_id == 21) {
            let units: Vec<u16> = units_of(s.as_slice());
            Some(utf16::decode(units.as_slice(), None))
        } else {
            None
        },
        None => None,
    }
}

/// Entry `e` holds the family `want`, whatever the case.
pub open spec fn names_family(e: Option<SfntName>, want: Seq<char>) -> bool {
    match e {
        Some(e) => match family_text(e) {
            Some(t) => lowercase_text(t) == lowercase_text(want),
            None => false,
        },
        None => false,
    }
}

/// The face is of family `want`: by its ASCII name, or by its name table.
pub open spec fn has_family(f: FaceNames, want: Seq<char>) -> bool {
    ||| match f.family_name {
        Some(b) => same_bytes(b@, vstd::utf8::encode_utf8(want)),
        None => false,
    }
    ||| exists|i: int| 0 <= i < f.names@.len() && names_family(#[trigger] f.names@[i], want)
}

/// Whether a face is of family `want`.
pub fn face_has_family(f: &FaceNames, want: &str) -> (r: bool)
    ensures
        r == has_family(*f, want@),
{
    match &f.family_name {
        Some(b) => {
            if eq_bytes(b.as_slice(), want.as_bytes()) {
                return true;
            }
        },
        None => {},
    }
    let chars: Vec<char> = text::chars_of(want);
    let low: Vec<char> = lowered(chars.as_slice());
    let mut i: usize = 0;
    while i < f.names.len()
        invariant
            i <= f.names@.len(),
            low@ == lowercase_text(want@),
            forall|j: int| 0 <= j < i ==> !names_family(#[trigger] f.names@[j], want@),
        decreases f.names@.len() - i,
    {
        match &f.names[i] {
            Some(e) => match family_of(e) {
                Some(t) => {
                    let name: Vec<char> = lowered(t.as_slice());
                    if text::eq_chars(name.as_slice(), low.as_slice()) {
                        assert(names_family(f.names@[i as int], want@));
                        return true;
                    }
                },
                None => {},
            },
            None => {},
        }
        i = i + 1;
    }
    false
}

/// Face `i` of a collection could be opened, and is of family `want`.
pub open spec fn is_face(faces: Seq<Option<FaceNames>>, i: int, want: Seq<char>) -> bool {
    match faces[i] {
        Some(f) => has_family(f, want),
        None => false,
    }
}

/// The face of a collection to open for family `want`: the first one of that
/// family, else the first face; the first face too where no family is asked
/// for. `None` stands for a face that could not be opened.
pub fn choose_face(faces: &[Option<FaceNames>], want: &str) -> (r: usize)
    ensures
        want@.len() == 0 ==> r == 0,
        want@.len() > 0 ==> {
            ||| r < faces@.len() && is_face(faces@, r as int, want@) && forall|i: int|
                0 <= i < r ==> !#[trigger] is_face(faces@, i, want@)
            ||| r == 0 && forall|i: int| 0 <= i < faces@.len() ==> !#[trigger] is_face(faces@, i, want@)
        },
{
    if want.unicode_len() == 0 {
        return 0;
    }
    let mut i: usize = 0;
    while i < faces.len()
        invariant
            i <= faces@.len(),
            want@.len() > 0,
            forall|j: int| 0 <= j < i ==> !#[trigger] is_face(faces@, j, want@),
        decreases faces@.len() - i,
    {
        match &faces[i] {
            Some(f) => {
                if face_has_family(f, want) {
                    assert(is_face(faces@, i as int, want@));
                    return i;
                }
            },
            None => {},
        }
        i = i + 1;
    }
    0
}

// ---- laws ----

/// A name table entry names a family only on the Windows platform (3) and
/// under the ids 1, 16 and 21.
pub proof fn only_windows_family_names_count(e: SfntName)
    ensures
        family_text(e) is Some <==> e.string is Some && e.platform_id == 3 && (e.name_id == 1 || e.name_id == 16
            || e.name_id == 21),
{
}

/// The bytes of a family name are its UTF-16 units, high byte first: a name
/// written so is the one that is read.
pub proof fn a_family_name_reads_back(e: SfntName, name: Seq<char>)
    requires
        e.platform_id == 3,
        e.name_id == 1 || e.name_id == 16 || e.name_id == 21,
        e.string matches Some(b) && ({
            let units = utf16::encoded(name);
            &&& b@.len() == 2 * units.len()
            &&& forall|i: int| 0 <= i < units.len() ==> b@[2 * i] * 0x100 + b@[2 * i + 1] == #[trigger] units[i]
        }),
    ensures
        family_text(e) == Some(name),
{
    let b = e.string->0@;
    let units = utf16::encoded(name);
    assert(big_endian(b) =~= units) by {
        assert forall|i: int| 0 <= i < units.len() implies #[trigger] big_endian(b)[i] == units[i] by {
            assert(b[2 * i] * 0x100 + b[2 * i + 1] == units[i]);
        }
    }
    utf16::decode_undoes_encode(name, seq![]);
}

/// A face is of the family that its ASCII name or one of its name table's
/// entries gives, and of no other.
pub proof fn a_face_is_of_the_families_it_names(f: FaceNames, want: Seq<char>)
    ensures
        f.family_name matches Some(b) && b@ == vstd::utf8::encode_utf8(want) ==> has_family(f, want),
        forall|i: int|
            0 <= i < f.names@.len() && (#[trigger] f.names@[i]) is Some && family_text(f.names@[i]->0) == Some(want)
                ==> has_family(f, want),
        f.family_name is None && (forall|i: int|
            0 <= i < f.names@.len() && (#[trigger] f.names@[i]) is Some ==> match family_text(f.names@[i]->0) {
                Some(t) => lowercase_text(t) != lowercase_text(want),
                None => true,
            }) ==> !has_family(f, want),
{
    if exists|i: int|
        0 <= i < f.names@.len() && (#[trigger] f.names@[i]) is Some && family_text(f.names@[i]->0) == Some(want) {
        let i = choose|i: int|
            0 <= i < f.names@.len() && (#[trigger] f.names@[i]) is Some && family_text(f.names@[i]->0) == Some(want);
        assert(names_family(f.names@[i], want));
    }
}

/// ASCII names match whatever the case of their letters, and nothing else
/// about them may differ.
pub proof fn ascii_names_match_in_any_case(a: u8, b: u8)
    ensures
        same_bytes(seq![a], seq![b]) <==> {
            ||| a == b
            ||| 0x41 <= a <= 0x5a && b == a + 0x20
            ||| 0x41 <= b <= 0x5a && a == b + 0x20
        },
{
    assert(seq![a][0] == a && seq![b][0] == b);
    if same_bytes(seq![a], seq![b]) {
        assert(lower_byte(seq![a][0]) == lower_byte(seq![b][0]));
    }
}

/// Names of another length do not match; those of one length match byte by
/// byte.
pub proof fn ascii_names_match_byte_by_byte(a: Seq<u8>, b: Seq<u8>, x: u8, y: u8)
    ensures
        a.len() != b.len() ==> !same_bytes(a, b),
        same_bytes(a.push(x), b.push(y)) <==> same_bytes(a, b) && same_bytes(seq![x], seq![y]),
{
    assert(seq![x][0] == x && seq![y][0] == y);
    if same_bytes(a.push(x), b.push(y)) {
        assert forall|i: int| 0 <= i < a.len() implies lower_byte(#[trigger] a[i]) == lower_byte(b[i]) by {
            assert(lower_byte(a.push(x)[i]) == lower_byte(b.push(y)[i]));
        }
        assert(lower_byte(a.push(x)[a.len() as int]) == lower_byte(b.push(y)[a.len() as int]));
    }
    if same_bytes(a, b) && same_bytes(seq![x], seq![y]) {
        assert(lower_byte(seq![x][0]) == lower_byte(seq![y][0]));
        assert forall|i: int| 0 <= i < a.push(x).len() implies lower_byte(#[trigger] a.push(x)[i]) == lower_byte(
            b.push(y)[i],
        ) by {
            if i < a.len() {
                assert(lower_byte(a[i]) == lower_byte(b[i]));
            }
        }
    }
}

/// A text is made lower case character by character.
pub proof fn lower_case_goes_by_character(s: Seq<char>, c: char)
    ensures
        lowercase_text(seq![]) == Seq::<char>::empty(),
        lowercase_text(s.push(c)) == lowercase_text(s) + lowercase(c),
{
    assert(s.push(c).drop_last() =~= s);
}

/// A face that could not be opened is of no family; another is of those that
/// it has.
pub proof fn only_opened_faces_have_a_family(faces: Seq<Option<FaceNames>>, i: int, want: Seq<char>)
    ensures
        faces[i] is None ==> !is_face(faces, i, want),
        faces[i] matches Some(f) ==> is_face(faces, i, want) == has_family(f, want),
{
}

} // verus!
