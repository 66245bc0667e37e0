//! System-wide UI font swap.
//!
//! The shell's caption, small caption, menu, status, message and icon title
//! fonts are set together. What they were before the first change is kept in
//! a backup file, and brought back from it.

use vstd::prelude::*;
use vstd::slice::slice_subrange;

use crate::utf16;

verus! {

/// The fonts to choose from: UI fonts without serifs that have Japanese. The
/// menu shows the face name itself.
pub const FONTS: [&'static str; 4] = ["BIZ UDPゴシック", "BIZ UDゴシック", "Noto Sans JP", "メイリオ"];

/// How many code units a face name field has.
pub const FACE_UNITS: usize = 32;

/// A face name field: the name's first 31 code units, and 0 in the rest.
pub open spec fn face_field(face: Seq<char>) -> Seq<u16> {
    let units = utf16::encoded(face);
    Seq::new(
        FACE_UNITS as nat,
        |i: int|
            if i < FACE_UNITS - 1 && i < units.len() {
                units[i]
            } else {
                0u16
            },
    )
}

/// The face name field for `face`.
pub fn set_face(face: &str) -> (r: [u16; 32])
    ensures
        r@ == face_field(face@),
{
    let units: Vec<u16> = utf16::encode(face);
    let mut field: [u16; 32] = [0u16; 32];
    let mut i: usize = 0;
    while i < 31 && i < units.len()
        invariant
            i <= 31,
            i <= units@.len(),
            units@ == utf16::encoded(face@),
            field@.len() == 32,
            forall|j: int| 0 <= j < i ==> field@[j] == units@[j],
            forall|j: int| i <= j < 32 ==> field@[j] == 0,
        decreases 31 - i,
    {
        field[i] = units[i];
        i = i + 1;
    }
    proof {
        assert(field@ =~= face_field(face@));
    }
    field
}

/// The face that a face name field holds.
pub fn face_of(field: &[u16]) -> (r: String)
    ensures
        r@ == utf16::decoded(utf16::until_nul(field@), seq!['\u{fffd}']),
{
    utf16::wide_to_string(field)
}

/// The face that the shell's caption uses (for the menu's check mark), given
/// the caption font's face name field, if it could be asked for.
pub fn current_face(caption: Option<&[u16]>) -> (r: Option<String>)
    ensures
        match (caption, r) {
            (Some(field), Some(face)) => face@ == utf16::decoded(utf16::until_nul(field@), seq!['\u{fffd}']),
            (None, None) => true,
            _ => false,
        },
{
    match caption {
        Some(field) => Some(face_of(field)),
        None => None,
    }
}

/// A change saves the fonts only where there is a place for a backup and none
/// is in it.
pub open spec fn saves(exists: Option<bool>) -> bool {
    exists == Some(false)
}

/// Whether a change saves the fonts first: only where there is no backup yet,
/// so that the backup stays what it was before the first change.
pub fn saves_backup(exists: Option<bool>) -> (r: bool)
    ensures
        r == saves(exists),
{
    match exists {
        Some(exists) => !exists,
        None => false,
    }
}

/// The backup file: the metrics' bytes, then the icon font's.
pub open spec fn saved(metrics: Seq<u8>, icon: Seq<u8>) -> Seq<u8> {
    metrics + icon
}

pub fn backup(metrics: &[u8], icon: &[u8]) -> (r: Vec<u8>)
    ensures
        r@ == saved(metrics@, icon@),
{
    let mut r: Vec<u8> = vstd::slice::slice_to_vec(metrics);
    let mut i: usize = 0;
    while i < icon.len()
        invariant
            i <= icon@.len(),
            r@ == metrics@ + icon@.take(i as int),
        decreases icon@.len() - i,
    {
        r.push(icon[i]);
        proof {
            assert(metrics@ + icon@.take(i + 1) =~= (metrics@ + icon@.take(i as int)).push(icon@[i as int]));
        }
        i = i + 1;
    }
    proof {
        assert(icon@.take(icon@.len() as int) =~= icon@);
    }
    r
}

/// A structure's bytes with its size in the first four, low byte first.
pub open spec fn with_size(b: Seq<u8>, size: int) -> Seq<u8> {
    seq![
        (size % 0x100) as u8,
        (size / 0x100 % 0x100) as u8,
        (size / 0x1_0000 % 0x100) as u8,
        (size / 0x100_0000 % 0x100) as u8,
    ] + b.skip(4)
}

/// What a backup holds, if it is long enough. The size that the metrics give
/// of themselves is not taken from the file, which anybody may have changed.
pub open spec fn restored(b: Seq<u8>, metrics: int, icon: int) -> Option<(Seq<u8>, Seq<u8>)> {
    if b.len() >= metrics + icon {
        Some((with_size(b.take(metrics), metrics), b.subrange(metrics, metrics + icon)))
    } else {
        None
    }
}

/// What a restore gives back, from the backup file if there is one.
pub open spec fn given_back(file: Option<Seq<u8>>, metrics: int, icon: int) -> Option<(Seq<u8>, Seq<u8>)> {
    match file {
        Some(b) => restored(b, metrics, icon),
        None => None,
    }
}

/// The bytes of the metrics and of the icon font in a backup, given how long
/// each is. Where there are any they are set, and the backup is removed.
pub fn restore(file: Option<&[u8]>, metrics: usize, icon: usize) -> (r: Option<(Vec<u8>, Vec<u8>)>)
    requires
        4 <= metrics <= u32::MAX,
    ensures
        ({
            let given = given_back(
                match file {
                    Some(b) => Some(b@),
                    None => None,
                },
                metrics as int,
                icon as int,
            );
            match r {
                Some((m, i)) => given == Some((m@, i@)),
                None => given is None,
            }
        }),
{
    let b: &[u8] = match file {
        Some(b) => b,
        None => {
            return None;
        },
    };
    let len: usize = b.len();
    if len < metrics || len - metrics < icon {
        return None;
    }
    let mut m: Vec<u8> = vstd::slice::slice_to_vec(slice_subrange(b, 0, metrics));
    let i: Vec<u8> = vstd::slice::slice_to_vec(slice_subrange(b, metrics, metrics + icon));
    m[0] = (metrics % 0x100) as u8;
    m[1] = (metrics / 0x100 % 0x100) as u8;
    m[2] = (metrics / 0x1_0000 % 0x100) as u8;
    m[3] = (metrics / 0x100_0000 % 0x100) as u8;
    proof {
        assert(m@ =~= with_size(b@.take(metrics as int), metrics as int));
    }
    Some((m, i))
}

/// What was saved comes back exactly, if the metrics gave their own size.
pub proof fn a_backup_restores_what_was_saved(metrics: Seq<u8>, icon: Seq<u8>)
    requires
        4 <= metrics.len() <= u32::MAX,
        with_size(metrics, metrics.len() as int) == metrics,
    ensures
        restored(saved(metrics, icon), metrics.len() as int, icon.len() as int) == Some((metrics, icon)),
{
    let b = saved(metrics, icon);
    assert(b.take(metrics.len() as int) =~= metrics);
    assert(b.subrange(metrics.len() as int, metrics.len() as int + icon.len() as int) =~= icon);
}

/// The backup file after a change of the fonts, which were `metrics` and
/// `icon` before it.
pub open spec fn file_after_change(file: Option<Seq<u8>>, metrics: Seq<u8>, icon: Seq<u8>) -> Option<Seq<u8>> {
    if saves(Some(file is Some)) {
        Some(saved(metrics, icon))
    } else {
        file
    }
}

/// The backup file after a restore: gone, if it gave anything back.
pub open spec fn file_after_restore(file: Option<Seq<u8>>, metrics: int, icon: int) -> Option<Seq<u8>> {
    if given_back(file, metrics, icon) is Some {
        None
    } else {
        file
    }
}

/// However often the fonts are changed, a restore gives back those before the
/// first change: here after two, from `first` to `second` to any others. A
/// further restore gives nothing back.
pub proof fn the_fonts_before_the_first_change_come_back(first: (Seq<u8>, Seq<u8>), second: (Seq<u8>, Seq<u8>))
    requires
        4 <= first.0.len() <= u32::MAX,
        with_size(first.0, first.0.len() as int) == first.0,
    ensures
        ({
            let (m, i) = (first.0.len() as int, first.1.len() as int);
            let once = file_after_change(None, first.0, first.1);
            let twice = file_after_change(once, second.0, second.1);
            &&& given_back(once, m, i) == Some(first)
            &&& twice == once
            &&& given_back(twice, m, i) == Some(first)
            &&& given_back(file_after_restore(twice, m, i), m, i) is None
        }),
{
    a_backup_restores_what_was_saved(first.0, first.1);
}

/// Whatever the backup file holds, the metrics that are given back have the
/// length that was asked for, and say that they have.
pub proof fn the_size_is_not_the_files(file: Seq<u8>, metrics: int, icon: int)
    requires
        4 <= metrics <= u32::MAX,
        icon >= 0,
    ensures
        restored(file, metrics, icon) matches Some((m, i)) ==> {
            &&& m.len() == metrics
            &&& m == with_size(m, metrics)
            &&& i.len() == icon
        },
{
    if let Some((m, i)) = restored(file, metrics, icon) {
        assert(m =~= with_size(m, metrics));
    }
}

/// A face whose name fits its field is read back from it.
pub proof fn a_face_reads_back(face: Seq<char>)
    requires
        utf16::encoded(face).len() < FACE_UNITS,
        forall|i: int| 0 <= i < face.len() ==> #[trigger] face[i] != '\0',
    ensures
        utf16::decoded(utf16::until_nul(face_field(face)), seq!['\u{fffd}']) == face,
{
    let units = utf16::encoded(face);
    let field = face_field(face);
    utf16::no_nul_in_encoded(face);
    utf16::first_nul_at(field, units.len() as int);
    assert(utf16::until_nul(field) =~= units);
    utf16::decode_undoes_encode(face, seq!['\u{fffd}']);
}

/// A face name field has 32 units: the name's, as far as there is room for a
/// NUL behind them, and NULs.
pub proof fn a_face_name_field_has_32_units(face: Seq<char>, i: int)
    requires
        0 <= i < 32,
    ensures
        face_field(face).len() == 32,
        i < 31 && i < utf16::encoded(face).len() ==> face_field(face)[i] == utf16::encoded(face)[i],
        i == 31 || i >= utf16::encoded(face).len() ==> face_field(face)[i] == 0,
{
}

/// The fonts are saved exactly if a backup can be had and is not there.
pub proof fn fonts_are_saved_once()
    ensures
        saves(Some(false)),
        !saves(Some(true)),
        !saves(None),
{
}

/// A backup is the metrics' bytes and the icon font's behind them; a restore
/// takes them from there byte by byte, but for the metrics' first four, which
/// write how long they are, the low byte first. A file that is too short gives
/// nothing back.
pub proof fn a_backup_is_read_byte_by_byte(file: Seq<u8>, metrics: int, icon: int, j: int)
    requires
        4 <= metrics <= u32::MAX,
        0 <= icon,
    ensures
        file.len() < metrics + icon ==> restored(file, metrics, icon) is None,
        file.len() >= metrics + icon ==> restored(file, metrics, icon) is Some,
        restored(file, metrics, icon) matches Some((m, i)) ==> {
            &&& m.len() == metrics && i.len() == icon
            &&& 4 <= j < metrics ==> m[j] == file[j]
            &&& 0 <= j < icon ==> i[j] == file[metrics + j]
            &&& m[0] + 0x100 * m[1] + 0x1_0000 * m[2] + 0x100_0000 * m[3] == metrics
        },
{
    if let Some((m, i)) = restored(file, metrics, icon) {
        assert(m[0] == metrics % 0x100 && m[1] == metrics / 0x100 % 0x100);
        assert(m[2] == metrics / 0x1_0000 % 0x100 && m[3] == metrics / 0x100_0000 % 0x100);
        assert(metrics / 0x1_0000 == metrics / 0x100 / 0x100);
        assert(metrics / 0x100_0000 == metrics / 0x1_0000 / 0x100);
        if 4 <= j < metrics {
            assert(m[j] == file.take(metrics).skip(4)[j - 4]);
        }
    }
}

} // verus!
