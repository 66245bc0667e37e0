//! Which font a DirectWrite face stands for, and opening it once.
//!
//! A key names the font, not the object that a draw hands over, so a file is
//! opened only the first time. A local font file is opened by path; its key
//! is the path and the index of the face in it. FreeType opens paths as ANSI,
//! so a font with another path, and one that is in no file, is read into
//! memory; its key is the object, which is kept alive as long as it is
//! remembered.

use std::collections::hash_map::DefaultHasher;
use std::hash::Hasher;
use std::sync::Arc;

use vstd::prelude::*;
use vstd::std_specs::hash::DefaultHasherAdditionalSpecFns;

use crate::faces;
use crate::faces::{FaceSlot, Ft};
use crate::ft::Glyph;
use crate::glyphs;
use crate::glyphs::GlyphKey;
use crate::text;

verus! {

/// So many DirectWrite faces are remembered.
pub const MAX_DW_FACES: usize = 32;

// ---- keys ----

pub open spec fn parts_of(v: Seq<Vec<u8>>) -> Seq<Seq<u8>> {
    Seq::new(v.len(), |i: int| v[i]@)
}

/// The key of what `parts` identify. Below 2^63: keys from there on are those
/// of faces opened without one.
pub open spec fn key_of(parts: Seq<Seq<u8>>) -> int {
    DefaultHasher::spec_finish(parts) as int / 2
}

/// The key of what `parts` identify.
pub fn hash_of(parts: &[Vec<u8>]) -> (r: u64)
    ensures
        r == key_of(parts_of(parts@)),
        r < faces::UNKEYED,
{
    let mut h: DefaultHasher = DefaultHasher::new();
    let mut i: usize = 0;
    while i < parts.len()
        invariant
            i <= parts@.len(),
            h@ == parts_of(parts@).take(i as int),
        decreases parts@.len() - i,
    {
        h.write(parts[i].as_slice());
        proof {
            assert(parts_of(parts@).take(i + 1) =~= parts_of(parts@).take(i as int).push(parts@[i as int]@));
        }
        i = i + 1;
    }
    proof {
        assert(parts_of(parts@).take(parts@.len() as int) =~= parts_of(parts@));
    }
    h.finish() / 2
}

pub open spec fn ascii(s: Seq<char>) -> bool {
    forall|i: int| 0 <= i < s.len() ==> (#[trigger] s[i] as u32) < 128
}

/// An ASCII text in small letters, a byte for each.
pub open spec fn lowered_bytes(s: Seq<char>) -> Seq<u8> {
    Seq::new(s.len(), |i: int| text::lower(s[i]) as u8)
}

/// A number's bytes, low byte first.
pub open spec fn bytes_of(n: int, count: int) -> Seq<u8>
    decreases count,
{
    if count <= 0 {
        seq![]
    } else {
        seq![(n % 0x100) as u8] + bytes_of(n / 0x100, count - 1)
    }
}

/// What identifies a local file's face. Windows does not tell apart paths that
/// differ in case.
pub open spec fn path_parts(path: Seq<char>, index: u32) -> Seq<Seq<u8>> {
    seq![seq![0x70u8, 0x61, 0x74, 0x68], lowered_bytes(path), bytes_of(index as int, 4)]
}

/// What identifies any other face: the object's address, and the index.
pub open spec fn memory_parts(object: u64, index: u32) -> Seq<Seq<u8>> {
    seq![seq![0x6du8, 0x65, 0x6d], bytes_of(object as int, 8), bytes_of(index as int, 4)]
}

fn number_bytes(n: u64, count: usize) -> (r: Vec<u8>)
    ensures
        r@ == bytes_of(n as int, count as int),
{
    let mut r: Vec<u8> = Vec::new();
    let mut left: usize = count;
    let mut rest: u64 = n;
    proof {
        assert(seq![] + bytes_of(n as int, count as int) =~= bytes_of(n as int, count as int));
    }
    while left > 0
        invariant
            r@ + bytes_of(rest as int, left as int) == bytes_of(n as int, count as int),
        decreases left,
    {
        let ghost was = r@;
        r.push((rest % 0x100) as u8);
        proof {
            assert(was + bytes_of(rest as int, left as int) =~= r@ + bytes_of(rest as int / 0x100, left - 1));
        }
        rest = rest / 0x100;
        left = left - 1;
    }
    proof {
        assert(r@ + bytes_of(rest as int, 0) =~= r@);
    }
    r
}

/// The path's bytes in small letters, if it is ASCII.
fn ascii_bytes(path: &str) -> (r: Option<Vec<u8>>)
    ensures
        match r {
            Some(b) => ascii(path@) && b@ == lowered_bytes(path@),
            None => !ascii(path@),
        },
{
    let chars: Vec<char> = text::chars_of(path);
    let mut r: Vec<u8> = Vec::new();
    let mut i: usize = 0;
    while i < chars.len()
        invariant
            i <= chars@.len(),
            chars@ == path@,
            r@.len() == i,
            forall|j: int| 0 <= j < i ==> (#[trigger] path@[j] as u32) < 128,
            forall|j: int| 0 <= j < i ==> #[trigger] r@[j] == text::lower(path@[j]) as u8,
        decreases chars@.len() - i,
    {
        let c: char = chars[i];
        if c as u32 >= 128 {
            assert(path@[i as int] as u32 >= 128);
            return None;
        }
        r.push(text::to_lower(c) as u8);
        i = i + 1;
    }
    proof {
        assert(r@ =~= lowered_bytes(path@));
    }
    Some(r)
}

/// A face is opened by path where it is a local file's, with an ASCII path.
pub open spec fn by_path(local: Option<(Seq<char>, u32)>) -> bool {
    match local {
        Some((path, _)) => ascii(path),
        None => false,
    }
}

pub open spec fn face_key(object: u64, local: Option<(Seq<char>, u32)>, index: u32) -> int {
    match local {
        Some((path, at)) if ascii(path) => key_of(path_parts(path, at)),
        _ => key_of(memory_parts(object, index)),
    }
}

pub open spec fn local_view(local: Option<(&str, u32)>) -> Option<(Seq<char>, u32)> {
    match local {
        Some((path, at)) => Some((path@, at)),
        None => None,
    }
}

/// The key of a face, and whether it is opened by path. `local` is its local
/// file and the index in that, if it is one's.
pub fn key_for(object: u64, local: Option<(&str, u32)>, index: u32) -> (r: (u64, bool))
    ensures
        r.0 == face_key(object, local_view(local), index),
        r.0 < faces::UNKEYED,
        r.1 == by_path(local_view(local)),
{
    match local {
        Some((path, at)) => match ascii_bytes(path) {
            Some(b) => {
                let tag: Vec<u8> = vec![0x70u8, 0x61, 0x74, 0x68];
                let parts: Vec<Vec<u8>> = vec![tag, b, number_bytes(at as u64, 4)];
                proof {
                    assert(parts_of(parts@) =~= path_parts(path@, at)) by {
                        assert(parts@[0]@ =~= seq![0x70u8, 0x61, 0x74, 0x68]);
                    }
                }
                return (hash_of(parts.as_slice()), true);
            },
            None => {},
        },
        None => {},
    }
    let tag: Vec<u8> = vec![0x6du8, 0x65, 0x6d];
    let parts: Vec<Vec<u8>> = vec![tag, number_bytes(object, 8), number_bytes(index as u64, 4)];
    proof {
        assert(parts_of(parts@) =~= memory_parts(object, index)) by {
            assert(parts@[0]@ =~= seq![0x6du8, 0x65, 0x6d]);
        }
    }
    (hash_of(parts.as_slice()), false)
}

/// Paths that differ only in the case of ASCII letters have the same key.
pub proof fn case_does_not_matter(a: Seq<char>, b: Seq<char>, index: u32)
    requires
        text::same_letters(a, b),
    ensures
        key_of(path_parts(a, index)) == key_of(path_parts(b, index)),
{
    assert(lowered_bytes(a) =~= lowered_bytes(b));
}

// ---- remembered faces ----

/// A DirectWrite face that was drawn with.
#[derive(Clone, Copy, Debug, PartialEq, Eq, Structural)]
pub struct Known {
    pub object: u64,
    pub key: u64,
    /// The key is the object's.
    pub memory: bool,
}

pub open spec fn place_of(list: Seq<Known>, object: u64) -> int
    decreases list.len(),
{
    if list.len() == 0 || list[0].object == object {
        0
    } else {
        1 + place_of(list.skip(1), object)
    }
}

pub open spec fn remembered(list: Seq<Known>, object: u64) -> bool {
    place_of(list, object) < list.len()
}

/// The face under `object` used last.
pub open spec fn touched(list: Seq<Known>, object: u64) -> Seq<Known> {
    let i = place_of(list, object);
    list.remove(i).push(list[i])
}

/// A new face at the end; where that is one too many the first one goes.
pub open spec fn grown(list: Seq<Known>, k: Known) -> Seq<Known> {
    if list.len() >= MAX_DW_FACES {
        list.push(k).skip(1)
    } else {
        list.push(k)
    }
}

/// The key that the face which goes leaves behind, if it was the object's:
/// the object's address may come back as another font's.
pub open spec fn left_behind(list: Seq<Known>) -> Option<u64> {
    if list.len() >= MAX_DW_FACES && list[0].memory {
        Some(list[0].key)
    } else {
        None
    }
}

/// The open faces after that key is closed.
pub open spec fn slots_without(slots: Seq<FaceSlot>, key: Option<u64>) -> Seq<FaceSlot> {
    match key {
        Some(k) => faces::without(slots, k),
        None => slots,
    }
}

/// The handle of the face that is open under that key.
pub open spec fn handle_of(slots: Seq<FaceSlot>, key: Option<u64>) -> Option<usize> {
    match key {
        Some(k) => if faces::is_open(slots, k) {
            Some(slots[faces::slot_of(slots, k)].face)
        } else {
            None
        },
        None => None,
    }
}

/// The kept glyphs after that key is closed.
pub open spec fn kept_without(kept: Map<GlyphKey, Arc<Glyph>>, key: Option<u64>) -> Map<GlyphKey, Arc<Glyph>> {
    match key {
        Some(k) => glyphs::without_face(kept, k),
        None => kept,
    }
}

/// The open faces with the one under `key` used last.
pub open spec fn slots_used(slots: Seq<FaceSlot>, key: u64) -> Seq<FaceSlot> {
    faces::without(slots, key).push(slots[faces::slot_of(slots, key)])
}

/// The active face, by its key and its handle.
pub open spec fn active(ft: Ft) -> (u64, Option<usize>) {
    (ft.current_key(), ft.current())
}

/// The active face after that key is closed: none, if it was the active one's.
pub open spec fn active_without(slots: Seq<FaceSlot>, a: (u64, Option<usize>), key: Option<u64>) -> (u64, Option<usize>) {
    match key {
        Some(k) => if faces::is_open(slots, k) && a.0 == k {
            (0, None)
        } else {
            a
        },
        None => a,
    }
}

/// The active face once the open one under `key` is used.
pub open spec fn active_used(slots: Seq<FaceSlot>, key: u64) -> (u64, Option<usize>) {
    (key, Some(slots[faces::slot_of(slots, key)].face))
}

proof fn place_found(list: Seq<Known>, object: u64)
    ensures
        0 <= place_of(list, object) <= list.len(),
        remembered(list, object) ==> list[place_of(list, object)].object == object,
        forall|i: int| 0 <= i < place_of(list, object) ==> (#[trigger] list[i]).object != object,
    decreases list.len(),
{
    if list.len() > 0 && list[0].object != object {
        place_found(list.skip(1), object);
        assert forall|i: int| 0 <= i < place_of(list, object) implies (#[trigger] list[i]).object != object by {
            if i > 0 {
                assert(list.skip(1)[i - 1] == list[i]);
            }
        }
    }
}

/// A face that is being made the active one.
#[derive(Clone, Copy, Debug, PartialEq, Eq, Structural)]
pub struct Pending {
    pub face: Known,
    /// It was remembered before.
    pub known: bool,
}

/// What has to be done next.
#[derive(Clone, Copy, Debug, PartialEq, Eq, Structural)]
pub enum Step {
    /// It is over: the face is active, or cannot be had.
    Done(bool),
    /// Read the font's bytes.
    Read(Pending),
    /// Open the font under the key.
    Open(Pending),
}

/// The DirectWrite faces drawn with, the last one used last.
pub struct DwFaces {
    pub list: Vec<Known>,
}

impl DwFaces {
    pub fn new() -> (r: DwFaces)
        ensures
            r.list@.len() == 0,
    {
        DwFaces { list: Vec::new() }
    }

    fn place(&self, object: u64) -> (r: Option<usize>)
        ensures
            match r {
                Some(i) => remembered(self.list@, object) && i == place_of(self.list@, object),
                None => !remembered(self.list@, object),
            },
    {
        let mut i: usize = 0;
        while i < self.list.len()
            invariant
                i <= self.list@.len(),
                forall|j: int| 0 <= j < i ==> (#[trigger] self.list@[j]).object != object,
            decreases self.list@.len() - i,
        {
            if self.list[i].object == object {
                proof {
                    place_found(self.list@, object);
                    let p = place_of(self.list@, object);
                    if p < i {
                        assert(self.list@[p].object != object);
                    }
                }
                return Some(i);
            }
            i = i + 1;
        }
        proof {
            place_found(self.list@, object);
            if remembered(self.list@, object) {
                assert(self.list@[place_of(self.list@, object)].object != object);
            }
        }
        None
    }

    /// Remember a face. Returns the handle to close of the one that goes.
    fn remember(&mut self, ft: &mut Ft, k: Known) -> (r: Option<usize>)
        requires
            old(self).list@.len() <= MAX_DW_FACES,
            old(ft).ok(),
        ensures
            final(ft).ok(),
            final(self).list@ == grown(old(self).list@, k),
            final(self).list@.len() <= MAX_DW_FACES,
            final(ft).slots() == slots_without(old(ft).slots(), left_behind(old(self).list@)),
            final(ft).kept() == kept_without(old(ft).kept(), left_behind(old(self).list@)),
            active(*final(ft)) == active_without(old(ft).slots(), active(*old(ft)), left_behind(old(self).list@)),
            final(ft).next_key() == old(ft).next_key(),
            r == handle_of(old(ft).slots(), left_behind(old(self).list@)),
    {
        self.list.push(k);
        if self.list.len() <= MAX_DW_FACES {
            return None;
        }
        let ghost all = self.list@;
        let gone: Known = self.list.remove(0);
        proof {
            assert(self.list@ =~= all.skip(1));
            assert(gone == old(self).list@[0]);
        }
        if gone.memory {
            ft.close(gone.key)
        } else {
            None
        }
    }

    /// Start to make `object`'s font the active one. `local` is its local
    /// file, if it is one's, and `index` its index. The second result is a
    /// handle that FreeType is to close.
    pub fn start(&mut self, ft: &mut Ft, object: u64, local: Option<(&str, u32)>, index: u32) -> (r: (
        Step,
        Option<usize>,
    ))
        requires
            old(self).list@.len() <= MAX_DW_FACES,
            old(ft).ok(),
        ensures
            final(ft).ok(),
            final(ft).next_key() == old(ft).next_key(),
            final(self).list@.len() <= MAX_DW_FACES,
            ({
                let list = old(self).list@;
                let known = remembered(list, object);
                let face = if known {
                    list[place_of(list, object)]
                } else {
                    Known {
                        object,
                        key: face_key(object, local_view(local), index) as u64,
                        memory: !by_path(local_view(local)),
                    }
                };
                let open = faces::is_open(old(ft).slots(), face.key);
                if known {
                    // Used last; open again only if it was closed.
                    &&& final(self).list@ == touched(list, object)
                    &&& r.1 is None
                    &&& open ==> r.0 == Step::Done(true) && final(ft).slots() == slots_used(old(ft).slots(), face.key)
                        && active(*final(ft)) == active_used(old(ft).slots(), face.key) && final(ft).kept() == old(
                        ft,
                    ).kept()
                    &&& !open ==> r.0 == Step::Open(Pending { face, known }) && *final(ft) == *old(ft)
                } else if face.memory {
                    &&& r == (Step::Read(Pending { face, known }), None::<usize>)
                    &&& *final(self) == *old(self)
                    &&& *final(ft) == *old(ft)
                } else if open {
                    &&& r.0 == Step::Done(true)
                    &&& final(self).list@ == grown(list, face)
                    &&& r.1 == handle_of(slots_used(old(ft).slots(), face.key), left_behind(list))
                    &&& final(ft).slots() == slots_without(slots_used(old(ft).slots(), face.key), left_behind(list))
                    &&& final(ft).kept() == kept_without(old(ft).kept(), left_behind(list))
                    &&& active(*final(ft)) == active_without(
                        slots_used(old(ft).slots(), face.key),
                        active_used(old(ft).slots(), face.key),
                        left_behind(list),
                    )
                } else {
                    &&& r == (Step::Open(Pending { face, known }), None::<usize>)
                    &&& *final(self) == *old(self)
                    &&& *final(ft) == *old(ft)
                }
            }),
    {
        match self.place(object) {
            Some(i) => {
                let face: Known = self.list.remove(i);
                self.list.push(face);
                if ft.activate(face.key) {
                    (Step::Done(true), None)
                } else {
                    (Step::Open(Pending { face, known: true }), None)
                }
            },
            None => {
                let (key, path): (u64, bool) = key_for(object, local, index);
                let face: Known = Known { object, key, memory: !path };
                if face.memory {
                    (Step::Read(Pending { face, known: false }), None)
                } else if ft.activate(key) {
                    let gone: Option<usize> = self.remember(ft, face);
                    (Step::Done(true), gone)
                } else {
                    (Step::Open(Pending { face, known: false }), None)
                }
            },
        }
    }

    /// Go on after the font's bytes were read, or could not be: without them
    /// the face cannot be had, and is not remembered.
    pub fn read(&mut self, ft: &mut Ft, p: Pending, got: bool) -> (r: (Step, Option<usize>))
        requires
            old(self).list@.len() <= MAX_DW_FACES,
            old(ft).ok(),
        ensures
            final(ft).ok(),
            final(ft).next_key() == old(ft).next_key(),
            final(self).list@.len() <= MAX_DW_FACES,
            ({
                let list = old(self).list@;
                let open = faces::is_open(old(ft).slots(), p.face.key);
                if !got {
                    &&& r == (Step::Done(false), None::<usize>)
                    &&& *final(self) == *old(self)
                    &&& *final(ft) == *old(ft)
                } else if open {
                    &&& r.0 == Step::Done(true)
                    &&& final(self).list@ == grown(list, p.face)
                    &&& r.1 == handle_of(slots_used(old(ft).slots(), p.face.key), left_behind(list))
                    &&& final(ft).slots() == slots_without(slots_used(old(ft).slots(), p.face.key), left_behind(list))
                    &&& final(ft).kept() == kept_without(old(ft).kept(), left_behind(list))
                    &&& active(*final(ft)) == active_without(
                        slots_used(old(ft).slots(), p.face.key),
                        active_used(old(ft).slots(), p.face.key),
                        left_behind(list),
                    )
                } else {
                    &&& r == (Step::Open(p), None::<usize>)
                    &&& *final(self) == *old(self)
                    &&& *final(ft) == *old(ft)
                }
            }),
    {
        if !got {
            (Step::Done(false), None)
        } else if ft.activate(p.face.key) {
            let gone: Option<usize> = self.remember(ft, p.face);
            (Step::Done(true), gone)
        } else {
            (Step::Open(p), None)
        }
    }

    /// Go on after FreeType opened the font under its key (and made it active),
    /// or failed to. A new face is remembered only if it could be opened.
    pub fn opened(&mut self, ft: &mut Ft, p: Pending, ok: bool) -> (r: (bool, Option<usize>))
        requires
            old(self).list@.len() <= MAX_DW_FACES,
            old(ft).ok(),
        ensures
            final(ft).ok(),
            final(self).list@.len() <= MAX_DW_FACES,
            r.0 == ok,
            p.known || !ok ==> r.1 is None && *final(self) == *old(self) && *final(ft) == *old(ft),
            !p.known && ok ==> {
                let gone = left_behind(old(self).list@);
                &&& r.1 == handle_of(old(ft).slots(), gone)
                &&& final(self).list@ == grown(old(self).list@, p.face)
                &&& final(ft).slots() == slots_without(old(ft).slots(), gone)
                &&& final(ft).kept() == kept_without(old(ft).kept(), gone)
                &&& active(*final(ft)) == active_without(old(ft).slots(), active(*old(ft)), gone)
                &&& final(ft).next_key() == old(ft).next_key()
            },
    {
        if p.known || !ok {
            return (ok, None);
        }
        let gone: Option<usize> = self.remember(ft, p.face);
        (true, gone)
    }
}

// ---- laws ----

/// A number's bytes tell it: as many as hold it are read back, the low byte
/// first.
pub proof fn bytes_tell_the_number(n: int, m: int)
    requires
        0 <= n < 0x1_0000_0000_0000_0000,
        0 <= m < 0x1_0000_0000_0000_0000,
    ensures
        bytes_of(n, 1) == seq![(n % 0x100) as u8],
        bytes_of(n, 8) == bytes_of(m, 8) <==> n == m,
        n < 0x1_0000_0000 && m < 0x1_0000_0000 ==> (bytes_of(n, 4) == bytes_of(m, 4) <==> n == m),
        bytes_of(n, 4).len() == 4,
        bytes_of(n, 8).len() == 8,
{
    reveal_with_fuel(bytes_of, 3);
    if bytes_of(n, 8) == bytes_of(m, 8) {
        number_told(n, m, 8, 0x1_0000_0000_0000_0000);
    }
    if bytes_of(n, 4) == bytes_of(m, 4) && n < 0x1_0000_0000 && m < 0x1_0000_0000 {
        number_told(n, m, 4, 0x1_0000_0000);
    }
    byte_count(n, 4);
    byte_count(n, 8);
    assert(bytes_of(n, 1) =~= seq![(n % 0x100) as u8]);
}

proof fn byte_count(n: int, count: int)
    requires
        0 <= count,
    ensures
        bytes_of(n, count).len() == count,
    decreases count,
{
    if count > 0 {
        byte_count(n / 0x100, count - 1);
    }
}

proof fn number_told(n: int, m: int, count: int, limit: int)
    requires
        0 <= n < limit,
        0 <= m < limit,
        0 <= count,
        bytes_of(n, count) == bytes_of(m, count),
        limit == (if count == 0 {
            1
        } else if count == 1 {
            0x100
        } else if count == 2 {
            0x1_0000
        } else if count == 3 {
            0x100_0000
        } else if count == 4 {
            0x1_0000_0000
        } else if count == 5 {
            0x100_0000_0000
        } else if count == 6 {
            0x1_0000_0000_0000
        } else if count == 7 {
            0x100_0000_0000_0000
        } else {
            0x1_0000_0000_0000_0000int
        }),
        count <= 8,
    ensures
        n == m,
    decreases count,
{
    if count > 0 {
        let (a, b) = (bytes_of(n, count), bytes_of(m, count));
        assert(a[0] == (n % 0x100) as u8 && b[0] == (m % 0x100) as u8);
        assert(a.skip(1) =~= bytes_of(n / 0x100, count - 1));
        assert(b.skip(1) =~= bytes_of(m / 0x100, count - 1));
        number_told(n / 0x100, m / 0x100, count - 1, limit / 0x100);
    }
}

/// A font in a local file is identified by its path, whatever the case of its
/// letters, and the index in the file; any other by its object and its index.
/// The two never coincide.
pub proof fn what_identifies_a_face(a: Seq<char>, i: u32, b: Seq<char>, j: u32, object: u64, other: u64)
    requires
        ascii(a),
        ascii(b),
    ensures
        path_parts(a, i) == path_parts(b, j) <==> text::same_letters(a, b) && i == j,
        memory_parts(object, i) == memory_parts(other, j) <==> object == other && i == j,
        path_parts(a, i) != memory_parts(object, j),
{
    bytes_tell_the_number(i as int, j as int);
    bytes_tell_the_number(object as int, other as int);
    let (p, q) = (path_parts(a, i), path_parts(b, j));
    let (m, n) = (memory_parts(object, i), memory_parts(other, j));
    if p == q {
        assert(p[1] == q[1] && p[2] == q[2]);
        assert(lowered_bytes(a).len() == lowered_bytes(b).len());
        assert forall|k: int| 0 <= k < a.len() implies text::lower(#[trigger] a[k]) == text::lower(b[k]) by {
            assert(lowered_bytes(a)[k] == lowered_bytes(b)[k]);
            assert((a[k] as u32) < 128 && (b[k] as u32) < 128);
        }
    }
    if text::same_letters(a, b) && i == j {
        assert(lowered_bytes(a) =~= lowered_bytes(b));
    }
    if m == n {
        assert(m[1] == n[1] && m[2] == n[2]);
    }
    assert(p[0].len() == 4 && memory_parts(object, j)[0].len() == 3);
}

/// The key of a face is that of its local file, where that has an ASCII path,
/// whatever object it is asked for by; else it is the object's.
pub proof fn a_local_file_gives_the_key(path: Seq<char>, at: u32, object: u64, index: u32)
    ensures
        ascii(path) ==> face_key(object, Some((path, at)), index) == key_of(path_parts(path, at)) && by_path(
            Some((path, at)),
        ),
        !ascii(path) ==> face_key(object, Some((path, at)), index) == key_of(memory_parts(object, index)) && !by_path(
            Some((path, at)),
        ),
        face_key(object, None, index) == key_of(memory_parts(object, index)) && !by_path(None),
{
}

/// Up to 32 faces are remembered, each new one as the last; one more sends off
/// the first, and the key of that one is closed if it was an object's.
pub proof fn up_to_32_faces_are_remembered(list: Seq<Known>, k: Known)
    requires
        list.len() <= 32,
    ensures
        list.len() < 32 ==> grown(list, k) == list.push(k) && left_behind(list) is None,
        list.len() == 32 ==> grown(list, k) == list.skip(1).push(k),
        list.len() == 32 && list[0].memory ==> left_behind(list) == Some(list[0].key),
        list.len() == 32 && !list[0].memory ==> left_behind(list) is None,
{
    if list.len() == 32 {
        assert(list.push(k).skip(1) =~= list.skip(1).push(k));
    }
}

/// A face is found by its object, the first that has it; once used it is the
/// last, and the others keep their order.
pub proof fn a_used_face_is_the_last(list: Seq<Known>, object: u64, i: int)
    requires
        0 <= i < list.len(),
        list[i].object == object,
        forall|j: int| 0 <= j < i ==> (#[trigger] list[j]).object != object,
    ensures
        remembered(list, object),
        place_of(list, object) == i,
        touched(list, object) == list.take(i) + list.skip(i + 1) + seq![list[i]],
{
    place_found(list, object);
    let p = place_of(list, object);
    if p < i {
        assert(list[p].object != object);
    }
    assert(list.remove(i).push(list[i]) =~= list.take(i) + list.skip(i + 1) + seq![list[i]]);
}

/// An object that no face has is not remembered.
pub proof fn an_unknown_object_is_not_remembered(list: Seq<Known>, object: u64)
    requires
        forall|j: int| 0 <= j < list.len() ==> (#[trigger] list[j]).object != object,
    ensures
        !remembered(list, object),
{
    place_found(list, object);
    if remembered(list, object) {
        assert(list[place_of(list, object)].object != object);
    }
}

/// The face drawn with last is remembered; of the others at most the one used
/// the longest ago is forgotten.
pub proof fn the_last_face_is_remembered(list: Seq<Known>, k: Known, i: int)
    requires
        list.len() <= MAX_DW_FACES,
    ensures
        grown(list, k).last() == k,
        grown(list, k).len() <= MAX_DW_FACES,
        0 < i < list.len() ==> grown(list, k).contains(list[i]),
{
    if 0 < i < list.len() {
        if list.len() >= MAX_DW_FACES {
            assert(grown(list, k)[i - 1] == list[i]);
        } else {
            assert(grown(list, k)[i] == list[i]);
        }
    }
}

/// Once an object is forgotten no glyph rendered under its key is kept, so
/// that another font at its address is not drawn with them.
pub proof fn a_forgotten_object_leaves_no_glyphs(
    list: Seq<Known>,
    kept: Map<GlyphKey, Arc<Glyph>>,
    glyph: GlyphKey,
)
    requires
        list.len() == MAX_DW_FACES,
        list[0].memory,
        glyph.face == list[0].key,
    ensures
        !kept_without(kept, left_behind(list)).dom().contains(glyph),
{
}

/// The parts of a key are its byte strings in their order.
pub proof fn the_parts_keep_their_order(v: Seq<Vec<u8>>, i: int)
    requires
        0 <= i < v.len(),
    ensures
        parts_of(v).len() == v.len(),
        parts_of(v)[i] == v[i]@,
{
}

/// A key that is left behind is closed: its face is no longer open, its handle
/// is handed out, its glyphs are dropped, and it is not the active one. Where
/// none is left behind nothing changes.
pub proof fn a_key_that_is_left_behind_is_closed(
    slots: Seq<FaceSlot>,
    kept: Map<GlyphKey, Arc<Glyph>>,
    a: (u64, Option<usize>),
    key: u64,
    i: int,
)
    requires
        0 <= i < slots.len(),
        slots[i].key == key,
        forall|j: int| 0 <= j < i ==> (#[trigger] slots[j]).key != key,
    ensures
        slots_without(slots, Some(key)) == slots.take(i) + slots.skip(i + 1),
        handle_of(slots, Some(key)) == Some(slots[i].face),
        kept_without(kept, Some(key)) == glyphs::without_face(kept, key),
        active_without(slots, a, Some(key)) == (if a.0 == key {
            (0u64, None::<usize>)
        } else {
            a
        }),
        slots_without(slots, None) == slots,
        handle_of(slots, None) is None,
        kept_without(kept, None) == kept,
        active_without(slots, a, None) == a,
        slots_used(slots, key) == slots.take(i) + slots.skip(i + 1) + seq![slots[i]],
        active_used(slots, key) == (key, Some(slots[i].face)),
{
    faces::a_face_is_found_by_its_key(slots, key, i);
    assert((slots.take(i) + slots.skip(i + 1)).push(slots[i]) =~= slots.take(i) + slots.skip(i + 1) + seq![slots[i]]);
}

/// A key under which nothing is open has nothing to close.
pub proof fn a_key_that_is_not_open_changes_no_face(slots: Seq<FaceSlot>, a: (u64, Option<usize>), key: u64)
    requires
        forall|j: int| 0 <= j < slots.len() ==> (#[trigger] slots[j]).key != key,
    ensures
        slots_without(slots, Some(key)) == slots,
        handle_of(slots, Some(key)) is None,
        active_without(slots, a, Some(key)) == a,
{
    faces::a_face_is_found_by_its_key(slots, key, slots.len() as int);
}

} // verus!
