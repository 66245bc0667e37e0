//! The faces that are open in FreeType, and the glyphs rendered from them.

use std::sync::Arc;

use vstd::prelude::*;

use crate::config::Profile;
use crate::ft;
use crate::ft::{Glyph, GlyphStyle};
use crate::glyphs;
use crate::glyphs::{GlyphKey, Glyphs};

verus! {

/// At most this many faces stay open; the least recently used is closed.
pub const MAX_FACES: usize = 8;

/// Faces opened from memory hold a copy of the whole font file, so their
/// bytes are capped too.
pub const MAX_FACE_BYTES: usize = 0x400_0000;

/// Keys handed out for faces opened without one start here.
pub const UNKEYED: u64 = 0x8000_0000_0000_0000;

/// An open face and what keeps it readable: the font-file bytes for a face
/// opened from memory, or nothing for one opened from a path.
pub struct FaceSlot {
    pub key: u64,
    /// FreeType's handle.
    pub face: usize,
    pub bytes: Vec<u8>,
}

/// A handful of open faces (one of them active) and a cache of rendered
/// glyphs.
pub struct Ft {
    faces: Vec<FaceSlot>,
    face: Option<usize>,
    active: u64,
    next_unkeyed: u64,
    glyphs: Glyphs,
}

/// Where the face under `key` stands, or the number of faces.
pub open spec fn slot_of(faces: Seq<FaceSlot>, key: u64) -> int
    decreases faces.len(),
{
    if faces.len() == 0 || faces[0].key == key {
        0
    } else {
        1 + slot_of(faces.skip(1), key)
    }
}

/// A face is open under `key`.
pub open spec fn is_open(faces: Seq<FaceSlot>, key: u64) -> bool {
    slot_of(faces, key) < faces.len()
}

proof fn slot_found(faces: Seq<FaceSlot>, key: u64)
    ensures
        0 <= slot_of(faces, key) <= faces.len(),
        is_open(faces, key) ==> faces[slot_of(faces, key)].key == key,
        forall|i: int| 0 <= i < slot_of(faces, key) ==> (#[trigger] faces[i]).key != key,
    decreases faces.len(),
{
    if faces.len() > 0 && faces[0].key != key {
        slot_found(faces.skip(1), key);
        assert forall|i: int| 0 <= i < slot_of(faces, key) implies (#[trigger] faces[i]).key != key by {
            if i > 0 {
                assert(faces.skip(1)[i - 1] == faces[i]);
            }
        }
    }
}

/// The bytes that the faces hold.
pub open spec fn face_bytes(faces: Seq<FaceSlot>) -> int
    decreases faces.len(),
{
    if faces.len() == 0 {
        0
    } else {
        faces[0].bytes@.len() + face_bytes(faces.skip(1))
    }
}

/// Too many faces, or too many bytes; the last one is kept in any case.
pub open spec fn too_much(faces: Seq<FaceSlot>) -> bool {
    faces.len() > 1 && (faces.len() > MAX_FACES || face_bytes(faces) > MAX_FACE_BYTES)
}

/// What stays open once the least recently used faces past the limits are
/// closed.
pub open spec fn within_limits(faces: Seq<FaceSlot>) -> Seq<FaceSlot>
    decreases faces.len(),
{
    if too_much(faces) {
        within_limits(faces.skip(1))
    } else {
        faces
    }
}

/// The handles of the first `n` faces.
pub open spec fn handles(faces: Seq<FaceSlot>, n: int) -> Seq<usize> {
    Seq::new(n as nat, |i: int| faces[i].face)
}

/// The faces without the one under `key`.
pub open spec fn without(faces: Seq<FaceSlot>, key: u64) -> Seq<FaceSlot> {
    if is_open(faces, key) {
        faces.remove(slot_of(faces, key))
    } else {
        faces
    }
}

/// No key twice.
pub open spec fn distinct_keys(faces: Seq<FaceSlot>) -> bool {
    forall|i: int, j: int| 0 <= i < j < faces.len() ==> (#[trigger] faces[i]).key != (#[trigger] faces[j]).key
}

proof fn within_limits_is_a_suffix(faces: Seq<FaceSlot>)
    requires
        faces.len() > 0,
    ensures
        0 < within_limits(faces).len() <= faces.len(),
        within_limits(faces) =~= faces.skip(faces.len() - within_limits(faces).len()),
        !too_much(within_limits(faces)),
    decreases faces.len(),
{
    if too_much(faces) {
        within_limits_is_a_suffix(faces.skip(1));
        let n = within_limits(faces).len() as int;
        assert(faces.skip(1).skip(faces.len() - 1 - n) =~= faces.skip(faces.len() - n));
    } else {
        assert(faces.skip(0) =~= faces);
    }
}

proof fn face_bytes_bound(faces: Seq<FaceSlot>)
    ensures
        0 <= face_bytes(faces) <= usize::MAX * faces.len(),
    decreases faces.len(),
{
    if faces.len() > 0 {
        face_bytes_bound(faces.skip(1));
        let v = faces[0].bytes;
        assert(v@.len() <= usize::MAX) by {
            assert(v@.len() == v.len());
        }
        assert(usize::MAX * faces.len() == usize::MAX * (faces.len() - 1) + usize::MAX) by (nonlinear_arith);
    }
}

impl Ft {
    /// The open faces, least recently used first.
    pub closed spec fn slots(&self) -> Seq<FaceSlot> {
        self.faces@
    }

    /// The active face's handle.
    pub closed spec fn current(&self) -> Option<usize> {
        self.face
    }

    /// The active face's key, 0 where there is none.
    pub closed spec fn current_key(&self) -> u64 {
        self.active
    }

    /// The key that the next face opened without one gets.
    pub closed spec fn next_key(&self) -> u64 {
        self.next_unkeyed
    }

    /// The kept glyphs.
    pub closed spec fn kept(&self) -> Map<GlyphKey, Arc<Glyph>> {
        self.glyphs@
    }

    /// No key twice, no more faces and bytes than allowed, the active face
    /// among them as the last one used, the cache in order.
    pub closed spec fn ok(&self) -> bool {
        &&& distinct_keys(self.faces@)
        &&& !too_much(self.faces@)
        &&& match self.face {
            Some(f) => self.faces@.len() > 0 && self.faces@.last().face == f && self.faces@.last().key == self.active,
            None => self.active == 0,
        }
        &&& self.next_unkeyed >= UNKEYED
        &&& self.glyphs.ok()
    }

    /// No face yet.
    pub fn new() -> (r: Ft)
        ensures
            r.ok(),
            r.slots().len() == 0,
            r.current() is None,
            r.current_key() == 0,
            r.next_key() == UNKEYED,
            r.kept() == Map::<GlyphKey, Arc<Glyph>>::empty(),
    {
        Ft { faces: Vec::new(), face: None, active: 0, next_unkeyed: UNKEYED, glyphs: Glyphs::new() }
    }

    /// A key for a face that is not looked up again.
    pub fn unkeyed(&mut self) -> (r: u64)
        requires
            old(self).ok(),
        ensures
            final(self).ok(),
            r == old(self).next_key(),
            r >= UNKEYED,
            final(self).next_key() == (if r == u64::MAX {
                UNKEYED as int
            } else {
                r + 1
            }),
            final(self).slots() == old(self).slots(),
            final(self).current() == old(self).current(),
            final(self).current_key() == old(self).current_key(),
            final(self).kept() == old(self).kept(),
    {
        let k: u64 = self.next_unkeyed;
        self.next_unkeyed = if k == u64::MAX {
            UNKEYED
        } else {
            k + 1
        };
        k
    }

    fn slot(&self, key: u64) -> (r: Option<usize>)
        ensures
            match r {
                Some(i) => is_open(self.faces@, key) && i == slot_of(self.faces@, key),
                None => !is_open(self.faces@, key),
            },
    {
        let mut i: usize = 0;
        while i < self.faces.len()
            invariant
                i <= self.faces@.len(),
                forall|j: int| 0 <= j < i ==> (#[trigger] self.faces@[j]).key != key,
            decreases self.faces@.len() - i,
        {
            if self.faces[i].key == key {
                proof {
                    slot_found(self.faces@, key);
                    let s = slot_of(self.faces@, key);
                    if s < i {
                        assert(self.faces@[s].key != key);
                    }
                }
                return Some(i);
            }
            i = i + 1;
        }
        proof {
            slot_found(self.faces@, key);
        }
        None
    }

    /// Make the face opened under `key` the active one, if it is still open.
    pub fn activate(&mut self, key: u64) -> (r: bool)
        requires
            old(self).ok(),
        ensures
            final(self).ok(),
            r == is_open(old(self).slots(), key),
            !r ==> *final(self) == *old(self),
            r ==> {
                let slot = old(self).slots()[slot_of(old(self).slots(), key)];
                &&& final(self).slots() == without(old(self).slots(), key).push(slot)
                &&& final(self).current() == Some(slot.face)
                &&& final(self).current_key() == key
                &&& final(self).next_key() == old(self).next_key()
                &&& final(self).kept() == old(self).kept()
            },
    {
        let i: usize = match self.slot(key) {
            Some(i) => i,
            None => {
                return false;
            },
        };
        let ghost before = self.faces@;
        proof {
            slot_found(before, key);
            bytes_without(before, i as int);
        }
        let slot: FaceSlot = self.faces.remove(i);
        self.face = Some(slot.face);
        self.active = key;
        let ghost mid = self.faces@;
        self.faces.push(slot);
        proof {
            bytes_pushed(mid, slot);
            distinct_without(before, i as int);
        }
        true
    }

    /// Close the face opened under `key`, if open, and forget the glyphs
    /// rendered from it. For a key whose owner may be reused: the next face
    /// under that key may be another font. Returns the handle to close.
    pub fn close(&mut self, key: u64) -> (r: Option<usize>)
        requires
            old(self).ok(),
        ensures
            final(self).ok(),
            final(self).kept() == glyphs::without_face(old(self).kept(), key),
            final(self).slots() == without(old(self).slots(), key),
            final(self).next_key() == old(self).next_key(),
            r == (if is_open(old(self).slots(), key) {
                Some(old(self).slots()[slot_of(old(self).slots(), key)].face)
            } else {
                None
            }),
            is_open(old(self).slots(), key) && old(self).current_key() == key ==> final(self).current() is None
                && final(self).current_key() == 0,
            !(is_open(old(self).slots(), key) && old(self).current_key() == key) ==> final(self).current() == old(
                self,
            ).current() && final(self).current_key() == old(self).current_key(),
    {
        self.glyphs.forget(key);
        let i: usize = match self.slot(key) {
            Some(i) => i,
            None => {
                return None;
            },
        };
        let ghost before = self.faces@;
        proof {
            slot_found(before, key);
            bytes_without(before, i as int);
            distinct_without(before, i as int);
        }
        let slot: FaceSlot = self.faces.remove(i);
        proof {
            face_bytes_bound(self.faces@);
            if i == before.len() - 1 {
            } else {
                assert(self.faces@.last() == before.last());
            }
        }
        if self.active == key {
            self.face = None;
            self.active = 0;
        }
        Some(slot.face)
    }

    /// Take `face` (already open) as the active one under `key`, closing the
    /// least recently used faces past the limits. A face opened again under a
    /// key already present replaces the old one, and whatever was rendered
    /// under the key is forgotten. Returns the handles to close, in order.
    pub fn adopt(&mut self, key: u64, face: usize, bytes: Vec<u8>) -> (r: Vec<usize>)
        requires
            old(self).ok(),
        ensures
            final(self).ok(),
            final(self).kept() == glyphs::without_face(old(self).kept(), key),
            final(self).next_key() == old(self).next_key(),
            final(self).current() == Some(face),
            final(self).current_key() == key,
            ({
                let had = old(self).slots();
                let all = without(had, key).push(FaceSlot { key, face, bytes });
                let stay = within_limits(all);
                &&& final(self).slots() == stay
                &&& r@ == (if is_open(had, key) {
                    seq![had[slot_of(had, key)].face]
                } else {
                    seq![]
                }) + handles(all, all.len() - stay.len())
            }),
    {
        self.glyphs.forget(key);
        let mut gone: Vec<usize> = Vec::new();
        let ghost had = self.faces@;
        let found: Option<usize> = self.slot(key);
        proof {
            slot_found(had, key);
        }
        match found {
            Some(i) => {
                proof {
                    distinct_without(had, i as int);
                }
                let old: FaceSlot = self.faces.remove(i);
                gone.push(old.face);
            },
            None => {},
        }
        let ghost replaced = gone@;
        proof {
            assert forall|j: int| 0 <= j < self.faces@.len() implies (#[trigger] self.faces@[j]).key != key by {
                if found is Some {
                    let i = slot_of(had, key);
                    if j < i {
                        assert(had[j].key != key);
                    } else {
                        assert(had[i].key != had[j + 1].key);
                    }
                } else {
                    assert(had[j].key != key);
                }
            }
        }
        self.faces.push(FaceSlot { key, face, bytes });
        let ghost all = self.faces@;
        assert(all =~= without(had, key).push(FaceSlot { key, face, bytes }));
        self.face = Some(face);
        self.active = key;
        let mut sum: u128 = self.byte_count();
        let ghost mut n: int = 0;
        proof {
            assert(all.skip(0) =~= all);
            assert(handles(all, 0) =~= seq![]);
            assert(replaced + handles(all, 0) =~= replaced);
        }
        while self.faces.len() > 1 && (self.faces.len() > MAX_FACES || sum > MAX_FACE_BYTES as u128)
            invariant
                0 <= n < all.len(),
                all.len() <= MAX_FACES + 1,
                self.faces@ == all.skip(n),
                sum == face_bytes(self.faces@),
                within_limits(self.faces@) == within_limits(all),
                gone@ == replaced + handles(all, n),
                self.face == Some(face),
                self.active == key,
                self.next_unkeyed == old(self).next_unkeyed,
                self.glyphs.ok(),
                self.glyphs@ == glyphs::without_face(old(self).glyphs@, key),
            decreases self.faces@.len(),
        {
            let ghost before = self.faces@;
            let old: FaceSlot = self.faces.remove(0);
            proof {
                assert(self.faces@ =~= before.skip(1));
                assert(self.faces@ =~= all.skip(n + 1));
                face_bytes_bound(self.faces@);
            }
            sum = sum - old.bytes.len() as u128;
            gone.push(old.face);
            proof {
                assert(handles(all, n + 1) =~= handles(all, n).push(all[n].face));
                assert(gone@ =~= replaced + handles(all, n + 1));
                n = n + 1;
            }
        }
        proof {
            within_limits_is_a_suffix(all);
            assert(self.faces@ == within_limits(all));
            assert(self.faces@.last() == all.last());
        }
        gone
    }

    /// Close everything: the handles are returned, least recently used first.
    pub fn close_all(&mut self) -> (r: Vec<usize>)
        requires
            old(self).ok(),
        ensures
            final(self).ok(),
            final(self).slots().len() == 0,
            final(self).kept() == Map::<GlyphKey, Arc<Glyph>>::empty(),
            final(self).next_key() == old(self).next_key(),
            final(self).current() is None,
            final(self).current_key() == 0,
            r@ == handles(old(self).slots(), old(self).slots().len() as int),
    {
        let ghost had = self.faces@;
        let mut r: Vec<usize> = Vec::new();
        let mut i: usize = 0;
        while i < self.faces.len()
            invariant
                i <= self.faces@.len(),
                self.faces@ == had,
                self.next_unkeyed == old(self).next_unkeyed,
                r@ == handles(had, i as int),
            decreases self.faces@.len() - i,
        {
            r.push(self.faces[i].face);
            i = i + 1;
            assert(r@ =~= handles(had, i as int));
        }
        self.faces = Vec::new();
        self.face = None;
        self.active = 0;
        self.glyphs = Glyphs::new();
        r
    }

    fn byte_count(&self) -> (r: u128)
        requires
            self.faces@.len() <= MAX_FACES + 1,
        ensures
            r == face_bytes(self.faces@),
    {
        let mut sum: u128 = 0;
        let mut i: usize = self.faces.len();
        proof {
            assert(self.faces@.skip(i as int) =~= seq![]);
        }
        while i > 0
            invariant
                i <= self.faces@.len() <= MAX_FACES + 1,
                sum == face_bytes(self.faces@.skip(i as int)),
            decreases i,
        {
            i = i - 1;
            proof {
                assert(self.faces@.skip(i as int).skip(1) =~= self.faces@.skip(i + 1));
                face_bytes_bound(self.faces@.skip(i as int));
                let n = self.faces@.skip(i as int).len() as int;
                assert(usize::MAX * n <= usize::MAX * 9) by (nonlinear_arith)
                    requires
                        0 <= n <= 9,
                ;
            }
            sum = sum + self.faces[i].bytes.len() as u128;
        }
        proof {
            assert(self.faces@.skip(0) =~= self.faces@);
        }
        sum
    }
}

proof fn bytes_without(faces: Seq<FaceSlot>, i: int)
    requires
        0 <= i < faces.len(),
    ensures
        face_bytes(faces.remove(i)) == face_bytes(faces) - faces[i].bytes@.len(),
    decreases faces.len(),
{
    if i == 0 {
        assert(faces.remove(0) =~= faces.skip(1));
    } else {
        bytes_without(faces.skip(1), i - 1);
        assert(faces.remove(i).skip(1) =~= faces.skip(1).remove(i - 1));
    }
}

proof fn bytes_pushed(faces: Seq<FaceSlot>, slot: FaceSlot)
    ensures
        face_bytes(faces.push(slot)) == face_bytes(faces) + slot.bytes@.len(),
    decreases faces.len(),
{
    if faces.len() > 0 {
        bytes_pushed(faces.skip(1), slot);
        assert(faces.push(slot).skip(1) =~= faces.skip(1).push(slot));
    } else {
        assert(faces.push(slot).skip(1) =~= faces);
    }
}

proof fn distinct_without(faces: Seq<FaceSlot>, i: int)
    requires
        distinct_keys(faces),
        0 <= i < faces.len(),
    ensures
        distinct_keys(faces.remove(i)),
        forall|j: int| 0 <= j < faces.len() - 1 ==> (#[trigger] faces.remove(i)[j]).key != faces[i].key,
{
    let c = faces.remove(i);
    assert forall|x: int, y: int| 0 <= x < y < c.len() implies (#[trigger] c[x]).key != (#[trigger] c[y]).key by {
        let x1 = if x < i {
            x
        } else {
            x + 1
        };
        let y1 = if y < i {
            y
        } else {
            y + 1
        };
        assert(faces[x1].key != faces[y1].key);
    }
    assert forall|j: int| 0 <= j < faces.len() - 1 implies (#[trigger] c[j]).key != faces[i].key by {
        if j < i {
            assert(faces[j].key != faces[i].key);
        } else {
            assert(faces[i].key != faces[j + 1].key);
        }
    }
}

// ---- glyphs of the active face ----

/// The key of glyph `gi` of the face under `face`, at `size` in `style`,
/// through the settings of `p`.
pub open spec fn key_of(face: u64, gi: u32, size: i64, style: u8, p: Profile) -> GlyphKey {
    GlyphKey {
        face,
        gi,
        size,
        style,
        load_flags: ft::load_flags(p.aa, p.hinting as int) as i32,
        render_mode: ft::render_mode(p.aa) as i32,
        lcd_filter: if p.aa.lcd() {
            p.lcd_filter
        } else {
            0
        },
        embolden: p.embolden,
    }
}

impl Ft {
    fn key(&self, gi: u32, size: i64, style: u8, p: &Profile) -> (r: GlyphKey)
        ensures
            r == key_of(self.current_key(), gi, size, style, *p),
    {
        let (load_flags, render_mode): (i32, i32) = ft::flags(p);
        GlyphKey {
            face: self.active,
            gi,
            size,
            style,
            load_flags,
            render_mode,
            lcd_filter: if p.aa.is_lcd() {
                p.lcd_filter
            } else {
                0
            },
            embolden: p.embolden,
        }
    }

    /// The active face's handle, if a face is active.
    pub fn active_face(&self) -> (r: Option<usize>)
        ensures
            r == self.current(),
    {
        self.face
    }

    /// The key of glyph `gi` at `px` whole pixels; `None` without an active
    /// face. Whole-pixel sizes are keyed negated, apart from 26.6 ones.
    pub fn plain_key(&self, gi: u32, px: i32, p: &Profile) -> (r: Option<GlyphKey>)
        ensures
            r == (if self.current() is None {
                None
            } else {
                Some(key_of(self.current_key(), gi, (-(px as int)) as i64, 0, *p))
            }),
    {
        if self.face.is_none() {
            return None;
        }
        Some(self.key(gi, -(px as i64), 0, p))
    }

    /// The key of glyph `gi` in `style`; `None` without an active face, or
    /// without a size.
    pub fn styled_key(&self, gi: u16, style: &GlyphStyle, p: &Profile) -> (r: Option<GlyphKey>)
        ensures
            r == (if self.current() is None || style.size_26_6 <= 0 {
                None
            } else {
                Some(key_of(self.current_key(), gi as u32, style.size_26_6, ft::style_bits(*style) as u8, *p))
            }),
    {
        if self.face.is_none() || style.size_26_6 <= 0 {
            return None;
        }
        Some(self.key(gi as u32, style.size_26_6, style.bits(), p))
    }

    /// The glyph for `key`, rendering it with `render` on a miss.
    pub fn cached<F: FnOnce() -> Option<Glyph>>(&mut self, key: GlyphKey, render: F) -> (r: Option<Arc<Glyph>>)
        requires
            old(self).ok(),
            render.requires(()),
        ensures
            final(self).ok(),
            final(self).slots() == old(self).slots(),
            final(self).current() == old(self).current(),
            final(self).current_key() == old(self).current_key(),
            final(self).next_key() == old(self).next_key(),
            old(self).kept().dom().contains(key) ==> r == Some(old(self).kept()[key]) && final(self).kept() == old(
                self,
            ).kept(),
            !old(self).kept().dom().contains(key) ==> match r {
                Some(g) => render.ensures((), Some(*g)) && final(self).kept() == glyphs::with_kept(
                    old(self).kept(),
                    key,
                    g,
                ),
                None => render.ensures((), None) && final(self).kept() == old(self).kept(),
            },
    {
        self.glyphs.cached(key, render)
    }
}

// ---- laws ----

/// A face is found under its key: the first that has it, if any has.
pub proof fn a_face_is_found_by_its_key(faces: Seq<FaceSlot>, key: u64, i: int)
    requires
        0 <= i <= faces.len(),
        i < faces.len() ==> faces[i].key == key,
        forall|j: int| 0 <= j < i ==> (#[trigger] faces[j]).key != key,
    ensures
        slot_of(faces, key) == i,
        is_open(faces, key) <==> i < faces.len(),
        i < faces.len() ==> without(faces, key) == faces.take(i) + faces.skip(i + 1),
        i == faces.len() ==> without(faces, key) == faces,
{
    slot_found(faces, key);
    if i < faces.len() {
        assert(faces.remove(i) =~= faces.take(i) + faces.skip(i + 1));
    }
}

/// As many of the last used faces stay open as the limits allow: up to eight,
/// with up to 64 mebibytes among them, and the last one in any case.
pub proof fn the_last_used_faces_stay(faces: Seq<FaceSlot>, k: int)
    requires
        faces.len() > 0,
        k == faces.len() - within_limits(faces).len(),
    ensures
        0 <= k < faces.len(),
        within_limits(faces) == faces.skip(k),
        faces.len() - k == 1 || faces.len() - k <= 8 && face_bytes(faces.skip(k)) <= 67_108_864,
        k > 0 ==> faces.len() - k + 1 > 8 || face_bytes(faces.skip(k - 1)) > 67_108_864,
{
    within_limits_is_a_suffix(faces);
    if k > 0 {
        one_step_before(faces, faces.len() - k);
    }
}

/// The bytes of the open faces are counted one face after the other.
pub proof fn the_bytes_of_faces_add_up(faces: Seq<FaceSlot>, slot: FaceSlot)
    ensures
        face_bytes(seq![]) == 0,
        face_bytes(faces.push(slot)) == face_bytes(faces) + slot.bytes@.len(),
{
    bytes_pushed(faces, slot);
}

/// The handles come in the order of the faces.
pub proof fn handles_keep_their_order(faces: Seq<FaceSlot>, n: int, i: int)
    requires
        0 <= i < n <= faces.len(),
    ensures
        handles(faces, n).len() == n,
        handles(faces, n)[i] == faces[i].face,
{
}

/// A glyph's key holds what the glyph is rendered from; the LCD filter only
/// where one is set.
pub proof fn a_key_holds_what_it_is_for(face: u64, gi: u32, size: i64, style: u8, p: Profile)
    ensures
        ({
            let k = key_of(face, gi, size, style, p);
            &&& k.face == face && k.gi == gi && k.size == size && k.style == style
            &&& k.embolden == p.embolden
            &&& k.load_flags == ft::load_flags(p.aa, p.hinting as int)
            &&& k.render_mode == ft::render_mode(p.aa)
            &&& p.aa.number() == 0 ==> k.lcd_filter == 0
            &&& p.aa.number() != 0 ==> k.lcd_filter == p.lcd_filter
        }),
{
}

/// Closing a face, or opening another under its key, leaves no glyph that
/// was rendered under that key: the next face there may be another font.
pub proof fn a_reused_key_serves_no_old_glyphs(kept: Map<GlyphKey, Arc<Glyph>>, key: u64, k: GlyphKey)
    requires
        k.face == key,
    ensures
        !glyphs::without_face(kept, key).dom().contains(k),
{
}

/// The face that was just opened or activated is not the next to be closed:
/// opening another one closes it only when that one alone is past the limit.
pub proof fn the_last_used_face_stays(faces: Seq<FaceSlot>, slot: FaceSlot)
    requires
        faces.len() > 0,
        !too_much(faces),
        face_bytes(seq![faces.last(), slot]) <= MAX_FACE_BYTES,
    ensures
        within_limits(faces.push(slot)).len() >= 2,
        within_limits(faces.push(slot))[within_limits(faces.push(slot)).len() - 2] == faces.last(),
{
    let all = faces.push(slot);
    within_limits_is_a_suffix(all);
    let stay = within_limits(all);
    if stay.len() < 2 {
        let k = all.len() - 2;
        one_step_before(all, stay.len() as int);
        assert(all.skip(k) =~= seq![faces.last(), slot]);
    }
}

/// What was closed last was past the limits while it was open.
proof fn one_step_before(faces: Seq<FaceSlot>, n: int)
    requires
        faces.len() > 0,
        n == within_limits(faces).len(),
        n < faces.len(),
    ensures
        too_much(faces.skip(faces.len() - n - 1)),
    decreases faces.len(),
{
    within_limits_is_a_suffix(faces);
    if within_limits(faces.skip(1)).len() == faces.len() - 1 {
        assert(faces.skip(0) =~= faces);
    } else {
        one_step_before(faces.skip(1), n);
        assert(faces.skip(1).skip(faces.len() - 1 - n - 1) =~= faces.skip(faces.len() - n - 1));
    }
}

/// Glyphs are told apart by face, index, size, style and every setting that
/// changes a bitmap.
pub proof fn keys_tell_glyphs_apart(
    face: u64,
    gi: u32,
    size: i64,
    style: u8,
    p: Profile,
    face2: u64,
    gi2: u32,
    size2: i64,
    style2: u8,
    p2: Profile,
)
    ensures
        key_of(face, gi, size, style, p) == key_of(face2, gi2, size2, style2, p2) <==> {
            &&& face == face2
            &&& gi == gi2
            &&& size == size2
            &&& style == style2
            &&& ft::load_flags(p.aa, p.hinting as int) == ft::load_flags(p2.aa, p2.hinting as int)
            &&& p.aa.lcd() == p2.aa.lcd()
            &&& p.aa.lcd() ==> p.lcd_filter == p2.lcd_filter
            &&& p.embolden == p2.embolden
        },
{
}

} // verus!
