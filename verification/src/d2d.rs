//! Direct2D text: which vtable slots are patched, and which text is drawn here
//! rather than by Direct2D.

use vstd::prelude::*;

use crate::canvas::Rect;
use crate::config::Aa;
use crate::coverage;
use crate::filter::Tables;
use crate::geometry::ONE;
use crate::numbers;
use crate::render::{PlacedGlyph, RenderedRun};

verus! {

// ---- slots ----

/// `ID2D1Factory`.
pub const SLOT_CREATE_WIC_RT: usize = 13;

pub const SLOT_CREATE_HWND_RT: usize = 14;

pub const SLOT_CREATE_DC_RT: usize = 16;

/// `CreateDevice` in `ID2D1Factory1` to `ID2D1Factory7`, in that order.
pub const SLOTS_FACTORY_CREATE_DEVICE: [usize; 7] = [17, 27, 28, 29, 30, 31, 32];

/// `CreateDeviceContext` in `ID2D1Device` to `ID2D1Device6`, in that order.
pub const SLOTS_DEVICE_CREATE_CONTEXT: [usize; 7] = [4, 11, 12, 15, 16, 19, 20];

/// `ID2D1RenderTarget` and `ID2D1DeviceContext`.
pub const SLOT_CREATE_COMPATIBLE_RT: usize = 12;

pub const SLOT_DRAW_TEXT: usize = 27;

pub const SLOT_DRAW_TEXT_LAYOUT: usize = 28;

pub const SLOT_DRAW_GLYPH_RUN: usize = 29;

pub const SLOT_SET_TEXT_AA_MODE: usize = 34;

pub const SLOT_SET_TEXT_RENDERING_PARAMS: usize = 36;

pub const SLOT_DRAW_GLYPH_RUN1: usize = 82;

/// Those of the first `n` slots whose interface is supported, in order.
pub open spec fn supported_slots(slots: Seq<usize>, supported: Seq<bool>, n: int) -> Seq<usize>
    decreases n,
{
    if n <= 0 {
        seq![]
    } else if supported[n - 1] {
        supported_slots(slots, supported, n - 1).push(slots[n - 1])
    } else {
        supported_slots(slots, supported, n - 1)
    }
}

fn add_supported(out: &mut Vec<usize>, slots: &[usize; 7], supported: &[bool; 7])
    ensures
        final(out)@ == old(out)@ + supported_slots(slots@, supported@, 7),
{
    let ghost had = out@;
    let mut i: usize = 0;
    proof {
        assert(had + supported_slots(slots@, supported@, 0) =~= had);
    }
    while i < 7
        invariant
            i <= 7,
            slots@.len() == 7,
            supported@.len() == 7,
            out@ == had + supported_slots(slots@, supported@, i as int),
        decreases 7 - i,
    {
        if supported[i] {
            out.push(slots[i]);
        }
        proof {
            assert(out@ =~= had + supported_slots(slots@, supported@, i + 1));
        }
        i = i + 1;
    }
}

/// The slots to patch on a factory: the creation of render targets, and of
/// devices as far as the factory answers for the interface.
pub fn factory_slots(supported: &[bool; 7]) -> (r: Vec<usize>)
    ensures
        r@ == seq![SLOT_CREATE_WIC_RT, SLOT_CREATE_HWND_RT, SLOT_CREATE_DC_RT] + supported_slots(
            SLOTS_FACTORY_CREATE_DEVICE@,
            supported@,
            7,
        ),
{
    let mut r: Vec<usize> = Vec::new();
    r.push(SLOT_CREATE_WIC_RT);
    r.push(SLOT_CREATE_HWND_RT);
    r.push(SLOT_CREATE_DC_RT);
    proof {
        assert(r@ =~= seq![SLOT_CREATE_WIC_RT, SLOT_CREATE_HWND_RT, SLOT_CREATE_DC_RT]);
    }
    let slots: [usize; 7] = SLOTS_FACTORY_CREATE_DEVICE;
    add_supported(&mut r, &slots, supported);
    r
}

/// The slots to patch on a device.
pub fn device_slots(supported: &[bool; 7]) -> (r: Vec<usize>)
    ensures
        r@ == supported_slots(SLOTS_DEVICE_CREATE_CONTEXT@, supported@, 7),
{
    let mut r: Vec<usize> = Vec::new();
    let slots: [usize; 7] = SLOTS_DEVICE_CREATE_CONTEXT;
    add_supported(&mut r, &slots, supported);
    proof {
        assert(seq![] + supported_slots(SLOTS_DEVICE_CREATE_CONTEXT@, supported@, 7) =~= supported_slots(
            SLOTS_DEVICE_CREATE_CONTEXT@,
            supported@,
            7,
        ));
        assert(r@ =~= supported_slots(SLOTS_DEVICE_CREATE_CONTEXT@, supported@, 7));
    }
    r
}

/// The slots to patch on a render target; on a device context one more.
pub fn target_slots(context: bool) -> (r: Vec<usize>)
    ensures
        r@ == seq![
            SLOT_CREATE_COMPATIBLE_RT,
            SLOT_DRAW_TEXT,
            SLOT_DRAW_TEXT_LAYOUT,
            SLOT_DRAW_GLYPH_RUN,
            SLOT_SET_TEXT_AA_MODE,
            SLOT_SET_TEXT_RENDERING_PARAMS,
        ] + (if context {
            seq![SLOT_DRAW_GLYPH_RUN1]
        } else {
            seq![]
        }),
{
    let mut r: Vec<usize> = Vec::new();
    r.push(SLOT_CREATE_COMPATIBLE_RT);
    r.push(SLOT_DRAW_TEXT);
    r.push(SLOT_DRAW_TEXT_LAYOUT);
    r.push(SLOT_DRAW_GLYPH_RUN);
    r.push(SLOT_SET_TEXT_AA_MODE);
    r.push(SLOT_SET_TEXT_RENDERING_PARAMS);
    if context {
        r.push(SLOT_DRAW_GLYPH_RUN1);
    }
    r
}

// ---- patched slots ----

/// A patched slot of a vtable, and the function that was in it.
#[derive(Clone, Copy, Debug, PartialEq, Eq, Structural)]
pub struct Patch {
    pub vtable: usize,
    pub slot: usize,
    pub original: usize,
}

/// The patched slots. Each is patched once: what was in it the first time is
/// the way back, and a second look would find the detour itself there.
pub struct Patches {
    pub list: Vec<Patch>,
}

/// The function that was in the slot, if it is patched.
pub open spec fn original_of(list: Seq<Patch>, vtable: usize, slot: usize) -> Option<usize>
    decreases list.len(),
{
    if list.len() == 0 {
        None
    } else if list[0].vtable == vtable && list[0].slot == slot {
        Some(list[0].original)
    } else {
        original_of(list.skip(1), vtable, slot)
    }
}

/// The function that was in the first of the slots that is patched.
pub open spec fn any_original_of(list: Seq<Patch>, vtable: usize, slots: Seq<usize>) -> Option<usize>
    decreases slots.len(),
{
    if slots.len() == 0 {
        None
    } else {
        match original_of(list, vtable, slots[0]) {
            Some(f) => Some(f),
            None => any_original_of(list, vtable, slots.skip(1)),
        }
    }
}

impl Patches {
    pub fn new() -> (r: Patches)
        ensures
            r.list@.len() == 0,
    {
        Patches { list: Vec::new() }
    }

    /// The function that was in the slot, if it is patched.
    pub fn original(&self, vtable: usize, slot: usize) -> (r: Option<usize>)
        ensures
            r == original_of(self.list@, vtable, slot),
    {
        let mut i: usize = 0;
        proof {
            assert(self.list@.skip(0) =~= self.list@);
        }
        while i < self.list.len()
            invariant
                i <= self.list@.len(),
                original_of(self.list@.skip(i as int), vtable, slot) == original_of(self.list@, vtable, slot),
            decreases self.list@.len() - i,
        {
            if self.list[i].vtable == vtable && self.list[i].slot == slot {
                return Some(self.list[i].original);
            }
            proof {
                assert(self.list@.skip(i as int).skip(1) =~= self.list@.skip(i + 1));
            }
            i = i + 1;
        }
        None
    }

    /// The function that was in any of the slots: for methods whose overloads
    /// share one signature and one implementation.
    pub fn any_original(&self, vtable: usize, slots: &[usize]) -> (r: Option<usize>)
        ensures
            r == any_original_of(self.list@, vtable, slots@),
    {
        let mut i: usize = 0;
        proof {
            assert(slots@.skip(0) =~= slots@);
        }
        while i < slots.len()
            invariant
                i <= slots@.len(),
                any_original_of(self.list@, vtable, slots@.skip(i as int)) == any_original_of(
                    self.list@,
                    vtable,
                    slots@,
                ),
            decreases slots@.len() - i,
        {
            match self.original(vtable, slots[i]) {
                Some(f) => {
                    return Some(f);
                },
                None => {},
            }
            proof {
                assert(slots@.skip(i as int).skip(1) =~= slots@.skip(i + 1));
            }
            i = i + 1;
        }
        None
    }

    /// Whether the slot is still to be patched.
    pub fn to_patch(&self, vtable: usize, slot: usize) -> (r: bool)
        ensures
            r == (original_of(self.list@, vtable, slot) is None),
    {
        self.original(vtable, slot).is_none()
    }

    /// Take down what was in a slot, before it is patched. Returns whether it
    /// was to be patched; if not, nothing changes.
    pub fn patch_once(&mut self, vtable: usize, slot: usize, original: usize) -> (r: bool)
        ensures
            r == (original_of(old(self).list@, vtable, slot) is None),
            !r ==> *final(self) == *old(self),
            r ==> final(self).list@ == old(self).list@.push(Patch { vtable, slot, original }),
    {
        if !self.to_patch(vtable, slot) {
            return false;
        }
        self.list.push(Patch { vtable, slot, original });
        true
    }
}

/// A slot that is patched leads back to what was in it the first time, however
/// often it is patched again, and other slots are not touched.
pub proof fn the_first_original_stays(list: Seq<Patch>, p: Patch, vtable: usize, slot: usize)
    ensures
        original_of(list.push(p), vtable, slot) == (match original_of(list, vtable, slot) {
            Some(f) => Some(f),
            None => if p.vtable == vtable && p.slot == slot {
                Some(p.original)
            } else {
                None
            },
        }),
    decreases list.len(),
{
    let all = list.push(p);
    if list.len() == 0 {
        assert(all[0] == p);
        assert(original_of(all.skip(1), vtable, slot) is None);
    } else {
        assert(all[0] == list[0]);
        assert(all.skip(1) =~= list.skip(1).push(p));
        the_first_original_stays(list.skip(1), p, vtable, slot);
    }
}

/// The object that a creation call gave: only where the call succeeded and
/// gave one.
pub fn created(ok: bool, out: Option<usize>) -> (r: Option<usize>)
    ensures
        r == (if ok && out != Some(0usize) {
            out
        } else {
            None
        }),
{
    match out {
        Some(p) => if ok && p != 0 {
            Some(p)
        } else {
            None
        },
        None => None,
    }
}

// ---- what is drawn here ----

/// Whether a target's text is drawn here: only greyscale can go through an
/// opacity mask, so aliased text and an LCD profile are Direct2D's. `aa` is
/// the profile's, once there is one.
pub fn self_drawn(aliased: bool, aa: Option<Aa>) -> (r: bool)
    ensures
        r == (!aliased && aa == Some(Aa::Grey)),
{
    match aa {
        Some(aa) => !aliased && !aa.is_lcd(),
        None => false,
    }
}

/// `D2D1_DRAW_TEXT_OPTIONS`.
pub const OPTION_NO_SNAP: i32 = 1;

pub const OPTION_CLIP: i32 = 2;

pub const OPTION_COLOR_FONT: i32 = 4;

/// How a text layout is drawn.
#[derive(Clone, Copy, Debug, PartialEq, Eq, Structural)]
pub struct LayoutOptions {
    /// Glyphs are not snapped to pixels.
    pub snap_off: bool,
    /// Nothing is drawn outside the layout's box.
    pub clip: bool,
    /// Colour glyphs are wanted: look for them first, and leave a layout that
    /// has any to Direct2D.
    pub colour: bool,
}

pub fn layout_options(options: i32) -> (r: LayoutOptions)
    ensures
        r == (LayoutOptions {
            snap_off: options & OPTION_NO_SNAP != 0,
            clip: options & OPTION_CLIP != 0,
            colour: options & OPTION_COLOR_FONT != 0,
        }),
{
    LayoutOptions {
        snap_off: options & OPTION_NO_SNAP != 0,
        clip: options & OPTION_CLIP != 0,
        colour: options & OPTION_COLOR_FONT != 0,
    }
}

/// A walk over a text layout: one that only looks for colour glyphs, or one
/// that draws.
#[derive(Clone, Copy, Debug, PartialEq, Eq, Structural)]
pub struct Walk {
    /// Looking only; whether any colour glyph was found so far.
    pub scan: Option<bool>,
    /// Something was drawn.
    pub drew: bool,
}

/// What to do with something that a walk comes across.
#[derive(Clone, Copy, Debug, PartialEq, Eq, Structural)]
pub enum Visit {
    Draw,
    /// Ask whether the run has colour glyphs.
    AskForColour,
    Skip,
}

impl Walk {
    pub fn new(scan: bool) -> (r: Walk)
        ensures
            r == (Walk {
                scan: if scan {
                    Some(false)
                } else {
                    None
                },
                drew: false,
            }),
    {
        Walk {
            scan: if scan {
                Some(false)
            } else {
                None
            },
            drew: false,
        }
    }

    /// A glyph run.
    pub fn glyph_run(&mut self) -> (r: Visit)
        ensures
            r == (match old(self).scan {
                Some(found) => if found {
                    Visit::Skip
                } else {
                    Visit::AskForColour
                },
                None => Visit::Draw,
            }),
            final(self).scan == old(self).scan,
            final(self).drew == (old(self).drew || old(self).scan is None),
    {
        match self.scan {
            Some(found) => if found {
                Visit::Skip
            } else {
                Visit::AskForColour
            },
            None => {
                self.drew = true;
                Visit::Draw
            },
        }
    }

    /// The run that was asked about has colour glyphs, or has none.
    pub fn answered(&mut self, colour: bool)
        ensures
            final(self).drew == old(self).drew,
            final(self).scan == (match old(self).scan {
                Some(found) => Some(found || colour),
                None => None,
            }),
    {
        match self.scan {
            Some(found) => {
                self.scan = Some(found || colour);
            },
            None => {},
        }
    }

    /// An underline, a strikethrough or an inline object.
    pub fn other(&mut self) -> (r: Visit)
        ensures
            r == (if old(self).scan is None {
                Visit::Draw
            } else {
                Visit::Skip
            }),
            final(self).scan == old(self).scan,
            final(self).drew == (old(self).drew || old(self).scan is None),
    {
        match self.scan {
            Some(_) => Visit::Skip,
            None => {
                self.drew = true;
                Visit::Draw
            },
        }
    }

    /// Whether the layout was drawn here. A walk that failed part-way has
    /// drawn some of it, which Direct2D would draw twice; only one that drew
    /// nothing is left to Direct2D.
    pub fn handled(&self, ok: bool) -> (r: bool)
        ensures
            r == (ok || self.drew),
    {
        ok || self.drew
    }

    /// Whether the layout is Direct2D's, after looking for colour.
    pub fn has_colour(&self) -> (r: bool)
        ensures
            r == (self.scan == Some(true)),
    {
        match self.scan {
            Some(found) => found,
            None => false,
        }
    }
}

/// How a text is laid out for a measuring mode: as DirectWrite does, or to
/// fit GDI (with natural widths or not).
#[derive(Clone, Copy, Debug, PartialEq, Eq, Structural)]
pub enum LayoutKind {
    Natural,
    Gdi { natural: bool },
}

/// `DWRITE_MEASURING_MODE`.
pub const MEASURING_NATURAL: i32 = 0;

pub const MEASURING_GDI_NATURAL: i32 = 2;

pub fn layout_kind(measuring: i32) -> (r: LayoutKind)
    ensures
        r == (if measuring == MEASURING_NATURAL {
            LayoutKind::Natural
        } else {
            LayoutKind::Gdi { natural: measuring == MEASURING_GDI_NATURAL }
        }),
{
    if measuring == MEASURING_NATURAL {
        LayoutKind::Natural
    } else {
        LayoutKind::Gdi { natural: measuring == MEASURING_GDI_NATURAL }
    }
}

/// The size of a mask for `rect`; `None` where there is no such rectangle.
pub fn mask_size(rect: Rect) -> (r: Option<(u32, u32)>)
    ensures
        r == (if rect.2 >= rect.0 && rect.3 >= rect.1 {
            Some(((rect.2 - rect.0) as u32, (rect.3 - rect.1) as u32))
        } else {
            None
        }),
{
    if rect.2 >= rect.0 && rect.3 >= rect.1 {
        Some(((rect.2 as i64 - rect.0 as i64) as u32, (rect.3 as i64 - rect.1 as i64) as u32))
    } else {
        None
    }
}

/// Whether ink is light, by its colour's luminance. Channels are in units of
/// `1 / ONE`, with 1 the brightest.
pub fn is_light(red: i64, green: i64, blue: i64) -> (r: bool)
    ensures
        r <==> 299 * red + 587 * green + 114 * blue > 500 * ONE,
{
    299 * red as i128 + 587 * green as i128 + 114 * blue as i128 > 500 * ONE as i128
}

/// Dots per inch that differ by less than this are the same: the distance
/// from 1 to the next single-precision number.
pub const SAME_DPI: i64 = 512;

/// How many pixels a DIP is on a target: one where it measures in pixels;
/// `None` where it has not one resolution both ways. In units of `1 / ONE`.
pub fn pixels_per_dip(pixels: bool, dpi_x: i64, dpi_y: i64) -> (r: Option<i64>)
    ensures
        r == (if pixels {
            Some(ONE)
        } else if dpi_x - dpi_y > SAME_DPI || dpi_y - dpi_x > SAME_DPI {
            None
        } else {
            Some(numbers::nearest(dpi_x as int, 96) as i64)
        }),
{
    if pixels {
        return Some(ONE);
    }
    let apart: i128 = dpi_x as i128 - dpi_y as i128;
    if apart > SAME_DPI as i128 || -apart > SAME_DPI as i128 {
        return None;
    }
    proof {
        numbers::nearest_is_no_further(dpi_x as int, 96);
    }
    Some(numbers::to_nearest(dpi_x as i128, 96) as i64)
}

/// Byte `i` of the mask that shows a run inside `rect`.
pub open spec fn mask_byte(run: RenderedRun, tables: Tables, light: bool, rect: Rect, i: int) -> u8 {
    tables@.opacity(
        coverage::covering(run.glyphs@, run.glyphs@.len() as int, rect, coverage::extent(rect.0, rect.2), 1, false, i),
        light,
    )
}

/// The opacity mask of a run, for light or for dark ink, and where it goes;
/// `None` for a run without ink.
pub fn mask(run: &RenderedRun, tables: &Tables, light: bool) -> (r: Option<(Rect, Vec<u8>)>)
    requires
        run.ok(),
        run.bounds matches Some(b) ==> coverage::extent(b.0, b.2) * coverage::extent(b.1, b.3) <= usize::MAX,
    ensures
        match (r, run.bounds) {
            (Some((rect, m)), Some(b)) => {
                &&& rect == b
                &&& m@.len() == coverage::extent(b.0, b.2) * coverage::extent(b.1, b.3)
                &&& forall|i: int| 0 <= i < m@.len() ==> #[trigger] m@[i] == mask_byte(*run, *tables, light, b, i)
            },
            (None, None) => true,
            _ => false,
        },
{
    let rect: Rect = match run.bounds {
        Some(rect) => rect,
        None => {
            return None;
        },
    };
    let cov: Vec<u8> = run.coverage(rect, 1, false);
    let mut m: Vec<u8> = Vec::with_capacity(cov.len());
    let mut i: usize = 0;
    while i < cov.len()
        invariant
            i <= cov@.len(),
            m@.len() == i,
            forall|j: int|
                0 <= j < cov@.len() ==> #[trigger] cov@[j] == coverage::covering(
                    run.glyphs@,
                    run.glyphs@.len() as int,
                    rect,
                    coverage::extent(rect.0, rect.2),
                    1,
                    false,
                    j,
                ),
            forall|j: int| 0 <= j < i ==> #[trigger] m@[j] == mask_byte(*run, *tables, light, rect, j),
        decreases cov@.len() - i,
    {
        let c: u8 = cov[i];
        assert(c == cov@[i as int]);
        m.push(tables.mask_alpha(c, light));
        i = i + 1;
    }
    Some((rect, m))
}

// ---- laws ----

/// The interfaces are patched at these places of their vtables.
pub proof fn the_slots_of_the_interfaces(i: int)
    requires
        0 <= i < 7,
    ensures
        SLOT_CREATE_WIC_RT == 13 && SLOT_CREATE_HWND_RT == 14 && SLOT_CREATE_DC_RT == 16,
        SLOTS_FACTORY_CREATE_DEVICE@[i] == (if i == 0 {
            17
        } else {
            26 + i
        }),
        SLOTS_DEVICE_CREATE_CONTEXT@ == seq![4usize, 11, 12, 15, 16, 19, 20],
        SLOT_CREATE_COMPATIBLE_RT == 12 && SLOT_DRAW_TEXT == 27 && SLOT_DRAW_TEXT_LAYOUT == 28,
        SLOT_DRAW_GLYPH_RUN == 29 && SLOT_SET_TEXT_AA_MODE == 34,
        SLOT_SET_TEXT_RENDERING_PARAMS == 36 && SLOT_DRAW_GLYPH_RUN1 == 82,
{
}

/// A slot is patched exactly if its interface is supported; those of one list
/// stay in their order.
pub proof fn slots_follow_what_is_supported(slots: Seq<usize>, supported: Seq<bool>, slot: usize, ok: bool)
    requires
        slots.len() == supported.len(),
    ensures
        supported_slots(seq![], seq![], 0) == Seq::<usize>::empty(),
        ({
            let n = slots.len() as int;
            let before = supported_slots(slots, supported, n);
            supported_slots(slots.push(slot), supported.push(ok), n + 1) == (if ok {
                before.push(slot)
            } else {
                before
            })
        }),
{
    same_slots(slots.push(slot), supported.push(ok), slots, supported, slots.len() as int);
}

proof fn same_slots(a: Seq<usize>, b: Seq<bool>, c: Seq<usize>, d: Seq<bool>, n: int)
    requires
        forall|i: int| 0 <= i < n ==> a[i] == c[i] && b[i] == d[i],
    ensures
        supported_slots(a, b, n) == supported_slots(c, d, n),
    decreases n,
{
    if n > 0 {
        same_slots(a, b, c, d, n - 1);
    }
}

/// Of several slots, the first that is patched gives the way back.
pub proof fn the_first_patched_slot_gives_the_way_back(list: Seq<Patch>, vtable: usize, slots: Seq<usize>, j: int)
    requires
        0 <= j <= slots.len(),
        forall|i: int| 0 <= i < j ==> original_of(list, vtable, #[trigger] slots[i]) is None,
        j < slots.len() ==> original_of(list, vtable, slots[j]) is Some,
    ensures
        original_of(seq![], vtable, 0) is None,
        any_original_of(list, vtable, slots) == (if j < slots.len() {
            original_of(list, vtable, slots[j])
        } else {
            None
        }),
    decreases slots.len(),
{
    if j > 0 {
        assert(original_of(list, vtable, slots[0]) is None);
        assert forall|i: int| 0 <= i < j - 1 implies original_of(list, vtable, #[trigger] slots.skip(1)[i]) is None by {
            assert(original_of(list, vtable, slots[i + 1]) is None);
        }
        the_first_patched_slot_gives_the_way_back(list, vtable, slots.skip(1), j - 1);
    }
}

/// The mask of a run of one grey glyph is the glyph's bitmap, each byte turned
/// into what light ink leaves on black, or dark ink takes from white.
pub proof fn the_mask_of_a_glyph_is_its_bitmap(run: RenderedRun, tables: Tables, light: bool, pg: PlacedGlyph, rect: Rect, i: int)
    requires
        run.glyphs@ == seq![pg],
        pg.g.ok(),
        pg.g.inked(),
        pg.g.pixel_mode == 2,
        pg.g.pitch == pg.g.width,
        rect.0 == pg.at.x + pg.g.left,
        rect.1 == pg.at.y - pg.g.top,
        rect.2 == rect.0 + pg.g.width,
        0 <= i < pg.g.width * pg.g.rows,
    ensures
        ({
            let cov = pg.g.buffer@[i];
            mask_byte(run, tables, light, rect, i) == (if light {
                tables@.blended(0, 255, cov) as int
            } else {
                255 - tables@.blended(255, 0, cov)
            })
        }),
{
    assert(pg.g.width > 0) by (nonlinear_arith)
        requires
            0 <= i < pg.g.width * pg.g.rows,
            0 <= pg.g.width,
            0 <= pg.g.rows,
    ;
    coverage::a_grey_glyph_over_its_bounds_is_its_bitmap(pg, rect, false, i);
}

} // verus!
