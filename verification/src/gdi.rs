//! GDI text (`ExtTextOutW`): where a run goes, what has to be read back and
//! filled around it, and where the current position ends up.

use std::sync::Arc;

use vstd::prelude::*;

use crate::canvas;
use crate::canvas::{Canvas, Picture, Rect};
use crate::config::Aa;
use crate::filter::{Curves, Tables};
use crate::ft::Glyph;
use crate::layout;
use crate::layout::{Layout, Steps};
use crate::numbers;
use crate::render;
use crate::render::Ink;
use crate::text;
use crate::utf16;
use crate::xform;
use crate::xform::Mapping;

verus! {

pub const ETO_OPAQUE: u32 = 0x0002;

pub const ETO_CLIPPED: u32 = 0x0004;

pub const ETO_GLYPH_INDEX: u32 = 0x0010;

pub const ETO_PDY: u32 = 0x2000;

/// `SetTextAlign` flags. The horizontal ones are one field (left 0, right 2,
/// centre 6) and the vertical ones another (top 0, bottom 8, baseline 24);
/// centre and baseline each set two bits, so a field is masked and compared.
pub const TA_LEFT: u32 = 0;

pub const TA_RIGHT: u32 = 2;

pub const TA_CENTER: u32 = 6;

pub const TA_TOP: u32 = 0;

pub const TA_BOTTOM: u32 = 8;

pub const TA_BASELINE: u32 = 24;

pub const TA_UPDATECP: u32 = 1;

pub const TA_HORZ_MASK: u32 = 6;

pub const TA_VERT_MASK: u32 = 24;

/// The largest edge of an offscreen bitmap; anything bigger is no text run.
pub const MAX_EDGE: i32 = 8192;

/// The `'ttcf'` table tag: present only for TrueType collections.
pub const TTCF: u32 = 0x6663_7474;

// ---- small parts ----

/// Byte `i` of a number, the lowest first.
pub open spec fn byte_of(n: u32, i: int) -> u8 {
    (if i == 0 {
        n % 0x100
    } else if i == 1 {
        (n / 0x100) % 0x100
    } else {
        (n / 0x1_0000) % 0x100
    }) as u8
}

/// A `COLORREF` (`0x00BBGGRR`) as `[r, g, b]`.
pub fn rgb(colorref: u32) -> (r: [u8; 3])
    ensures
        forall|i: int| 0 <= i < 3 ==> #[trigger] r@[i] == byte_of(colorref, i),
{
    [(colorref % 0x100) as u8, ((colorref / 0x100) % 0x100) as u8, ((colorref / 0x1_0000) % 0x100) as u8]
}

/// The metrics of a device context's font (`TEXTMETRICW`).
#[derive(Clone, Copy, Debug, PartialEq, Eq, Structural)]
pub struct Metrics {
    pub height: i32,
    pub ascent: i32,
    pub descent: i32,
    pub internal_leading: i32,
}

/// The em size: the height without the internal leading, or 16 where that is
/// nothing.
pub open spec fn em(tm: Metrics) -> int {
    if tm.height - tm.internal_leading > 0 {
        tm.height - tm.internal_leading
    } else {
        16
    }
}

/// The em size in pixels. This is right for both signs of `lfHeight`, which
/// is the em size when negative but the cell height when positive.
pub fn em_px(tm: &Metrics) -> (r: i32)
    requires
        tm.height - tm.internal_leading <= i32::MAX,
    ensures
        r == em(*tm),
{
    let e: i64 = tm.height as i64 - tm.internal_leading as i64;
    if e > 0 {
        e as i32
    } else {
        16
    }
}

/// Half of `n`, rounded towards zero.
pub open spec fn half(n: int) -> int {
    if n >= 0 {
        n / 2
    } else {
        -((-n) / 2)
    }
}

/// Where a run of `width` starts, for the horizontal alignment at `x`.
pub open spec fn start_of(align: u32, x: int, width: int) -> int {
    if align & TA_HORZ_MASK == TA_RIGHT {
        x - width
    } else if align & TA_HORZ_MASK == TA_CENTER {
        x - half(width)
    } else {
        x
    }
}

/// Where the baseline is, for the vertical alignment at `y`.
pub open spec fn baseline_of(align: u32, y: int, ascent: int, descent: int) -> int {
    if align & TA_VERT_MASK == TA_BASELINE {
        y
    } else if align & TA_VERT_MASK == TA_BOTTOM {
        y - descent
    } else {
        y + ascent
    }
}

/// Where a run of `width` starts, for the horizontal alignment at `x`.
pub fn place(align: u32, x: i64, width: i64) -> (r: i64)
    requires
        -0x4000_0000_0000_0000 <= x <= 0x4000_0000_0000_0000,
        -0x3fff_ffff_ffff_ffff <= width <= 0x3fff_ffff_ffff_ffff,
    ensures
        r == start_of(align, x as int, width as int),
{
    let field: u32 = align & TA_HORZ_MASK;
    if field == TA_RIGHT {
        x - width
    } else if field == TA_CENTER {
        let h: i64 = if width >= 0 {
            width / 2
        } else {
            -((-width) / 2)
        };
        x - h
    } else {
        x
    }
}

/// Where the baseline is, for the vertical alignment at `y`.
pub fn baseline(align: u32, y: i64, ascent: i64, descent: i64) -> (r: i64)
    requires
        -0x4000_0000_0000_0000 <= y <= 0x4000_0000_0000_0000,
        -0x3fff_ffff_ffff_ffff <= ascent <= 0x3fff_ffff_ffff_ffff,
        -0x3fff_ffff_ffff_ffff <= descent <= 0x3fff_ffff_ffff_ffff,
    ensures
        r == baseline_of(align, y as int, ascent as int, descent as int),
{
    let field: u32 = align & TA_VERT_MASK;
    if field == TA_BASELINE {
        y
    } else if field == TA_BOTTOM {
        y - descent
    } else {
        y + ascent
    }
}

/// Where a run is anchored: with `TA_UPDATECP` at the device context's current
/// position (if that could be had), and at the arguments otherwise.
pub fn anchor(align: u32, current: Option<(i32, i32)>, x: i32, y: i32) -> (r: (i32, i32))
    ensures
        r == (if align & TA_UPDATECP != 0 && current is Some {
            current->0
        } else {
            (x, y)
        }),
{
    if align & TA_UPDATECP != 0 {
        match current {
            Some(p) => p,
            None => (x, y),
        }
    } else {
        (x, y)
    }
}

/// `n` within 1 and the largest edge.
pub open spec fn edge(n: int) -> int {
    if n < 1 {
        1
    } else if n > MAX_EDGE {
        MAX_EDGE as int
    } else {
        n
    }
}

/// The edge of an offscreen bitmap for `n` pixels.
pub fn clamp_edge(n: i32) -> (r: i32)
    ensures
        r == edge(n as int),
{
    if n < 1 {
        1
    } else if n > MAX_EDGE {
        MAX_EDGE
    } else {
        n
    }
}

// ---- the font ----

/// Where a font's bytes come from: the collection table if there is one, the
/// plain font otherwise. Sizes of 0 and `u32::MAX` mean that there is nothing.
pub open spec fn has_data(size: u32) -> bool {
    size != 0 && size != u32::MAX
}

/// The table to read and its size, from the size of the collection table and
/// of the whole font.
pub fn font_source(collection: u32, whole: u32) -> (r: Option<(u32, u32)>)
    ensures
        r == (if has_data(collection) {
            Some((TTCF, collection))
        } else if has_data(whole) {
            Some((0u32, whole))
        } else {
            None
        }),
{
    if collection != 0 && collection != u32::MAX {
        Some((TTCF, collection))
    } else if whole != 0 && whole != u32::MAX {
        Some((0, whole))
    } else {
        None
    }
}

/// The face name in a `LOGFONTW` field.
pub fn face_name(name: &[u16]) -> (r: String)
    ensures
        r@ == utf16::decoded(utf16::ended(name@), seq!['\u{fffd}']),
{
    utf16::ended_to_string(name)
}

/// What a GDI font is remembered by.
pub open spec fn font_key_text(face: Seq<char>, size: int) -> Seq<char> {
    "gdi:"@ + face + ":"@ + text::numeral(size)
}

/// What a GDI font is remembered by: its face name and the size of its data.
pub fn font_key(face: &str, size: u32) -> (r: String)
    ensures
        r@ == font_key_text(face@, size as int),
{
    let mut s: String = "gdi:".to_owned();
    s.append(face);
    s.append(":");
    text::push_number(&mut s, size as u64);
    s
}

// ---- a draw ----

/// One `ExtTextOutW` call, and what the device context says about it.
pub struct Draw<'a> {
    pub options: u32,
    /// The rectangle's corners, in device pixels.
    pub rect: Option<Rect>,
    /// Code units or glyph indices.
    pub count: usize,
    /// `lpDx` in logical units; `(dx, dy)` pairs with `ETO_PDY`.
    pub dx: Option<&'a [i32]>,
    pub align: u32,
    /// The background mode is `OPAQUE`.
    pub opaque: bool,
    /// `GetTextCharacterExtra`, logical.
    pub extra: i32,
    /// The anchor, logical, and the same point in device pixels.
    pub origin: (i32, i32),
    pub origin_px: (i32, i32),
    pub tm: Metrics,
    /// The extent that GDI measures for the run, logical.
    pub extent: (i32, i32),
}

/// What to do for a draw. Rectangles and the pen are relative to `at`.
pub struct Plan {
    /// `lpDx` in device units, where it had to be converted.
    pub dx: Option<Vec<i32>>,
    /// The character spacing, in device units.
    pub extra: i32,
    pub pdy: bool,
    /// The part of the device that is read back, drawn on and written.
    pub at: (i32, i32),
    pub size: (i32, i32),
    /// Filled with the background colour, before the text box.
    pub fill: Option<Rect>,
    /// Drawing is restricted to this.
    pub clip: Option<Rect>,
    /// Filled with the background colour.
    pub text_box: Option<Rect>,
    pub pen: (i32, i32),
    /// Em size in pixels.
    pub px: i32,
    /// The device context's current position afterwards, logical.
    pub next: Option<(i32, i32)>,
}

pub open spec fn has(options: u32, flag: u32) -> bool {
    options & flag != 0
}

/// `dx` in device units.
pub open spec fn device_seq(m: Mapping, dx: Seq<i32>, pdy: bool) -> Seq<i32> {
    Seq::new(dx.len(), |i: int| m.device_step(dx, pdy, i) as i32)
}

pub open spec fn is_unscaled(m: Mapping) -> bool {
    m.sx == xform::PROBE && m.sy == xform::PROBE
}

/// The geometry of a draw, in device pixels.
pub struct Geometry {
    pub width: int,
    pub left: int,
    pub baseline: int,
    pub ascent: int,
    pub height: int,
    pub rx: int,
    pub ry: int,
    pub right: int,
    pub bottom: int,
}

impl<'a> Draw<'a> {
    pub open spec fn pdy(self) -> bool {
        has(self.options, ETO_PDY)
    }

    /// The run's layout in device units.
    pub open spec fn steps(self, m: Mapping) -> Steps {
        Steps {
            dx: match self.dx {
                Some(d) => Some(
                    if is_unscaled(m) {
                        d@
                    } else {
                        device_seq(m, d@, self.pdy())
                    },
                ),
                None => None,
            },
            extra: xform::scaled(self.extra as int, m.sx as int),
            pdy: self.pdy(),
        }
    }

    /// The run's width: an explicit `lpDx` replaces the font's advances, and
    /// the spacing comes on top; GDI's own measurement has it in already.
    pub open spec fn width(self, m: Mapping) -> int {
        if self.dx is Some {
            self.steps(m).width(self.count as int)
        } else {
            xform::scaled(self.extent.0 as int, m.sx as int)
        }
    }

    /// How far up and down the run travels.
    pub open spec fn travel(self, m: Mapping) -> (int, int) {
        self.steps(m).travel(self.count as int)
    }

    pub open spec fn geometry(self, m: Mapping) -> Geometry {
        let width = self.width(m);
        let ascent = xform::scaled(self.tm.ascent as int, m.sy as int);
        let descent = xform::scaled(self.tm.descent as int, m.sy as int);
        let height = xform::scaled(self.tm.height as int, m.sy as int);
        let left = start_of(self.align, self.origin_px.0 as int, width);
        let baseline = baseline_of(self.align, self.origin_px.1 as int, ascent, descent);
        let (up, down) = self.travel(m);
        let top = baseline - ascent + up;
        let right = left + width + 6;
        let bottom = baseline - ascent + height + 4 + down;
        match self.rect {
            Some(r) => Geometry {
                width,
                left,
                baseline,
                ascent,
                height,
                rx: numbers::least(left, r.0 as int),
                ry: numbers::least(top, r.1 as int),
                right: numbers::most(right, r.2 as int),
                bottom: numbers::most(bottom, r.3 as int),
            },
            None => Geometry { width, left, baseline, ascent, height, rx: left, ry: top, right, bottom },
        }
    }

    /// The rectangle relative to the part that is drawn on.
    pub open spec fn rect_box(self, m: Mapping) -> (int, int, int, int) {
        let g = self.geometry(m);
        let r = self.rect->0;
        (r.0 - g.rx, r.1 - g.ry, r.2 - g.rx, r.3 - g.ry)
    }

    /// The text's box relative to the part that is drawn on.
    pub open spec fn text_box(self, m: Mapping) -> (int, int, int, int) {
        let g = self.geometry(m);
        let (x, y) = (g.left - g.rx, g.baseline - g.ry - g.ascent);
        (x, y, x + g.width, y + g.height)
    }

    /// The current position afterwards, by GDI's own measurement.
    pub open spec fn next_x(self) -> int {
        if self.align & TA_HORZ_MASK == TA_RIGHT {
            self.origin.0 - self.extent.0
        } else if self.align & TA_HORZ_MASK == TA_CENTER {
            self.origin.0 as int
        } else {
            self.origin.0 + self.extent.0
        }
    }

    /// Every number of the draw is a 32-bit one.
    pub open spec fn fits(self, m: Mapping) -> bool {
        let g = self.geometry(m);
        &&& self.dx is Some && !is_unscaled(m) ==> m.steps_fit(self.dx->0@, self.pdy())
        &&& self.tm.height - self.tm.internal_leading <= i32::MAX
        &&& layout::fits_i32(g.width)
        &&& layout::fits_i32(g.rx)
        &&& layout::fits_i32(g.ry)
        &&& layout::fits_i32(g.right - g.rx)
        &&& layout::fits_i32(g.bottom - g.ry)
        &&& layout::fits_i32(g.left - g.rx)
        &&& layout::fits_i32(g.baseline - g.ry)
        &&& self.rect is Some ==> box_fits(self.rect_box(m))
        &&& self.opaque ==> box_fits(self.text_box(m))
        &&& has(self.align, TA_UPDATECP) ==> layout::fits_i32(self.next_x())
    }
}

pub open spec fn box_fits(b: (int, int, int, int)) -> bool {
    layout::fits_i32(b.0) && layout::fits_i32(b.1) && layout::fits_i32(b.2) && layout::fits_i32(b.3)
}

pub open spec fn same_box(r: Option<Rect>, b: (int, int, int, int)) -> bool {
    match r {
        Some((x0, y0, x1, y1)) => (x0 as int, y0 as int, x1 as int, y1 as int) == b,
        None => false,
    }
}

fn in_i32(n: i64) -> (r: bool)
    ensures
        r == layout::fits_i32(n as int),
{
    i32::MIN as i64 <= n && n <= i32::MAX as i64
}

fn to_rect(a: i64, b: i64, c: i64, d: i64) -> (r: Option<Rect>)
    ensures
        box_fits((a as int, b as int, c as int, d as int)) ==> same_box(r, (a as int, b as int, c as int, d as int)),
        !box_fits((a as int, b as int, c as int, d as int)) ==> r is None,
{
    if in_i32(a) && in_i32(b) && in_i32(c) && in_i32(d) {
        Some((a as i32, b as i32, c as i32, d as i32))
    } else {
        None
    }
}

proof fn scaled_fits(v: int, by: int)
    ensures
        layout::fits_i32(xform::scaled(v, by)),
{
}

/// The run's width and vertical travel, if they are 32-bit numbers, with the
/// `lpDx` that had to be converted.
fn measured(d: &Draw<'_>, m: &Mapping, extra: i32) -> (r: Option<(Option<Vec<i32>>, i32, i128, i128)>)
    requires
        m.ok(),
        extra == d.steps(*m).extra,
    ensures
        match r {
            Some((dx, width, up, down)) => {
                &&& d.dx is Some && !is_unscaled(*m) ==> m.steps_fit(d.dx->0@, d.pdy())
                &&& layout::fits_i32(d.width(*m))
                &&& width == d.width(*m)
                &&& (up as int, down as int) == d.travel(*m)
                &&& dx is Some <==> d.dx is Some && !is_unscaled(*m)
                &&& dx is Some ==> dx->0@ == device_seq(*m, d.dx->0@, d.pdy())
            },
            None => (d.dx is Some && !is_unscaled(*m) && !m.steps_fit(d.dx->0@, d.pdy())) || !layout::fits_i32(
                d.width(*m),
            ),
        },
{
    let pdy: bool = d.options & ETO_PDY != 0;
    match d.dx {
        Some(given) => {
            if m.is_identity() {
                let l: Layout = Layout { dx: Some(given), extra, pdy };
                let (up, down): (i128, i128) = match l.dy_travel_wide(d.count) {
                    Some(t) => t,
                    None => (0, 0),
                };
                match l.dx_width_wide(d.count) {
                    Some(w) => if i32::MIN as i128 <= w && w <= i32::MAX as i128 {
                        Some((None, w as i32, up, down))
                    } else {
                        None
                    },
                    None => None,
                }
            } else {
                let steps: Vec<i32> = match m.device_dx(given, pdy) {
                    Some(v) => v,
                    None => {
                        return None;
                    },
                };
                proof {
                    assert(steps@ =~= device_seq(*m, given@, pdy)) by {
                        assert forall|i: int| 0 <= i < steps@.len() implies steps@[i] == device_seq(*m, given@, pdy)[i] by {
                            assert(m.step_fits(given@, pdy, i));
                        }
                    }
                }
                let l: Layout = Layout { dx: Some(steps.as_slice()), extra, pdy };
                let (up, down): (i128, i128) = match l.dy_travel_wide(d.count) {
                    Some(t) => t,
                    None => (0, 0),
                };
                match l.dx_width_wide(d.count) {
                    Some(w) => if i32::MIN as i128 <= w && w <= i32::MAX as i128 {
                        Some((Some(steps), w as i32, up, down))
                    } else {
                        None
                    },
                    None => None,
                }
            }
        },
        None => {
            proof {
                scaled_fits(d.extent.0 as int, m.sx as int);
            }
            Some((None, m.len_x(d.extent.0), 0, 0))
        },
    }
}

/// The plan of a draw, by its geometry.
#[verifier::spinoff_prover]
#[verifier::rlimit(60)]
fn planned(d: &Draw<'_>, m: &Mapping) -> (r: Option<Plan>)
    requires
        m.ok(),
    ensures
        r is Some <==> d.extent.0 > 0 && d.fits(*m),
        r is Some ==> {
            let p = r->0;
            let g = d.geometry(*m);
            &&& p.dx is Some <==> d.dx is Some && !is_unscaled(*m)
            &&& p.dx is Some ==> p.dx->0@ == device_seq(*m, d.dx->0@, d.pdy())
            &&& p.steps(d.dx) == d.steps(*m)
            &&& p.at.0 == g.rx && p.at.1 == g.ry
            &&& p.size.0 == edge(g.right - g.rx) && p.size.1 == edge(g.bottom - g.ry)
            &&& p.fill is Some <==> d.rect is Some && has(d.options, ETO_OPAQUE)
            &&& p.fill is Some ==> same_box(p.fill, d.rect_box(*m))
            &&& p.clip is Some <==> d.rect is Some && has(d.options, ETO_CLIPPED)
            &&& p.clip is Some ==> same_box(p.clip, d.rect_box(*m))
            &&& p.text_box is Some <==> d.opaque
            &&& p.text_box is Some ==> same_box(p.text_box, d.text_box(*m))
            &&& p.pen.0 == g.left - g.rx && p.pen.1 == g.baseline - g.ry
            &&& p.px == xform::scaled(em(d.tm), m.sy as int)
            &&& p.next is Some <==> has(d.align, TA_UPDATECP)
            &&& p.next matches Some(n) ==> n.0 == d.next_x() && n.1 == d.origin.1
        },
{
    if d.extent.0 <= 0 || d.tm.height as i64 - d.tm.internal_leading as i64 > i32::MAX as i64 {
        return None;
    }
    let extra: i32 = m.len_x(d.extra);
    let (dx, width, up, down): (Option<Vec<i32>>, i32, i128, i128) = match measured(d, m, extra) {
        Some(v) => v,
        None => {
            return None;
        },
    };
    // A travel this long cannot be drawn on; past it nothing can fit.
    if up < -0x10_0000_0000 || down > 0x10_0000_0000 {
        proof {
            travel_signs(*d, *m);
            let g = d.geometry(*m);
            scaled_fits(d.tm.ascent as int, m.sy as int);
            scaled_fits(d.tm.descent as int, m.sy as int);
            scaled_fits(d.tm.height as int, m.sy as int);
            assert(!layout::fits_i32(g.bottom - g.ry));
        }
        return None;
    }
    proof {
        travel_signs(*d, *m);
    }
    let ascent: i64 = m.len_y(d.tm.ascent) as i64;
    let descent: i64 = m.len_y(d.tm.descent) as i64;
    let height: i64 = m.len_y(d.tm.height) as i64;
    let left: i64 = place(d.align, d.origin_px.0 as i64, width as i64);
    let base: i64 = baseline(d.align, d.origin_px.1 as i64, ascent, descent);
    let mut rx: i64 = left;
    let mut ry: i64 = base - ascent + up as i64;
    let mut right: i64 = left + width as i64 + 6;
    let mut bottom: i64 = base - ascent + height + 4 + down as i64;
    let mut rect_box: Option<Rect> = None;
    match d.rect {
        Some((l, t, r, b)) => {
            if (l as i64) < rx {
                rx = l as i64;
            }
            if (t as i64) < ry {
                ry = t as i64;
            }
            if (r as i64) > right {
                right = r as i64;
            }
            if (b as i64) > bottom {
                bottom = b as i64;
            }
            rect_box = to_rect(l as i64 - rx, t as i64 - ry, r as i64 - rx, b as i64 - ry);
            if rect_box.is_none() {
                return None;
            }
        },
        None => {},
    }
    let text_box: Option<Rect> = if d.opaque {
        let bx: i64 = left - rx;
        let by: i64 = base - ry - ascent;
        let b: Option<Rect> = to_rect(bx, by, bx + width as i64, by + height);
        if b.is_none() {
            return None;
        }
        b
    } else {
        None
    };
    if !(in_i32(rx) && in_i32(ry) && in_i32(right - rx) && in_i32(bottom - ry) && in_i32(left - rx) && in_i32(
        base - ry,
    )) {
        return None;
    }
    let next: Option<(i32, i32)> = if d.align & TA_UPDATECP != 0 {
        let field: u32 = d.align & TA_HORZ_MASK;
        let nx: i64 = if field == TA_RIGHT {
            d.origin.0 as i64 - d.extent.0 as i64
        } else if field == TA_CENTER {
            d.origin.0 as i64
        } else {
            d.origin.0 as i64 + d.extent.0 as i64
        };
        if !in_i32(nx) {
            return None;
        }
        Some((nx as i32, d.origin.1))
    } else {
        None
    };
    let fill: Option<Rect> = if d.options & ETO_OPAQUE != 0 {
        rect_box
    } else {
        None
    };
    let clip: Option<Rect> = if d.options & ETO_CLIPPED != 0 {
        rect_box
    } else {
        None
    };
    Some(
        Plan {
            dx,
            extra,
            pdy: d.options & ETO_PDY != 0,
            at: (rx as i32, ry as i32),
            size: (clamp_edge((right - rx) as i32), clamp_edge((bottom - ry) as i32)),
            fill,
            clip,
            text_box,
            pen: ((left - rx) as i32, (base - ry) as i32),
            px: m.len_y(em_px(&d.tm)),
            next,
        },
    )
}

/// Plan a draw; `None` leaves it to GDI: a run without extent, or one with a
/// coordinate past 32 bits.
pub fn plan(d: &Draw<'_>, m: &Mapping) -> (r: Option<Plan>)
    requires
        m.ok(),
    ensures
        r is Some <==> d.extent.0 > 0 && d.fits(*m),
        r is Some ==> {
            let p = r->0;
            let g = d.geometry(*m);
            &&& p.dx is Some <==> d.dx is Some && !is_unscaled(*m)
            &&& p.dx is Some ==> p.dx->0@ == device_seq(*m, d.dx->0@, d.pdy())
            &&& p.steps(d.dx) == d.steps(*m)
            &&& p.at.0 == g.rx && p.at.1 == g.ry
            &&& p.size.0 == edge(g.right - g.rx) && p.size.1 == edge(g.bottom - g.ry)
            &&& p.fill is Some <==> d.rect is Some && has(d.options, ETO_OPAQUE)
            &&& p.fill is Some ==> same_box(p.fill, d.rect_box(*m))
            &&& p.clip is Some <==> d.rect is Some && has(d.options, ETO_CLIPPED)
            &&& p.clip is Some ==> same_box(p.clip, d.rect_box(*m))
            &&& p.text_box is Some <==> d.opaque
            &&& p.text_box is Some ==> same_box(p.text_box, d.text_box(*m))
            &&& p.pen.0 == g.left - g.rx && p.pen.1 == g.baseline - g.ry
            &&& p.px == xform::scaled(em(d.tm), m.sy as int)
            &&& p.next is Some <==> has(d.align, TA_UPDATECP)
            &&& p.next matches Some(n) ==> n.0 == d.next_x() && n.1 == d.origin.1
        },
        r matches Some(p) ==> {
            let g = d.geometry(*m);
            &&& d.align & 6 == 2 ==> p.at.0 + p.pen.0 + g.width == d.origin_px.0
            &&& d.align & 6 == 6 && g.width >= 0 ==> p.at.0 + p.pen.0 + g.width / 2 == d.origin_px.0
            &&& d.align & 6 != 2 && d.align & 6 != 6 ==> p.at.0 + p.pen.0 == d.origin_px.0
            &&& d.align & 24 == 24 ==> p.at.1 + p.pen.1 == d.origin_px.1
            &&& d.align & 24 == 8 ==> p.at.1 + p.pen.1 + xform::scaled(d.tm.descent as int, m.sy as int)
                == d.origin_px.1
            &&& d.align & 24 != 24 && d.align & 24 != 8 ==> p.at.1 + p.pen.1 - xform::scaled(
                d.tm.ascent as int,
                m.sy as int,
            ) == d.origin_px.1
            &&& d.rect matches Some(b) ==> {
                &&& p.at.0 <= b.0 && p.at.1 <= b.1
                &&& p.fill matches Some(f) ==> {
                    &&& f.0 + p.at.0 == b.0 && f.1 + p.at.1 == b.1
                    &&& f.2 + p.at.0 == b.2 && f.3 + p.at.1 == b.3
                }
                &&& p.clip matches Some(c) ==> {
                    &&& c.0 + p.at.0 == b.0 && c.1 + p.at.1 == b.1
                    &&& c.2 + p.at.0 == b.2 && c.3 + p.at.1 == b.3
                }
            }
            &&& p.text_box matches Some(t) ==> {
                &&& t.0 == p.pen.0 && t.2 == p.pen.0 + g.width
                &&& t.1 == p.pen.1 - xform::scaled(d.tm.ascent as int, m.sy as int)
                &&& t.3 == t.1 + xform::scaled(d.tm.height as int, m.sy as int)
            }
            &&& p.extra == xform::scaled(d.extra as int, m.sx as int)
            &&& p.pdy == (d.options & 0x2000 != 0)
            &&& d.tm.height > d.tm.internal_leading ==> p.px == xform::scaled(
                d.tm.height - d.tm.internal_leading,
                m.sy as int,
            )
            &&& d.tm.height <= d.tm.internal_leading ==> p.px == xform::scaled(16, m.sy as int)
            &&& p.next matches Some(n) ==> {
                &&& n.1 == d.origin.1
                &&& d.align & 6 == 2 ==> n.0 + d.extent.0 == d.origin.0
                &&& d.align & 6 == 6 ==> n.0 == d.origin.0
                &&& d.align & 6 != 2 && d.align & 6 != 6 ==> n.0 - d.extent.0 == d.origin.0
            }
        },
{
    planned(d, m)
}

impl Plan {
    /// The layout to draw with: the converted `lpDx`, or the draw's own.
    pub open spec fn steps(self, dx: Option<&[i32]>) -> Steps {
        Steps {
            dx: match self.dx {
                Some(v) => Some(v@),
                None => match dx {
                    Some(s) => Some(s@),
                    None => None,
                },
            },
            extra: self.extra as int,
            pdy: self.pdy,
        }
    }
}

/// The picture before the text: the device's pixels with the rectangle and
/// the text's box filled, and the clip set.
pub open spec fn prepared(p: Plan, bgra: Seq<u8>, bk: [u8; 3]) -> Picture {
    let (w, h) = (p.size.0 as int, p.size.1 as int);
    let seen = Picture { w, h, rgb: canvas::from_bgra(w, h, bgra), clip: None };
    let filled = match p.fill {
        Some(r) => canvas::filled_with(seen, r, bk),
        None => seen,
    };
    let clipped = Picture { clip: p.clip, ..filled };
    match p.text_box {
        Some(r) => canvas::filled_with(clipped, r, bk),
        None => clipped,
    }
}

/// Carry a plan out on the device's pixels: fill what is to be filled, and
/// draw the run. `dx` is the draw's own `lpDx`.
pub fn paint(
    p: &Plan,
    dx: Option<&[i32]>,
    bgra: &mut [u8],
    bk: [u8; 3],
    tables: &Tables,
    aa: Aa,
    ink: Ink,
    run: &[Option<Arc<Glyph>>],
)
    requires
        1 <= p.size.0 <= MAX_EDGE,
        1 <= p.size.1 <= MAX_EDGE,
        p.size.0 * p.size.1 * 4 <= old(bgra)@.len(),
        render::run_ok(run@),
    ensures
        final(bgra)@ == canvas::onto_bgra(
            render::drawn(
                prepared(*p, old(bgra)@, bk),
                tables@,
                ink.fg,
                aa,
                run@,
                (p.pen.0 as int, p.pen.1 as int),
                p.steps(dx),
                run@.len() as int,
            ).rgb,
            old(bgra)@,
        ),
{
    assert(p.size.0 * p.size.1 <= 8192 * 8192) by (nonlinear_arith)
        requires
            1 <= p.size.0 <= 8192,
            1 <= p.size.1 <= 8192,
    ;
    let ghost seen = bgra@;
    let mut canvas: Canvas = Canvas::from_bgra_topdown(p.size.0 as usize, p.size.1 as usize, bgra);
    match p.fill {
        Some(r) => {
            canvas.fill_rect(r, bk);
        },
        None => {},
    }
    canvas.set_clip(p.clip);
    match p.text_box {
        Some(r) => {
            canvas.fill_rect(r, bk);
        },
        None => {},
    }
    assert(canvas@ == prepared(*p, seen, bk));
    let used: Option<&[i32]> = match &p.dx {
        Some(v) => Some(v.as_slice()),
        None => dx,
    };
    let layout: Layout = Layout { dx: used, extra: p.extra, pdy: p.pdy };
    render::draw_glyphs_onto(&mut canvas, tables, aa, ink, run, p.pen, layout);
    proof {
        drawn_keeps_size(
            prepared(*p, seen, bk),
            tables@,
            ink.fg,
            aa,
            run@,
            (p.pen.0 as int, p.pen.1 as int),
            layout@,
            run@.len() as int,
        );
    }
    canvas.blit_to_bgra_topdown(bgra);
}

proof fn drawn_keeps_size(
    p: Picture,
    c: Curves,
    fg: [u8; 3],
    aa: Aa,
    run: Seq<Option<Arc<Glyph>>>,
    pen: (int, int),
    steps: Steps,
    n: int,
)
    ensures
        render::drawn(p, c, fg, aa, run, pen, steps, n).w == p.w,
        render::drawn(p, c, fg, aa, run, pen, steps, n).h == p.h,
    decreases n,
{
    if n > 0 {
        drawn_keeps_size(p, c, fg, aa, run, pen, steps, n - 1);
    }
}

proof fn travel_signs(d: Draw, m: Mapping)
    ensures
        d.travel(m).0 <= 0 <= d.travel(m).1,
{
    match d.steps(m).dx {
        Some(s) => {
            layout::travel_holds_every_place(s, layout::given_dy(s, d.count as int), 0);
        },
        None => {},
    }
}

// ---- laws ----

/// The part that is read back and drawn on holds the text's box (apart from
/// the clamp to the largest edge) and the rectangle.
pub proof fn the_part_holds_text_and_rectangle(d: Draw, m: Mapping)
    requires
        m.ok(),
        d.fits(m),
    ensures
        ({
            let g = d.geometry(m);
            &&& g.rx <= g.left && g.left + g.width <= g.right
            &&& g.ry <= g.baseline - g.ascent && g.baseline - g.ascent + g.height <= g.bottom
            &&& d.rect matches Some(r) ==> g.rx <= r.0 && g.ry <= r.1 && r.2 <= g.right && r.3 <= g.bottom
        }),
{
    travel_signs(d, m);
}

/// Horizontal alignment anchors the run: right alignment ends it at the
/// anchor, centring puts its middle there, anything else starts it there.
pub proof fn a_run_is_anchored_by_its_alignment(d: Draw, m: Mapping)
    ensures
        ({
            let g = d.geometry(m);
            &&& d.align & 6 == 2 ==> g.left + g.width == d.origin_px.0
            &&& d.align & 6 == 6 && g.width >= 0 ==> g.left + g.width / 2 == d.origin_px.0
            &&& d.align & 6 == 6 && g.width < 0 ==> g.left - (-g.width) / 2 == d.origin_px.0
            &&& d.align & 6 != 2 && d.align & 6 != 6 ==> g.left == d.origin_px.0
        }),
{
}

/// Vertical alignment puts the baseline at the anchor, or the scaled descent
/// above it, or else the scaled ascent below it.
pub proof fn a_baseline_is_anchored_by_its_alignment(d: Draw, m: Mapping)
    ensures
        ({
            let g = d.geometry(m);
            &&& d.align & 24 == 24 ==> g.baseline == d.origin_px.1
            &&& d.align & 24 == 8 ==> g.baseline + xform::scaled(d.tm.descent as int, m.sy as int) == d.origin_px.1
            &&& d.align & 24 != 24 && d.align & 24 != 8 ==> g.baseline - xform::scaled(d.tm.ascent as int, m.sy as int)
                == d.origin_px.1
        }),
{
}

/// The part that is drawn on starts where the run does, as high as its pen
/// comes, and ends six pixels to the right of it and four below the lowest
/// that its pen comes to; a rectangle widens it on each side that it goes
/// past.
pub proof fn the_part_is_the_run_with_its_margins(d: Draw, m: Mapping, up: int, down: int)
    requires
        (up, down) == d.travel(m),
    ensures
        ({
            let g = d.geometry(m);
            let ascent = xform::scaled(d.tm.ascent as int, m.sy as int);
            let height = xform::scaled(d.tm.height as int, m.sy as int);
            let alone = (Draw { rect: None, ..d }).geometry(m);
            &&& g.ascent == ascent && g.height == height
            &&& alone.rx == g.left && alone.right == g.left + g.width + 6
            &&& alone.ry == g.baseline - ascent + up
            &&& alone.bottom == g.baseline - ascent + height + down + 4
            &&& d.rect is None ==> (g.rx, g.ry, g.right, g.bottom) == (alone.rx, alone.ry, alone.right, alone.bottom)
            &&& d.rect matches Some(r) ==> {
                &&& g.rx == (if r.0 < alone.rx {
                    r.0 as int
                } else {
                    alone.rx
                })
                &&& g.ry == (if r.1 < alone.ry {
                    r.1 as int
                } else {
                    alone.ry
                })
                &&& g.right == (if r.2 > alone.right {
                    r.2 as int
                } else {
                    alone.right
                })
                &&& g.bottom == (if r.3 > alone.bottom {
                    r.3 as int
                } else {
                    alone.bottom
                })
            }
        }),
{
    let other = Draw { rect: None, ..d };
    assert(other.steps(m) == d.steps(m));
    assert(other.width(m) == d.width(m));
    assert(other.travel(m) == d.travel(m));
}

/// The run is as wide as GDI measures it, scaled; with advances of its own it
/// is as wide as they are, in device units and with the scaled spacing after
/// each. Only such advances can make it travel up or down.
pub proof fn a_run_is_as_wide_as_its_advances(d: Draw, m: Mapping, steps: Steps)
    requires
        steps.extra == xform::scaled(d.extra as int, m.sx as int),
        steps.pdy == (d.options & 0x2000 != 0),
        d.dx matches Some(own) ==> {
            &&& steps.dx is Some
            &&& m.sx == 1024 && m.sy == 1024 ==> steps.dx->0 == own@
            &&& !(m.sx == 1024 && m.sy == 1024) ==> {
                &&& m.steps_fit(own@, steps.pdy)
                &&& steps.dx->0.len() == own@.len()
                &&& forall|i: int|
                    0 <= i < own@.len() ==> #[trigger] steps.dx->0[i] == m.device_step(own@, steps.pdy, i)
            }
        },
        d.dx is None ==> steps.dx is None,
    ensures
        d.dx is None ==> d.geometry(m).width == xform::scaled(d.extent.0 as int, m.sx as int),
        d.dx is None ==> d.travel(m) == (0int, 0int),
        d.dx is Some ==> d.geometry(m).width == steps.width(d.count as int),
        d.dx is Some ==> d.travel(m) == steps.travel(d.count as int),
{
    match d.dx {
        Some(own) => {
            if !is_unscaled(m) {
                let device = device_seq(m, own@, d.pdy());
                assert forall|i: int| 0 <= i < own@.len() implies device[i] == steps.dx->0[i] by {
                    assert(m.step_fits(own@, steps.pdy, i));
                }
                assert(device =~= steps.dx->0);
            }
            assert(d.steps(m) == steps);
        },
        None => {},
    }
}

/// A draw is planned as long as its numbers are of a size that a device has.
pub proof fn an_ordinary_draw_fits(d: Draw, m: Mapping)
    requires
        m.ok(),
        d.dx is Some && !(m.sx == 1024 && m.sy == 1024) ==> m.steps_fit(d.dx->0@, d.options & 0x2000 != 0),
        -0x0100_0000 <= d.geometry(m).width <= 0x0100_0000,
        -0x0100_0000 <= d.travel(m).0 && d.travel(m).1 <= 0x0100_0000,
        -0x0100_0000 <= d.origin_px.0 <= 0x0100_0000,
        -0x0100_0000 <= d.origin_px.1 <= 0x0100_0000,
        -0x0100_0000 <= d.origin.0 <= 0x0100_0000,
        -0x0100_0000 <= d.extent.0 <= 0x0100_0000,
        -0x0100_0000 <= d.tm.height <= 0x0100_0000,
        -0x0100_0000 <= d.tm.internal_leading <= 0x0100_0000,
        -0x0100_0000 <= xform::scaled(d.tm.ascent as int, m.sy as int) <= 0x0100_0000,
        -0x0100_0000 <= xform::scaled(d.tm.descent as int, m.sy as int) <= 0x0100_0000,
        -0x0100_0000 <= xform::scaled(d.tm.height as int, m.sy as int) <= 0x0100_0000,
        d.rect matches Some(r) ==> {
            &&& -0x0100_0000 <= r.0 <= 0x0100_0000
            &&& -0x0100_0000 <= r.1 <= 0x0100_0000
            &&& -0x0100_0000 <= r.2 <= 0x0100_0000
            &&& -0x0100_0000 <= r.3 <= 0x0100_0000
        },
    ensures
        d.fits(m),
{
    travel_signs(d, m);
}

/// What a plan does to the device's pixels before the text: inside the text's
/// box, and inside the rectangle that is to be filled, they take the
/// background colour; every other one stays. Only drawing is clipped.
pub proof fn a_plan_fills_its_boxes(p: Plan, bgra: Seq<u8>, bk: [u8; 3], x: int, y: int, k: int)
    requires
        0 <= x < p.size.0,
        0 <= y < p.size.1,
        p.size.0 * p.size.1 * 4 <= bgra.len(),
        0 <= k < 3,
    ensures
        ({
            let before = prepared(p, bgra, bk);
            let n = y * p.size.0 + x;
            let in_text = p.text_box matches Some(r) && r.0 <= x < r.2 && r.1 <= y < r.3;
            let in_fill = p.fill matches Some(r) && r.0 <= x < r.2 && r.1 <= y < r.3;
            &&& before.w == p.size.0 && before.h == p.size.1 && before.clip == p.clip
            &&& before.rgb.len() == p.size.0 * p.size.1 * 3
            &&& before.rgb[n * 3 + k] == (if in_text || in_fill {
                bk[k]
            } else {
                bgra[n * 4 + 2 - k]
            })
        }),
{
    let (w, h) = (p.size.0 as int, p.size.1 as int);
    canvas::offset_parts(x, y, k, w, h, 3);
    canvas::offset_parts(x, y, 0, w, h, 3);
    assert(w * h * 3 >= 0) by (nonlinear_arith)
        requires
            w > 0,
            h > 0,
    ;
    assert(((y * w + x) * 3 + k) / 3 == y * w + x);
}

/// The part is as large as what it holds, but has at least a pixel and no
/// edge longer than 8192.
pub proof fn a_part_is_as_large_as_it_needs(n: int)
    ensures
        1 <= n <= 8192 ==> edge(n) == n,
        n < 1 ==> edge(n) == 1,
        n > 8192 ==> edge(n) == 8192,
{
}

/// A `COLORREF` holds red in its lowest byte, then green, then blue.
pub proof fn a_colour_has_red_lowest(red: u8, green: u8, blue: u8, rest: u8, colorref: u32)
    requires
        colorref == red + 0x100 * green + 0x1_0000 * blue + 0x100_0000 * rest,
    ensures
        byte_of(colorref, 0) == red,
        byte_of(colorref, 1) == green,
        byte_of(colorref, 2) == blue,
{
    let high = blue + 0x100 * rest;
    assert(colorref / 0x100 == green + 0x100 * high && colorref % 0x100 == red);
    assert((green + 0x100 * high) % 0x100 == green && (green + 0x100 * high) / 0x100 == high);
    assert(colorref / 0x1_0000 == high);
    assert(high % 0x100 == blue);
}

/// Right alignment ends a run at the anchor and left alignment starts it
/// there; a centred run starts half its width before.
pub proof fn alignment_places_the_run(x: int, width: int)
    ensures
        start_of(TA_LEFT, x, width) == x,
        start_of(TA_RIGHT, x, width) + width == x,
        start_of(TA_CENTER, x, width) + half(width) == x,
{
    assert(0u32 & 6u32 == 0u32) by (bit_vector);
    assert(2u32 & 6u32 == 2u32) by (bit_vector);
    assert(6u32 & 6u32 == 6u32) by (bit_vector);
}

/// A table has data unless its size is 0 or what stands for a failure.
pub proof fn which_sizes_have_data(size: u32)
    ensures
        has_data(size) <==> size != 0 && size != 0xffff_ffff,
        TTCF == 0x6663_7474,
{
}

} // verus!
