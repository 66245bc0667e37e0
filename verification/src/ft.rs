//! Driving FreeType: what to ask it for, and keeping what it returned.

use vstd::prelude::*;

use crate::config::{Aa, Profile};

verus! {

/// FreeType's `FT_PIXEL_MODE_GRAY`.
pub const PIXEL_MODE_GRAY: i32 = 2;

/// FreeType's `FT_PIXEL_MODE_LCD`.
pub const PIXEL_MODE_LCD: i32 = 5;

/// What a DirectWrite glyph run asks of a glyph beyond its index: a
/// fractional em size, a sideways rotation and DirectWrite's synthetic styles.
#[derive(Clone, Copy, Debug, PartialEq, Eq, Structural)]
pub struct GlyphStyle {
    /// Em size in 1/64 pixel (26.6).
    pub size_26_6: i64,
    /// `isSideways`: the glyph is turned 90 degrees counter-clockwise.
    pub sideways: bool,
    /// `DWRITE_FONT_SIMULATIONS_BOLD`.
    pub bold: bool,
    /// `DWRITE_FONT_SIMULATIONS_OBLIQUE`.
    pub oblique: bool,
}

impl GlyphStyle {
    /// A plain glyph at `size_26_6`.
    pub fn at(size_26_6: i64) -> (r: GlyphStyle)
        ensures
            r == (GlyphStyle { size_26_6, sideways: false, bold: false, oblique: false }),
    {
        GlyphStyle { size_26_6, sideways: false, bold: false, oblique: false }
    }
}

/// A rendered glyph: coverage bitmap plus placement.
pub struct Glyph {
    /// Bytes of a row that hold coverage: one for a grey pixel, three for an
    /// LCD one.
    pub width: i32,
    pub rows: i32,
    /// Bytes per row of `buffer`.
    pub pitch: i32,
    pub pixel_mode: i32,
    pub left: i32,
    pub top: i32,
    /// Whole pixels.
    pub advance_px: i32,
    pub buffer: Vec<u8>,
}

impl Glyph {
    /// The glyph has a bitmap.
    pub open spec fn inked(self) -> bool {
        self.rows != 0 && self.buffer@.len() != 0
    }

    /// The bitmap holds the rows it says it has.
    pub open spec fn ok(self) -> bool {
        &&& 0 <= self.width
        &&& 0 <= self.rows
        &&& 0 <= self.pitch
        &&& self.inked() ==> self.width <= self.pitch && self.rows * self.pitch <= self.buffer@.len()
    }

    /// Coverage byte `col` of row `row`.
    pub open spec fn byte(self, row: int, col: int) -> u8 {
        self.buffer@[row * self.pitch + col]
    }

    /// Coverage byte `col` of row `row`, of a glyph with a bitmap.
    pub fn byte_at(&self, row: i32, col: i32) -> (r: u8)
        requires
            self.ok(),
            self.inked(),
            0 <= row < self.rows,
            0 <= col < self.width,
        ensures
            r == self.byte(row as int, col as int),
    {
        proof {
            byte_in_buffer(*self, row as int, col as int);
        }
        let len: usize = self.buffer.len();
        self.buffer[row as usize * self.pitch as usize + col as usize]
    }

    /// Does the bitmap hold the rows it says it has?
    pub fn is_ok(&self) -> (r: bool)
        ensures
            r == self.ok(),
    {
        if self.width < 0 || self.rows < 0 || self.pitch < 0 {
            return false;
        }
        if self.rows == 0 || self.buffer.len() == 0 {
            return true;
        }
        assert(0 <= self.rows * self.pitch <= 0x7fff_ffff * 0x7fff_ffff) by (nonlinear_arith)
            requires
                0 <= self.rows <= 0x7fff_ffff,
                0 <= self.pitch <= 0x7fff_ffff,
        ;
        self.width <= self.pitch && (self.rows as u64) * (self.pitch as u64) <= self.buffer.len() as u64
    }
}

/// Row `row`, byte `col` lies in the buffer.
pub proof fn byte_in_buffer(g: Glyph, row: int, col: int)
    requires
        g.ok(),
        g.inked(),
        0 <= row < g.rows,
        0 <= col < g.width,
    ensures
        0 <= row * g.pitch <= row * g.pitch + col < g.buffer@.len(),
{
    let p = g.pitch as int;
    assert(0 <= row * p && row * p + p <= g.rows * p) by (nonlinear_arith)
        requires
            0 <= row < g.rows,
            0 <= p,
    ;
}

pub open spec fn bgr_order(aa: Aa) -> bool {
    aa == Aa::LcdBgr || aa == Aa::LightLcdBgr
}

/// Does this mode need BGR subpixel order?
pub fn is_bgr(aa: Aa) -> (r: bool)
    ensures
        r == bgr_order(aa),
{
    matches!(aa, Aa::LcdBgr | Aa::LightLcdBgr)
}

// ---- what to ask FreeType for ----

const FT_LOAD_NO_HINTING: i32 = 0x2;

const FT_LOAD_NO_BITMAP: i32 = 0x8;

const FT_LOAD_FORCE_AUTOHINT: i32 = 0x20;

const FT_LOAD_IGNORE_GLOBAL_ADVANCE_WIDTH: i32 = 0x200;

const FT_LOAD_TARGET_NORMAL: i32 = 0;

const FT_LOAD_TARGET_LIGHT: i32 = 0x1_0000;

const FT_LOAD_TARGET_LCD: i32 = 0x3_0000;

const FT_RENDER_MODE_NORMAL: i32 = 0;

const FT_RENDER_MODE_LCD: i32 = 3;

/// The load flags for a mode and a hinting: no embedded bitmaps, no global
/// advance widths, the mode's target and the hinting's flag. Each is a bit of
/// its own, so their sum is their union.
pub open spec fn load_flags(aa: Aa, hinting: int) -> int {
    0x208 + (if aa.light() {
        0x1_0000int
    } else if aa.lcd() {
        0x3_0000
    } else {
        0
    }) + (if hinting == 1 {
        0x2int
    } else if hinting == 2 {
        0x20
    } else {
        0
    })
}

/// The render mode: LCD or normal.
pub open spec fn render_mode(aa: Aa) -> int {
    if aa.lcd() {
        3
    } else {
        0
    }
}

/// FreeType load flags and render mode for a profile's anti-aliasing and
/// hinting: LCD modes load for the LCD target, LightLCD ones for the light
/// target (the light autohinter, vertical snapping only), and both render LCD.
pub fn flags(p: &Profile) -> (r: (i32, i32))
    ensures
        r.0 == load_flags(p.aa, p.hinting as int),
        r.1 == render_mode(p.aa),
{
    let target: i32 = if p.aa.is_light() {
        FT_LOAD_TARGET_LIGHT
    } else if p.aa.is_lcd() {
        FT_LOAD_TARGET_LCD
    } else {
        FT_LOAD_TARGET_NORMAL
    };
    let hint: i32 = match p.hinting {
        1 => FT_LOAD_NO_HINTING,
        2 => FT_LOAD_FORCE_AUTOHINT,
        _ => 0,
    };
    let render: i32 = if p.aa.is_lcd() {
        FT_RENDER_MODE_LCD
    } else {
        FT_RENDER_MODE_NORMAL
    };
    (FT_LOAD_NO_BITMAP + FT_LOAD_IGNORE_GLOBAL_ADVANCE_WIDTH + target + hint, render)
}

/// The LCD filter to set in the library before a run, if it needs one.
pub fn prepare(p: &Profile) -> (r: Option<i32>)
    ensures
        r == (if p.aa.lcd() {
            Some(p.lcd_filter)
        } else {
            None
        }),
{
    if p.aa.is_lcd() {
        Some(p.lcd_filter)
    } else {
        None
    }
}

/// A 16.16 fixed-point transform, applied as `x' = xx*x + xy*y`,
/// `y' = yx*x + yy*y` with y up.
#[derive(Clone, Copy, Debug, PartialEq, Eq, Structural)]
pub struct Matrix {
    pub xx: i32,
    pub xy: i32,
    pub yx: i32,
    pub yy: i32,
}

/// One in 16.16.
pub const UNIT: i32 = 0x1_0000;

/// Horizontal shear of DirectWrite's oblique simulation, as `x += y / 3`.
pub const OBLIQUE_SHEAR: i32 = 0x5555;

/// First `b`, then `a`, where the product needs no rounding.
pub open spec fn composed(a: Matrix, b: Matrix) -> Matrix {
    Matrix {
        xx: ((a.xx * b.xx + a.xy * b.yx) / (UNIT as int)) as i32,
        xy: ((a.xx * b.xy + a.xy * b.yy) / (UNIT as int)) as i32,
        yx: ((a.yx * b.xx + a.yy * b.yx) / (UNIT as int)) as i32,
        yy: ((a.yx * b.xy + a.yy * b.yy) / (UNIT as int)) as i32,
    }
}

pub open spec fn identity() -> Matrix {
    Matrix { xx: UNIT, xy: 0, yx: 0, yy: UNIT }
}

pub open spec fn sheared() -> Matrix {
    Matrix { xx: UNIT, xy: OBLIQUE_SHEAR, yx: 0, yy: UNIT }
}

/// A quarter turn counter-clockwise.
pub open spec fn quarter_turn() -> Matrix {
    Matrix { xx: 0, xy: (-UNIT) as i32, yx: UNIT, yy: 0 }
}

/// The transform of a style: the lean is in the glyph's own frame, so it
/// comes before the turn.
pub open spec fn style_matrix(s: GlyphStyle) -> Matrix {
    let lean = if s.oblique {
        sheared()
    } else {
        identity()
    };
    if s.sideways {
        composed(quarter_turn(), lean)
    } else {
        lean
    }
}

proof fn turned(xy: i32)
    ensures
        composed(quarter_turn(), Matrix { xx: UNIT, xy, yx: 0, yy: UNIT }) == (Matrix {
            xx: 0,
            xy: (-UNIT) as i32,
            yx: UNIT,
            yy: xy,
        }),
{
    let u = UNIT as int;
    assert(0 * u + (-u) * 0 == 0) by (nonlinear_arith);
    assert(0 * xy + (-u) * u == (-u) * u) by (nonlinear_arith);
    assert(((-u) * u) / u == -u) by (nonlinear_arith)
        requires
            u == 0x1_0000,
    ;
    assert(u * u + 0 * 0 == u * u) by (nonlinear_arith);
    assert((u * u) / u == u) by (nonlinear_arith)
        requires
            u == 0x1_0000,
    ;
    assert((u * xy + 0 * u) / u == xy) by (nonlinear_arith)
        requires
            u == 0x1_0000,
    ;
}

impl GlyphStyle {
    /// The transform to set for this style.
    pub fn matrix(&self) -> (r: Matrix)
        ensures
            r == style_matrix(*self),
    {
        let xy: i32 = if self.oblique {
            OBLIQUE_SHEAR
        } else {
            0
        };
        proof {
            turned(xy);
        }
        if self.sideways {
            Matrix { xx: 0, xy: -UNIT, yx: UNIT, yy: xy }
        } else {
            Matrix { xx: UNIT, xy, yx: 0, yy: UNIT }
        }
    }

    /// DirectWrite's bold simulation widens by about em/40 and heightens by
    /// about em/60 (26.6).
    pub fn bold_strength(&self) -> (r: (i64, i64))
        requires
            self.size_26_6 >= 0,
        ensures
            self.bold ==> r.0 == self.size_26_6 as int / 40 && r.1 == self.size_26_6 as int / 60,
            !self.bold ==> r == (0i64, 0i64),
    {
        if self.bold {
            (self.size_26_6 / 40, self.size_26_6 / 60)
        } else {
            (0, 0)
        }
    }

    /// One bit for each part of the style.
    pub fn bits(&self) -> (r: u8)
        ensures
            r == style_bits(*self),
    {
        (if self.sideways {
            1
        } else {
            0
        }) + (if self.bold {
            2
        } else {
            0
        }) + (if self.oblique {
            4
        } else {
            0
        })
    }
}

pub open spec fn style_bits(s: GlyphStyle) -> int {
    (if s.sideways {
        1int
    } else {
        0
    }) + (if s.bold {
        2int
    } else {
        0
    }) + (if s.oblique {
        4int
    } else {
        0
    })
}

/// The emboldening to apply to an outline: the profile's own and the
/// synthetic bold's, in each direction; `None` where there is none.
pub fn embolden_strength(embolden: i32, bold: (i64, i64)) -> (r: Option<(i64, i64)>)
    requires
        -0x4000_0000_0000_0000 <= bold.0 <= 0x4000_0000_0000_0000,
        -0x4000_0000_0000_0000 <= bold.1 <= 0x4000_0000_0000_0000,
    ensures
        match r {
            Some(e) => e.0 == embolden + bold.0 && e.1 == embolden + bold.1 && (e.0 != 0 || e.1 != 0),
            None => embolden + bold.0 == 0 && embolden + bold.1 == 0,
        },
{
    let x: i64 = embolden as i64 + bold.0;
    let y: i64 = embolden as i64 + bold.1;
    if x != 0 || y != 0 {
        Some((x, y))
    } else {
        None
    }
}

// ---- a bitmap of FreeType's ----

/// The row of the raw bitmap that is row `r` from the top.
pub open spec fn raw_row(r: int, rows: int, bottom_up: bool) -> int {
    if bottom_up {
        rows - 1 - r
    } else {
        r
    }
}

fn copy_rows(raw: &[u8], rows: usize, stride: usize, bottom_up: bool) -> (out: Vec<u8>)
    requires
        raw@.len() == rows * stride,
    ensures
        out@.len() == rows * stride,
        forall|r: int, c: int|
            0 <= r < rows && 0 <= c < stride ==> #[trigger] out@[r * stride + c] == raw@[raw_row(
                r,
                rows as int,
                bottom_up,
            ) * stride + c],
{
    let mut out: Vec<u8> = Vec::with_capacity(raw.len());
    let mut r: usize = 0;
    while r < rows
        invariant
            r <= rows,
            raw@.len() == rows * stride,
            out@.len() == r * stride,
            forall|x: int, c: int|
                0 <= x < r && 0 <= c < stride ==> #[trigger] out@[x * stride + c] == raw@[raw_row(
                    x,
                    rows as int,
                    bottom_up,
                ) * stride + c],
        decreases rows - r,
    {
        let from: usize = if bottom_up {
            rows - 1 - r
        } else {
            r
        };
        let len: usize = raw.len();
        assert(0 <= from * stride && from * stride + stride <= rows * stride) by (nonlinear_arith)
            requires
                0 <= from < rows,
                0 <= stride,
        ;
        assert((r + 1) * stride == r * stride + stride) by (nonlinear_arith);
        let ghost before = out@;
        let mut c: usize = 0;
        while c < stride
            invariant
                c <= stride,
                r < rows,
                raw@.len() == rows * stride,
                len == raw@.len(),
                from * stride + stride <= len,
                from == raw_row(r as int, rows as int, bottom_up),
                before.len() == r * stride,
                out@.len() == r * stride + c,
                forall|x: int| 0 <= x < before.len() ==> out@[x] == before[x],
                forall|x: int| 0 <= x < c ==> #[trigger] out@[r * stride + x] == raw@[from * stride + x],
            decreases stride - c,
        {
            out.push(raw[from * stride + c]);
            c = c + 1;
        }
        proof {
            assert forall|x: int, c: int| 0 <= x < r + 1 && 0 <= c < stride implies #[trigger] out@[x * stride + c]
                == raw@[raw_row(x, rows as int, bottom_up) * stride + c] by {
                if x < r {
                    assert(0 <= x * stride + c < r * stride) by (nonlinear_arith)
                        requires
                            0 <= x < r,
                            0 <= c < stride,
                    ;
                    assert(before[x * stride + c] == raw@[raw_row(x, rows as int, bottom_up) * stride + c]);
                }
            }
        }
        r = r + 1;
    }
    out
}

/// A bitmap as FreeType's glyph slot holds it. A negative pitch means rows
/// from the bottom up; `raw` has `rows * |pitch|` bytes.
pub struct Bitmap<'a> {
    pub width: i32,
    pub rows: i32,
    pub pitch: i32,
    pub pixel_mode: i32,
    pub raw: &'a [u8],
}

impl<'a> Bitmap<'a> {
    pub open spec fn stride(self) -> int {
        if self.pitch < 0 {
            -(self.pitch as int)
        } else {
            self.pitch as int
        }
    }

    /// All the bytes are there, and a row has room for its pixels.
    pub open spec fn ok(self) -> bool {
        &&& 0 <= self.rows
        &&& 0 <= self.width <= self.stride() <= i32::MAX
        &&& self.raw@.len() == self.rows * self.stride()
    }
}

/// A glyph with the bytes of `bitmap` (top row first) at `left`, `top`.
/// `advance_26_6` is in 1/64 pixel. Without a bitmap, or with an empty one,
/// only the placement is kept.
pub fn glyph_of(
    bitmap: Option<Bitmap<'_>>,
    pixel_mode: i32,
    left: i32,
    top: i32,
    advance_26_6: i32,
) -> (g: Glyph)
    requires
        bitmap is Some ==> bitmap->0.ok(),
    ensures
        g.ok(),
        g.left == left,
        g.top == top,
        g.advance_px == advance_26_6 as int / 64,
        match bitmap {
            Some(b) => if b.rows == 0 {
                g.width == 0 && g.rows == 0 && g.pitch == 0 && g.pixel_mode == b.pixel_mode && g.buffer@.len() == 0
            } else {
                &&& g.width == b.width
                &&& g.rows == b.rows
                &&& g.pitch == b.stride()
                &&& g.pixel_mode == b.pixel_mode
                &&& g.buffer@.len() == b.raw@.len()
                &&& forall|r: int, c: int|
                    0 <= r < b.rows && 0 <= c < b.stride() ==> #[trigger] g.buffer@[r * b.stride() + c] == b.raw@[raw_row(
                        r,
                        b.rows as int,
                        b.pitch < 0,
                    ) * b.stride() + c]
            },
            None => g.width == 0 && g.rows == 0 && g.pitch == 0 && g.pixel_mode == pixel_mode && g.buffer@.len()
                == 0,
        },
{
    let advance_px: i32 = floor_64(advance_26_6);
    match bitmap {
        Some(b) => {
            if b.rows == 0 {
                return Glyph {
                    width: 0,
                    rows: 0,
                    pitch: 0,
                    pixel_mode: b.pixel_mode,
                    left,
                    top,
                    advance_px,
                    buffer: Vec::new(),
                };
            }
            let stride: i32 = if b.pitch < 0 {
                -b.pitch
            } else {
                b.pitch
            };
            let buffer: Vec<u8> = copy_rows(b.raw, b.rows as usize, stride as usize, b.pitch < 0);
            Glyph { width: b.width, rows: b.rows, pitch: stride, pixel_mode: b.pixel_mode, left, top, advance_px, buffer }
        },
        None => Glyph { width: 0, rows: 0, pitch: 0, pixel_mode, left, top, advance_px, buffer: Vec::new() },
    }
}

/// Whole pixels of a 26.6 number, rounded down.
fn floor_64(v: i32) -> (r: i32)
    ensures
        r == v as int / 64,
{
    if v >= 0 {
        v / 64
    } else {
        -((-(v as i64) + 63) / 64) as i32
    }
}

// ---- laws ----

/// A glyph's bitmap holds the rows it says it has, if it has any: each as long
/// as its coverage, and all of them in the buffer. Its byte in a row and a
/// column stands there in the buffer.
pub proof fn a_bitmap_holds_its_rows(g: Glyph, row: int, col: int)
    ensures
        g.ok() <==> {
            &&& 0 <= g.width && 0 <= g.rows && 0 <= g.pitch
            &&& g.rows == 0 || g.buffer@.len() == 0 || (g.width <= g.pitch && g.rows * g.pitch <= g.buffer@.len())
        },
        g.byte(row, col) == g.buffer@[row * g.pitch + col],
{
}

/// A bitmap's rows are taken from the top: a positive pitch has the top row
/// first and a negative one has it last.
pub proof fn rows_are_taken_from_the_top(b: Bitmap<'_>, r: int, c: int)
    ensures
        b.pitch >= 0 ==> raw_row(r, b.rows as int, b.pitch < 0) * b.stride() + c == r * b.pitch + c,
        b.pitch < 0 ==> raw_row(r, b.rows as int, b.pitch < 0) * b.stride() + c == (b.rows - 1 - r) * (-b.pitch) + c,
{
}

/// What FreeType is asked for, by the number of the mode and of the hinting:
/// embedded bitmaps and global advances are never wanted (`0x208`); modes 2
/// and 3 load for the LCD target and 4 and 5 for the light one, and all of
/// those render LCD; hinting 1 is none and 2 the autohinter's.
pub proof fn the_mode_decides_the_load_target(aa: Aa, hinting: int)
    ensures
        ({
            let n = aa.number();
            let none = load_flags(aa, 0);
            &&& n == 0 ==> none == 0x208 && render_mode(aa) == 0
            &&& n == 2 || n == 3 ==> none == 0x3_0208 && render_mode(aa) == 3
            &&& n == 4 || n == 5 ==> none == 0x1_0208 && render_mode(aa) == 3
            &&& load_flags(aa, 1) == none + 2
            &&& load_flags(aa, 2) == none + 0x20
            &&& hinting != 1 && hinting != 2 ==> load_flags(aa, hinting) == none
            &&& bgr_order(aa) <==> n == 3 || n == 5
        }),
{
}

/// An oblique style leans a point to the right by a third of its height, and a
/// sideways one then turns it by a quarter, counter-clockwise.
pub proof fn a_style_leans_and_turns(s: GlyphStyle)
    ensures
        ({
            let m = style_matrix(s);
            let lean = if s.oblique {
                0x5555int
            } else {
                0
            };
            &&& !s.sideways ==> m.xx == 0x1_0000 && m.xy == lean && m.yx == 0 && m.yy == 0x1_0000
            &&& s.sideways ==> m.xx == 0 && m.xy == -0x1_0000 && m.yx == 0x1_0000 && m.yy == lean
        }),
{
    turned(
        if s.oblique {
            OBLIQUE_SHEAR
        } else {
            0
        },
    );
}

/// The bits of a style tell every part of it.
pub proof fn style_bits_tell_the_style(s: GlyphStyle, t: GlyphStyle)
    ensures
        style_bits(s) == style_bits(t) <==> s.sideways == t.sideways && s.bold == t.bold && s.oblique == t.oblique,
        0 <= style_bits(s) < 8,
{
}

} // verus!
