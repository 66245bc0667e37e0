//! Compositing: blending the coverage of glyphs into a canvas.

use std::sync::Arc;

use vstd::prelude::*;

use crate::canvas;
use crate::canvas::{Canvas, Picture, Rect};
use crate::config::Aa;
use crate::filter::{Curves, Tables};
use crate::ft;
use crate::ft::{Glyph, PIXEL_MODE_GRAY, PIXEL_MODE_LCD};
use crate::layout;
use crate::layout::{Layout, Steps};
use crate::numbers;

verus! {

/// Text colour, black by default.
#[derive(Clone, Copy)]
pub struct Ink {
    pub fg: [u8; 3],
}

impl Default for Ink {
    fn default() -> (r: Ink)
        ensures
            r.fg@ == seq![0u8, 0u8, 0u8],
    {
        let r: Ink = Ink { fg: [0, 0, 0] };
        assert(r.fg@ =~= seq![0u8, 0u8, 0u8]);
        r
    }
}

// ---- one glyph ----

/// How a glyph goes onto a canvas: the tables, the ink, where the pen is, and
/// the subpixel choice.
struct Blit<'a> {
    tables: &'a Tables,
    ink: Ink,
    pen_x: i128,
    base_y: i128,
    lcd: bool,
    bgr: bool,
}

/// The pixels in a row of a glyph's bitmap: LCD bitmaps have three bytes per
/// pixel.
pub open spec fn pixel_width(g: Glyph) -> int {
    if g.pixel_mode == PIXEL_MODE_LCD {
        g.width as int / 3
    } else {
        g.width as int
    }
}

/// The three coverage bytes of LCD pixel (`col`, `row`), in RGB order.
pub open spec fn subpixels(g: Glyph, row: int, col: int, bgr: bool) -> (u8, u8, u8) {
    let (a, b, c) = (g.byte(row, col * 3), g.byte(row, col * 3 + 1), g.byte(row, col * 3 + 2));
    if bgr {
        (c, b, a)
    } else {
        (a, b, c)
    }
}

/// Channel `k` of a pixel that showed `old`, with pixel (`col`, `row`) of `g`
/// over it. In an LCD bitmap the blue subpixel covers the red channel and the
/// red one the blue channel.
pub open spec fn painted(c: Curves, fg: [u8; 3], g: Glyph, lcd: bool, bgr: bool, col: int, row: int, old: u8, k: int) -> u8 {
    if !g.inked() || !(0 <= row < g.rows && 0 <= col < pixel_width(g)) {
        old
    } else if lcd && g.pixel_mode == PIXEL_MODE_LCD {
        let (r, gr, b) = subpixels(g, row, col, bgr);
        if r == 0 && gr == 0 && b == 0 {
            old
        } else {
            c.blended(old, fg[k], if k == 0 {
                b
            } else if k == 1 {
                gr
            } else {
                r
            })
        }
    } else if !lcd && g.pixel_mode == PIXEL_MODE_GRAY {
        let cov = g.byte(row, col);
        if cov == 0 {
            old
        } else {
            c.blended(old, fg[k], cov)
        }
    } else {
        old
    }
}

/// Byte `i` of the picture `p` with `g` drawn on it at the pen (`px`, `py`).
pub open spec fn stamped_byte(p: Picture, c: Curves, fg: [u8; 3], g: Glyph, lcd: bool, bgr: bool, px: int, py: int, i: int) -> u8 {
    let (x, y) = (p.x(i), p.y(i));
    if p.reaches(x, y) {
        painted(c, fg, g, lcd, bgr, x - (px + g.left), y - (py - g.top), p.rgb[i], i % 3)
    } else {
        p.rgb[i]
    }
}

/// The picture `p` with `g` drawn on it at the pen (`px`, `py`).
pub open spec fn stamped(p: Picture, c: Curves, fg: [u8; 3], g: Glyph, lcd: bool, bgr: bool, px: int, py: int) -> Picture {
    Picture { rgb: Seq::new(p.rgb.len(), |i: int| stamped_byte(p, c, fg, g, lcd, bgr, px, py, i)), ..p }
}

impl Canvas {
    fn reaches_wide(&self, x: i128, y: i128) -> (r: bool)
        ensures
            r == self@.reaches(x as int, y as int),
    {
        if x < 0 || y < 0 {
            return false;
        }
        if x >= self.w as i128 || y >= self.h as i128 {
            return false;
        }
        match self.clip {
            Some((l, t, r, b)) => x >= l as i128 && x < r as i128 && y >= t as i128 && y < b as i128,
            None => true,
        }
    }
}

/// Pixel (`x`, `y`) lies before column `col` of row `row` of the bitmap.
spec fn stamped_before(x: int, y: int, row: int, col: int) -> bool {
    y < row || y == row && x < col
}

fn blend_gray(canvas: &mut Canvas, blit: &Blit, g: &Glyph)
    requires
        old(canvas)@.ok(),
        g.ok(),
        g.inked(),
        !blit.lcd,
        g.pixel_mode == PIXEL_MODE_GRAY,
        -0x4000_0000_0000_0000_0000_0000_0000 <= blit.pen_x <= 0x4000_0000_0000_0000_0000_0000_0000,
        -0x4000_0000_0000_0000_0000_0000_0000 <= blit.base_y <= 0x4000_0000_0000_0000_0000_0000_0000,
    ensures
        final(canvas)@ == stamped(
            old(canvas)@,
            blit.tables@,
            blit.ink.fg,
            *g,
            blit.lcd,
            blit.bgr,
            blit.pen_x as int,
            blit.base_y as int,
        ),
{
    let ghost p = canvas@;
    let ghost c = blit.tables@;
    let ghost fg = blit.ink.fg;
    let ghost x0 = blit.pen_x + g.left;
    let ghost y0 = blit.base_y - g.top;
    let mut row: i32 = 0;
    while row < g.rows
        invariant
            0 <= row <= g.rows,
            g.ok(),
            g.inked(),
            !blit.lcd,
            g.pixel_mode == PIXEL_MODE_GRAY,
            -0x4000_0000_0000_0000_0000_0000_0000 <= blit.pen_x <= 0x4000_0000_0000_0000_0000_0000_0000,
            -0x4000_0000_0000_0000_0000_0000_0000 <= blit.base_y <= 0x4000_0000_0000_0000_0000_0000_0000,
            p.ok(),
            c == blit.tables@,
            fg == blit.ink.fg,
            x0 == blit.pen_x + g.left,
            y0 == blit.base_y - g.top,
            canvas@.w == p.w,
            canvas@.h == p.h,
            canvas@.clip == p.clip,
            canvas@.rgb.len() == p.rgb.len(),
            forall|i: int| 0 <= i < p.rgb.len() ==> #[trigger] canvas@.rgb[i] == (if stamped_before(
                p.x(i) - x0,
                p.y(i) - y0,
                row as int,
                0,
            ) {
                stamped_byte(p, c, fg, *g, blit.lcd, blit.bgr, blit.pen_x as int, blit.base_y as int, i)
            } else {
                p.rgb[i]
            }),
        decreases g.rows - row,
    {
        let mut col: i32 = 0;
        while col < g.width
            invariant
                0 <= row < g.rows,
                0 <= col <= g.width,
                g.ok(),
                g.inked(),
                !blit.lcd,
                g.pixel_mode == PIXEL_MODE_GRAY,
                -0x4000_0000_0000_0000_0000_0000_0000 <= blit.pen_x <= 0x4000_0000_0000_0000_0000_0000_0000,
                -0x4000_0000_0000_0000_0000_0000_0000 <= blit.base_y <= 0x4000_0000_0000_0000_0000_0000_0000,
                p.ok(),
                c == blit.tables@,
                fg == blit.ink.fg,
                x0 == blit.pen_x + g.left,
                y0 == blit.base_y - g.top,
                canvas@.w == p.w,
                canvas@.h == p.h,
                canvas@.clip == p.clip,
                canvas@.rgb.len() == p.rgb.len(),
                forall|i: int| 0 <= i < p.rgb.len() ==> #[trigger] canvas@.rgb[i] == (if stamped_before(
                    p.x(i) - x0,
                    p.y(i) - y0,
                    row as int,
                    col as int,
                ) {
                    stamped_byte(p, c, fg, *g, blit.lcd, blit.bgr, blit.pen_x as int, blit.base_y as int, i)
                } else {
                    p.rgb[i]
                }),
            decreases g.width - col,
        {
            let cov: u8 = g.byte_at(row, col);
            let x: i128 = blit.pen_x + g.left as i128 + col as i128;
            let y: i128 = blit.base_y - g.top as i128 + row as i128;
            let ghost before = canvas@.rgb;
            if cov != 0 && canvas.reaches_wide(x, y) {
                let at: usize = canvas::pixel_at(x as usize, y as usize, canvas.w, canvas.h, canvas.rgb.len());
                let v0: u8 = blit.tables.blend(canvas.rgb[at], blit.ink.fg[0], cov);
                let v1: u8 = blit.tables.blend(canvas.rgb[at + 1], blit.ink.fg[1], cov);
                let v2: u8 = blit.tables.blend(canvas.rgb[at + 2], blit.ink.fg[2], cov);
                proof {
                    canvas::offset_parts(x as int, y as int, 0, p.w, p.h, 3);
                    canvas::offset_parts(x as int, y as int, 1, p.w, p.h, 3);
                    canvas::offset_parts(x as int, y as int, 2, p.w, p.h, 3);
                    assert(before[at as int] == p.rgb[at as int]);
                    assert(before[at + 1] == p.rgb[at + 1]);
                    assert(before[at + 2] == p.rgb[at + 2]);
                }
                canvas.rgb[at] = v0;
                canvas.rgb[at + 1] = v1;
                canvas.rgb[at + 2] = v2;
            }
            proof {
                assert forall|i: int| 0 <= i < p.rgb.len() implies #[trigger] canvas@.rgb[i] == (if stamped_before(
                    p.x(i) - x0,
                    p.y(i) - y0,
                    row as int,
                    col + 1,
                ) {
                    stamped_byte(p, c, fg, *g, blit.lcd, blit.bgr, blit.pen_x as int, blit.base_y as int, i)
                } else {
                    p.rgb[i]
                }) by {
                    canvas::position_parts(i, p.w, p.h, 3);
                    assert(before[i] == before[i]);
                }
            }
            col = col + 1;
        }
        proof {
            assert forall|i: int| 0 <= i < p.rgb.len() implies #[trigger] canvas@.rgb[i] == (if stamped_before(
                p.x(i) - x0,
                p.y(i) - y0,
                row + 1,
                0,
            ) {
                stamped_byte(p, c, fg, *g, blit.lcd, blit.bgr, blit.pen_x as int, blit.base_y as int, i)
            } else {
                p.rgb[i]
            }) by {}
        }
        row = row + 1;
    }
    proof {
        let q = stamped(p, c, fg, *g, blit.lcd, blit.bgr, blit.pen_x as int, blit.base_y as int);
        assert forall|i: int| 0 <= i < p.rgb.len() implies #[trigger] canvas@.rgb[i] == q.rgb[i] by {}
        assert(canvas@.rgb =~= q.rgb);
    }
}

fn blend_lcd(canvas: &mut Canvas, blit: &Blit, g: &Glyph)
    requires
        old(canvas)@.ok(),
        g.ok(),
        g.inked(),
        blit.lcd,
        g.pixel_mode == PIXEL_MODE_LCD,
        -0x4000_0000_0000_0000_0000_0000_0000 <= blit.pen_x <= 0x4000_0000_0000_0000_0000_0000_0000,
        -0x4000_0000_0000_0000_0000_0000_0000 <= blit.base_y <= 0x4000_0000_0000_0000_0000_0000_0000,
    ensures
        final(canvas)@ == stamped(
            old(canvas)@,
            blit.tables@,
            blit.ink.fg,
            *g,
            blit.lcd,
            blit.bgr,
            blit.pen_x as int,
            blit.base_y as int,
        ),
{
    let ghost p = canvas@;
    let ghost c = blit.tables@;
    let ghost fg = blit.ink.fg;
    let ghost x0 = blit.pen_x + g.left;
    let ghost y0 = blit.base_y - g.top;
    let cells: i32 = g.width / 3;
    let mut row: i32 = 0;
    while row < g.rows
        invariant
            0 <= row <= g.rows,
            g.ok(),
            g.inked(),
            blit.lcd,
            g.pixel_mode == PIXEL_MODE_LCD,
            cells == pixel_width(*g),
            0 <= cells,
            -0x4000_0000_0000_0000_0000_0000_0000 <= blit.pen_x <= 0x4000_0000_0000_0000_0000_0000_0000,
            -0x4000_0000_0000_0000_0000_0000_0000 <= blit.base_y <= 0x4000_0000_0000_0000_0000_0000_0000,
            p.ok(),
            c == blit.tables@,
            fg == blit.ink.fg,
            x0 == blit.pen_x + g.left,
            y0 == blit.base_y - g.top,
            canvas@.w == p.w,
            canvas@.h == p.h,
            canvas@.clip == p.clip,
            canvas@.rgb.len() == p.rgb.len(),
            forall|i: int| 0 <= i < p.rgb.len() ==> #[trigger] canvas@.rgb[i] == (if stamped_before(
                p.x(i) - x0,
                p.y(i) - y0,
                row as int,
                0,
            ) {
                stamped_byte(p, c, fg, *g, blit.lcd, blit.bgr, blit.pen_x as int, blit.base_y as int, i)
            } else {
                p.rgb[i]
            }),
        decreases g.rows - row,
    {
        let mut col: i32 = 0;
        while col < cells
            invariant
                0 <= row < g.rows,
                0 <= col <= cells,
                g.ok(),
                g.inked(),
                blit.lcd,
                g.pixel_mode == PIXEL_MODE_LCD,
                cells == pixel_width(*g),
                -0x4000_0000_0000_0000_0000_0000_0000 <= blit.pen_x <= 0x4000_0000_0000_0000_0000_0000_0000,
                -0x4000_0000_0000_0000_0000_0000_0000 <= blit.base_y <= 0x4000_0000_0000_0000_0000_0000_0000,
                p.ok(),
                c == blit.tables@,
                fg == blit.ink.fg,
                x0 == blit.pen_x + g.left,
                y0 == blit.base_y - g.top,
                canvas@.w == p.w,
                canvas@.h == p.h,
                canvas@.clip == p.clip,
                canvas@.rgb.len() == p.rgb.len(),
                forall|i: int| 0 <= i < p.rgb.len() ==> #[trigger] canvas@.rgb[i] == (if stamped_before(
                    p.x(i) - x0,
                    p.y(i) - y0,
                    row as int,
                    col as int,
                ) {
                    stamped_byte(p, c, fg, *g, blit.lcd, blit.bgr, blit.pen_x as int, blit.base_y as int, i)
                } else {
                    p.rgb[i]
                }),
            decreases cells - col,
        {
            let b0: u8 = g.byte_at(row, col * 3);
            let b1: u8 = g.byte_at(row, col * 3 + 1);
            let b2: u8 = g.byte_at(row, col * 3 + 2);
            let (a_r, a_g, a_b): (u8, u8, u8) = if blit.bgr {
                (b2, b1, b0)
            } else {
                (b0, b1, b2)
            };
            let x: i128 = blit.pen_x + g.left as i128 + col as i128;
            let y: i128 = blit.base_y - g.top as i128 + row as i128;
            let ghost before = canvas@.rgb;
            if (a_r != 0 || a_g != 0 || a_b != 0) && canvas.reaches_wide(x, y) {
                let at: usize = canvas::pixel_at(x as usize, y as usize, canvas.w, canvas.h, canvas.rgb.len());
                let v0: u8 = blit.tables.blend(canvas.rgb[at], blit.ink.fg[0], a_b);
                let v1: u8 = blit.tables.blend(canvas.rgb[at + 1], blit.ink.fg[1], a_g);
                let v2: u8 = blit.tables.blend(canvas.rgb[at + 2], blit.ink.fg[2], a_r);
                proof {
                    canvas::offset_parts(x as int, y as int, 0, p.w, p.h, 3);
                    canvas::offset_parts(x as int, y as int, 1, p.w, p.h, 3);
                    canvas::offset_parts(x as int, y as int, 2, p.w, p.h, 3);
                    assert(before[at as int] == p.rgb[at as int]);
                    assert(before[at + 1] == p.rgb[at + 1]);
                    assert(before[at + 2] == p.rgb[at + 2]);
                }
                canvas.rgb[at] = v0;
                canvas.rgb[at + 1] = v1;
                canvas.rgb[at + 2] = v2;
            }
            proof {
                assert forall|i: int| 0 <= i < p.rgb.len() implies #[trigger] canvas@.rgb[i] == (if stamped_before(
                    p.x(i) - x0,
                    p.y(i) - y0,
                    row as int,
                    col + 1,
                ) {
                    stamped_byte(p, c, fg, *g, blit.lcd, blit.bgr, blit.pen_x as int, blit.base_y as int, i)
                } else {
                    p.rgb[i]
                }) by {
                    canvas::position_parts(i, p.w, p.h, 3);
                    assert(before[i] == before[i]);
                }
            }
            col = col + 1;
        }
        proof {
            assert forall|i: int| 0 <= i < p.rgb.len() implies #[trigger] canvas@.rgb[i] == (if stamped_before(
                p.x(i) - x0,
                p.y(i) - y0,
                row + 1,
                0,
            ) {
                stamped_byte(p, c, fg, *g, blit.lcd, blit.bgr, blit.pen_x as int, blit.base_y as int, i)
            } else {
                p.rgb[i]
            }) by {}
        }
        row = row + 1;
    }
    proof {
        let q = stamped(p, c, fg, *g, blit.lcd, blit.bgr, blit.pen_x as int, blit.base_y as int);
        assert forall|i: int| 0 <= i < p.rgb.len() implies #[trigger] canvas@.rgb[i] == q.rgb[i] by {}
        assert(canvas@.rgb =~= q.rgb);
    }
}


/// Draw one rendered glyph on the canvas at the pen position.
fn blit_glyph(canvas: &mut Canvas, blit: &Blit, g: &Glyph)
    requires
        old(canvas)@.ok(),
        g.ok(),
        -0x4000_0000_0000_0000_0000_0000_0000 <= blit.pen_x <= 0x4000_0000_0000_0000_0000_0000_0000,
        -0x4000_0000_0000_0000_0000_0000_0000 <= blit.base_y <= 0x4000_0000_0000_0000_0000_0000_0000,
    ensures
        final(canvas)@ == stamped(
            old(canvas)@,
            blit.tables@,
            blit.ink.fg,
            *g,
            blit.lcd,
            blit.bgr,
            blit.pen_x as int,
            blit.base_y as int,
        ),
        final(canvas)@.ok(),
{
    let ghost p = canvas@;
    let ghost q = stamped(
        p,
        blit.tables@,
        blit.ink.fg,
        *g,
        blit.lcd,
        blit.bgr,
        blit.pen_x as int,
        blit.base_y as int,
    );
    if g.rows == 0 || g.buffer.len() == 0 {
        proof {
            assert(p.rgb =~= q.rgb);
        }
        return ;
    }
    if blit.lcd && g.pixel_mode == PIXEL_MODE_LCD {
        blend_lcd(canvas, blit, g);
    } else if !blit.lcd && g.pixel_mode == PIXEL_MODE_GRAY {
        blend_gray(canvas, blit, g);
    } else {
        proof {
            assert(p.rgb =~= q.rgb);
        }
    }
}

// ---- runs ----

/// Every glyph of the run that was rendered has the rows it says it has.
pub open spec fn run_ok(run: Seq<Option<Arc<Glyph>>>) -> bool {
    forall|i: int| 0 <= i < run.len() && (#[trigger] run[i]) is Some ==> (*run[i]->0).ok()
}

/// Where the pen is before glyph `n`. A glyph that could not be rendered
/// leaves the pen where it was.
pub open spec fn pen_at(run: Seq<Option<Arc<Glyph>>>, pen: (int, int), steps: Steps, n: int) -> (int, int)
    decreases n,
{
    if n <= 0 {
        pen
    } else {
        let (x, y) = pen_at(run, pen, steps, n - 1);
        match run[n - 1] {
            Some(g) => (x + steps.advance_x(n - 1, g.advance_px as int), y + steps.advance_y(n - 1)),
            None => (x, y),
        }
    }
}

/// The picture `p` after the first `n` glyphs of the run.
pub open spec fn drawn(
    p: Picture,
    c: Curves,
    fg: [u8; 3],
    aa: Aa,
    run: Seq<Option<Arc<Glyph>>>,
    pen: (int, int),
    steps: Steps,
    n: int,
) -> Picture
    decreases n,
{
    if n <= 0 {
        p
    } else {
        let q = drawn(p, c, fg, aa, run, pen, steps, n - 1);
        let (x, y) = pen_at(run, pen, steps, n - 1);
        match run[n - 1] {
            Some(g) => stamped(q, c, fg, *g, aa.lcd(), ft::bgr_order(aa), x, y),
            None => q,
        }
    }
}

/// Composite a run of rendered glyphs over the existing pixels of `canvas`.
/// `pen` is the baseline origin; `layout` carries the device's `lpDx` and
/// inter-character spacing. A glyph that could not be rendered is `None`.
pub fn draw_glyphs_onto(
    canvas: &mut Canvas,
    tables: &Tables,
    aa: Aa,
    ink: Ink,
    run: &[Option<Arc<Glyph>>],
    pen: (i32, i32),
    layout: Layout<'_>,
)
    requires
        old(canvas)@.ok(),
        run_ok(run@),
    ensures
        final(canvas)@ == drawn(
            old(canvas)@,
            tables@,
            ink.fg,
            aa,
            run@,
            (pen.0 as int, pen.1 as int),
            layout@,
            run@.len() as int,
        ),
        final(canvas)@.ok(),
{
    let ghost p = canvas@;
    let ghost start = (pen.0 as int, pen.1 as int);
    let mut pen_x: i128 = pen.0 as i128;
    let mut base_y: i128 = pen.1 as i128;
    let lcd: bool = aa.is_lcd();
    let bgr: bool = ft::is_bgr(aa);
    let mut i: usize = 0;
    while i < run.len()
        invariant
            i <= run@.len(),
            run_ok(run@),
            canvas@.ok(),
            lcd == aa.lcd(),
            bgr == ft::bgr_order(aa),
            (pen_x as int, base_y as int) == pen_at(run@, start, layout@, i as int),
            -0x1_0000_0000 * (i + 1) <= pen_x <= 0x1_0000_0000 * (i + 1),
            -0x1_0000_0000 * (i + 1) <= base_y <= 0x1_0000_0000 * (i + 1),
            canvas@ == drawn(p, tables@, ink.fg, aa, run@, start, layout@, i as int),
        decreases run@.len() - i,
    {
        match &run[i] {
            Some(g) => {
                assert(run@[i as int] == Some(*g));
                blit_glyph(canvas, &Blit { tables, ink, pen_x, base_y, lcd, bgr }, g);
                let (ax, ay): (i64, i64) = layout.advance_wide(i, g.advance_px);
                pen_x = pen_x + ax as i128;
                base_y = base_y + ay as i128;
            },
            None => {},
        }
        i = i + 1;
    }
}

/// Render a run onto a fresh `bg`-filled canvas. `pen` is the baseline origin
/// (x, y).
pub fn render_glyphs(
    tables: &Tables,
    aa: Aa,
    ink: Ink,
    bg: [u8; 3],
    run: &[Option<Arc<Glyph>>],
    pen: (i32, i32),
    size: (usize, usize),
) -> (r: Canvas)
    requires
        size.0 * size.1 * 3 <= usize::MAX,
        run_ok(run@),
    ensures
        r@ == drawn(
            Picture {
                w: size.0 as int,
                h: size.1 as int,
                rgb: canvas::solid(size.0 as int, size.1 as int, bg),
                clip: None,
            },
            tables@,
            ink.fg,
            aa,
            run@,
            (pen.0 as int, pen.1 as int),
            layout::plain(),
            run@.len() as int,
        ),
        r@.ok(),
{
    let mut canvas: Canvas = Canvas::filled(size.0, size.1, bg);
    draw_glyphs_onto(&mut canvas, tables, aa, ink, run, pen, Layout { dx: None, extra: 0, pdy: false });
    canvas
}

// ---- runs of placed glyphs ----

/// A glyph index at a device-pixel origin (where its baseline starts).
#[derive(Clone, Copy, Debug, PartialEq, Eq, Structural)]
pub struct Placed {
    pub gi: u16,
    pub x: i32,
    pub y: i32,
}

/// One rasterised glyph of a run and where it goes.
pub struct PlacedGlyph {
    pub at: Placed,
    pub g: Arc<Glyph>,
}

/// A run rasterised once: its glyph bitmaps and the union of where they land.
pub struct RenderedRun {
    pub glyphs: Vec<PlacedGlyph>,
    /// Ink bounds in the glyphs' pixel space; `None` when nothing has ink.
    pub bounds: Option<Rect>,
}

/// The smallest rectangle around `b` and, where there is one, `a`.
pub open spec fn united(a: Option<Rect>, b: Rect) -> Rect {
    match a {
        None => b,
        Some(a) => (numbers::lesser(a.0, b.0), numbers::lesser(a.1, b.1), numbers::greater(a.2, b.2), numbers::greater(a.3, b.3)),
    }
}

/// The smallest rectangle around `b` and, where there is one, `a`.
pub fn union(a: Option<Rect>, b: Rect) -> (r: Rect)
    ensures
        r == united(a, b),
{
    match a {
        None => b,
        Some(a) => (
            if b.0 < a.0 {
                b.0
            } else {
                a.0
            },
            if b.1 < a.1 {
                b.1
            } else {
                a.1
            },
            if b.2 > a.2 {
                b.2
            } else {
                a.2
            },
            if b.3 > a.3 {
                b.3
            } else {
                a.3
            },
        ),
    }
}

/// Glyph `g` placed at `at` lies within the pixels that can be numbered.
pub open spec fn placeable(g: Glyph, at: Placed) -> bool {
    let (l, t) = (at.x + g.left, at.y - g.top);
    &&& i32::MIN <= l
    &&& l + pixel_width(g) <= i32::MAX
    &&& i32::MIN <= t
    &&& t + g.rows <= i32::MAX
}

/// Where glyph `g` placed at `at` covers, in the same pixel space as `at`.
pub open spec fn covered(g: Glyph, at: Placed) -> Rect {
    let (l, t) = (at.x + g.left, at.y - g.top);
    (l as i32, t as i32, (l + pixel_width(g)) as i32, (t + g.rows) as i32)
}

/// Pixel (`x`, `y`) lies in the placed glyph's bitmap.
pub open spec fn covers(pg: PlacedGlyph, x: int, y: int) -> bool {
    canvas::inside(covered(*pg.g, pg.at), x, y)
}

/// Does glyph `g` placed at `at` lie within the pixels that can be numbered?
pub fn is_placeable(g: &Glyph, at: &Placed) -> (r: bool)
    requires
        g.ok(),
    ensures
        r == placeable(*g, *at),
{
    let w: i32 = if g.pixel_mode == PIXEL_MODE_LCD {
        g.width / 3
    } else {
        g.width
    };
    let l: i64 = at.x as i64 + g.left as i64;
    let t: i64 = at.y as i64 - g.top as i64;
    i32::MIN as i64 <= l && l + w as i64 <= i32::MAX as i64 && i32::MIN as i64 <= t && t + g.rows as i64
        <= i32::MAX as i64
}

fn glyph_rect(g: &Glyph, at: &Placed) -> (r: Option<Rect>)
    requires
        g.ok(),
        placeable(*g, *at),
    ensures
        r == (if g.inked() {
            Some(covered(*g, *at))
        } else {
            None
        }),
{
    if g.rows == 0 || g.buffer.len() == 0 {
        return None;
    }
    let w: i32 = if g.pixel_mode == PIXEL_MODE_LCD {
        g.width / 3
    } else {
        g.width
    };
    let l: i64 = at.x as i64 + g.left as i64;
    let t: i64 = at.y as i64 - g.top as i64;
    Some((l as i32, t as i32, (l + w as i64) as i32, (t + g.rows as i64) as i32))
}

/// Glyph `i` of the run was rendered, and to something.
pub open spec fn kept(run: Seq<Option<Arc<Glyph>>>, i: int) -> bool {
    match run[i] {
        Some(g) => g.inked(),
        None => false,
    }
}

/// The glyphs with ink among the first `n`, where they go.
pub open spec fn gathered(places: Seq<Placed>, run: Seq<Option<Arc<Glyph>>>, n: int) -> Seq<PlacedGlyph>
    decreases n,
{
    if n <= 0 {
        seq![]
    } else if kept(run, n - 1) {
        gathered(places, run, n - 1).push(PlacedGlyph { at: places[n - 1], g: run[n - 1]->0 })
    } else {
        gathered(places, run, n - 1)
    }
}

/// The smallest rectangle around the first `n` glyphs.
pub open spec fn bounds_of(glyphs: Seq<PlacedGlyph>, n: int) -> Option<Rect>
    decreases n,
{
    if n <= 0 {
        None
    } else {
        Some(united(bounds_of(glyphs, n - 1), covered(*glyphs[n - 1].g, glyphs[n - 1].at)))
    }
}

proof fn bounds_of_prefix(a: Seq<PlacedGlyph>, b: Seq<PlacedGlyph>, n: int)
    requires
        n <= a.len(),
        n <= b.len(),
        forall|i: int| 0 <= i < n ==> a[i] == b[i],
    ensures
        bounds_of(a, n) == bounds_of(b, n),
    decreases n,
{
    if n > 0 {
        bounds_of_prefix(a, b, n - 1);
    }
}

impl RenderedRun {
    /// Glyphs with ink only, and their bounds.
    pub open spec fn ok(self) -> bool {
        &&& forall|i: int|
            0 <= i < self.glyphs@.len() ==> (*(#[trigger] self.glyphs@[i]).g).ok() && (*self.glyphs@[i].g).inked()
        &&& self.bounds == bounds_of(self.glyphs@, self.glyphs@.len() as int)
    }
}

/// Take a run as rendered (`None` for a glyph that could not be) and where
/// each of its glyphs goes; the glyphs without ink are left out.
pub fn render_placed(places: &[Placed], run: Vec<Option<Arc<Glyph>>>) -> (r: RenderedRun)
    requires
        places@.len() == run@.len(),
        run_ok(run@),
        forall|i: int| 0 <= i < run@.len() && (#[trigger] run@[i]) is Some ==> placeable(*run@[i]->0, places@[i]),
    ensures
        r.ok(),
        r.glyphs@ == gathered(places@, run@, run@.len() as int),
{
    let ghost whole = run@;
    let mut run: Vec<Option<Arc<Glyph>>> = run;
    let mut out: Vec<PlacedGlyph> = Vec::new();
    let mut bounds: Option<Rect> = None;
    let mut i: usize = 0;
    while i < places.len()
        invariant
            i <= places@.len(),
            places@.len() == run@.len(),
            run@.len() == whole.len(),
            run_ok(whole),
            forall|j: int| i <= j < run@.len() ==> run@[j] == whole[j],
            forall|j: int|
                0 <= j < whole.len() && (#[trigger] whole[j]) is Some ==> placeable(*whole[j]->0, places@[j]),
            out@ == gathered(places@, whole, i as int),
            bounds == bounds_of(out@, out@.len() as int),
            forall|j: int| 0 <= j < out@.len() ==> (*(#[trigger] out@[j]).g).ok() && (*out@[j].g).inked(),
        decreases places@.len() - i,
    {
        let taken: Option<Arc<Glyph>> = run[i].take();
        match taken {
            Some(g) => {
                assert(whole[i as int] == Some(g));
                let at: Placed = places[i];
                match glyph_rect(&g, &at) {
                    Some(r) => {
                        bounds = Some(union(bounds, r));
                        let ghost before = out@;
                        out.push(PlacedGlyph { at, g });
                        proof {
                            bounds_of_prefix(before, out@, before.len() as int);
                        }
                    },
                    None => {},
                }
            },
            None => {},
        }
        i = i + 1;
    }
    RenderedRun { glyphs: out, bounds }
}

/// The picture `p` after the first `n` glyphs of a placed run, with the
/// picture's top-left pixel at `origin`.
pub open spec fn run_drawn(
    p: Picture,
    origin: (int, int),
    c: Curves,
    fg: [u8; 3],
    aa: Aa,
    glyphs: Seq<PlacedGlyph>,
    n: int,
) -> Picture
    decreases n,
{
    if n <= 0 {
        p
    } else {
        let PlacedGlyph { at, g } = glyphs[n - 1];
        stamped(
            run_drawn(p, origin, c, fg, aa, glyphs, n - 1),
            c,
            fg,
            *g,
            aa.lcd(),
            ft::bgr_order(aa),
            at.x - origin.0,
            at.y - origin.1,
        )
    }
}

impl RenderedRun {
    /// Composite the run over `canvas`, whose top-left pixel sits at `origin`
    /// in the glyphs' pixel space. `aa` must be the mode it was rendered in
    /// (it picks the greyscale or LCD blend and the subpixel order).
    pub fn draw_onto(&self, canvas: &mut Canvas, origin: (i32, i32), tables: &Tables, aa: Aa, ink: Ink)
        requires
            self.ok(),
            old(canvas)@.ok(),
        ensures
            final(canvas)@ == run_drawn(
                old(canvas)@,
                (origin.0 as int, origin.1 as int),
                tables@,
                ink.fg,
                aa,
                self.glyphs@,
                self.glyphs@.len() as int,
            ),
            final(canvas)@.ok(),
    {
        let ghost p = canvas@;
        let ghost o = (origin.0 as int, origin.1 as int);
        let lcd: bool = aa.is_lcd();
        let bgr: bool = ft::is_bgr(aa);
        let mut i: usize = 0;
        while i < self.glyphs.len()
            invariant
                i <= self.glyphs@.len(),
                self.ok(),
                canvas@.ok(),
                lcd == aa.lcd(),
                bgr == ft::bgr_order(aa),
                o == (origin.0 as int, origin.1 as int),
                canvas@ == run_drawn(p, o, tables@, ink.fg, aa, self.glyphs@, i as int),
            decreases self.glyphs@.len() - i,
        {
            let pg: &PlacedGlyph = &self.glyphs[i];
            assert(self.glyphs@[i as int] == *pg);
            let pen_x: i128 = pg.at.x as i128 - origin.0 as i128;
            let base_y: i128 = pg.at.y as i128 - origin.1 as i128;
            blit_glyph(canvas, &Blit { tables, ink, pen_x, base_y, lcd, bgr }, &pg.g);
            i = i + 1;
        }
    }
}

// ---- laws ----

/// A grey glyph is drawn pixel by pixel: byte `col` of row `row` of its bitmap
/// is the coverage of the ink `col` pixels to the right of the bitmap's left
/// edge and `row` lines below its top edge, which lie at the pen moved right
/// by `left` and up by `top`. All three channels get it; nothing covered is
/// nothing drawn.
pub proof fn a_grey_glyph_is_drawn_byte_by_byte(
    p: Picture,
    c: Curves,
    fg: [u8; 3],
    g: Arc<Glyph>,
    pen: (int, int),
    steps: Steps,
    row: int,
    col: int,
    k: int,
)
    requires
        p.ok(),
        g.pixel_mode == 2,
        g.buffer@.len() > 0,
        0 <= row < g.rows,
        0 <= col < g.width,
        0 <= k < 3,
        0 <= pen.0 + g.left + col < p.w,
        0 <= pen.1 - g.top + row < p.h,
        p.clip matches Some(r) ==> r.0 <= pen.0 + g.left + col < r.2 && r.1 <= pen.1 - g.top + row < r.3,
    ensures
        ({
            let i = ((pen.1 - g.top + row) * p.w + (pen.0 + g.left + col)) * 3 + k;
            let cov = g.buffer@[row * g.pitch + col];
            drawn(p, c, fg, Aa::Grey, seq![Some(g)], pen, steps, 1).rgb[i] == (if cov == 0 {
                p.rgb[i]
            } else {
                c.blended(p.rgb[i], fg[k], cov)
            })
        }),
{
    canvas::offset_parts(pen.0 + g.left + col, pen.1 - g.top + row, k, p.w, p.h, 3);
    one_glyph(p, c, fg, Aa::Grey, g, pen, steps);
}

/// An LCD glyph is drawn pixel by pixel: pixel `col` of row `row` has the
/// three bytes from `3 * col` on in that row of the bitmap, and shows `col`
/// pixels to the right of the bitmap's left edge and `row` lines below its top
/// edge. In a mode with the order BGR the bytes are the coverage of the red,
/// the green and the blue channel in turn, in the order RGB the other way
/// round. Where all three are nothing, nothing is drawn.
pub proof fn an_lcd_glyph_is_drawn_byte_by_byte(
    p: Picture,
    c: Curves,
    fg: [u8; 3],
    aa: Aa,
    g: Arc<Glyph>,
    pen: (int, int),
    steps: Steps,
    row: int,
    col: int,
    k: int,
)
    requires
        p.ok(),
        aa != Aa::Grey,
        g.pixel_mode == 5,
        g.buffer@.len() > 0,
        0 <= row < g.rows,
        0 <= col,
        3 * col + 3 <= g.width,
        0 <= k < 3,
        0 <= pen.0 + g.left + col < p.w,
        0 <= pen.1 - g.top + row < p.h,
        p.clip matches Some(r) ==> r.0 <= pen.0 + g.left + col < r.2 && r.1 <= pen.1 - g.top + row < r.3,
    ensures
        ({
            let i = ((pen.1 - g.top + row) * p.w + (pen.0 + g.left + col)) * 3 + k;
            let first = row * g.pitch + 3 * col;
            let cov = if aa == Aa::LcdBgr || aa == Aa::LightLcdBgr {
                g.buffer@[first + k]
            } else {
                g.buffer@[first + 2 - k]
            };
            drawn(p, c, fg, aa, seq![Some(g)], pen, steps, 1).rgb[i] == (if g.buffer@[first] == 0 && g.buffer@[first
                + 1] == 0 && g.buffer@[first + 2] == 0 {
                p.rgb[i]
            } else {
                c.blended(p.rgb[i], fg[k], cov)
            })
        }),
{
    canvas::offset_parts(pen.0 + g.left + col, pen.1 - g.top + row, k, p.w, p.h, 3);
    one_glyph(p, c, fg, aa, g, pen, steps);
}

/// A glyph changes nothing but the pixels of its bitmap, and those only where
/// they are in the clip and the bitmap is one for the mode: grey for
/// greyscale, LCD for the others.
pub proof fn a_glyph_changes_only_its_own_pixels(
    p: Picture,
    c: Curves,
    fg: [u8; 3],
    aa: Aa,
    g: Arc<Glyph>,
    pen: (int, int),
    steps: Steps,
    x: int,
    y: int,
    k: int,
)
    requires
        p.ok(),
        0 <= x < p.w,
        0 <= y < p.h,
        0 <= k < 3,
        ({
            let (col, row) = (x - pen.0 - g.left, y - pen.1 + g.top);
            let bytes = if g.pixel_mode == 5 {
                3 * col + 3
            } else {
                col + 1
            };
            ||| row < 0 || row >= g.rows || col < 0 || bytes > g.width
            ||| p.clip matches Some(r) && !(r.0 <= x < r.2 && r.1 <= y < r.3)
            ||| g.pixel_mode != (if aa == Aa::Grey {
                2int
            } else {
                5
            })
        }),
    ensures
        ({
            let i = (y * p.w + x) * 3 + k;
            drawn(p, c, fg, aa, seq![Some(g)], pen, steps, 1).rgb[i] == p.rgb[i]
        }),
{
    canvas::offset_parts(x, y, k, p.w, p.h, 3);
    one_glyph(p, c, fg, aa, g, pen, steps);
}

proof fn one_glyph(p: Picture, c: Curves, fg: [u8; 3], aa: Aa, g: Arc<Glyph>, pen: (int, int), steps: Steps)
    ensures
        drawn(p, c, fg, aa, seq![Some(g)], pen, steps, 1) == stamped(
            p,
            c,
            fg,
            *g,
            aa.lcd(),
            ft::bgr_order(aa),
            pen.0,
            pen.1,
        ),
{
    let run = seq![Some(g)];
    assert(drawn(p, c, fg, aa, run, pen, steps, 0) == p);
    assert(pen_at(run, pen, steps, 0) == pen);
}

/// A run is drawn from its first glyph on: what follows is drawn over that
/// one, from a pen moved by its advance. That is the glyph's own, or the first
/// entry of `dx` where there is one, and the spacing on top; with pairs in
/// `dx` the second of them moves the pen up.
pub proof fn a_run_goes_on_from_the_moved_pen(
    p: Picture,
    c: Curves,
    fg: [u8; 3],
    aa: Aa,
    first: Arc<Glyph>,
    rest: Seq<Option<Arc<Glyph>>>,
    pen: (int, int),
    steps: Steps,
    later: Steps,
)
    requires
        later.extra == steps.extra,
        later.pdy == steps.pdy,
        match (steps.dx, later.dx) {
            (Some(d), Some(l)) => d.len() >= (if steps.pdy {
                2int
            } else {
                1
            }) && l == d.skip(
                if steps.pdy {
                    2
                } else {
                    1
                },
            ),
            (None, None) => true,
            _ => false,
        },
    ensures
        ({
            let run = seq![Some(first)] + rest;
            let moved = match steps.dx {
                Some(d) => if steps.pdy {
                    (pen.0 + d[0] + steps.extra, pen.1 - d[1])
                } else {
                    (pen.0 + d[0] + steps.extra, pen.1)
                },
                None => (pen.0 + first.advance_px + steps.extra, pen.1),
            };
            let alone = drawn(p, c, fg, aa, seq![Some(first)], pen, steps, 1);
            drawn(p, c, fg, aa, run, pen, steps, run.len() as int) == drawn(
                alone,
                c,
                fg,
                aa,
                rest,
                moved,
                later,
                rest.len() as int,
            )
        }),
{
    let run = seq![Some(first)] + rest;
    let moved = pen_at(run, pen, steps, 1);
    assert(run[0] == Some(first));
    assert(pen_at(run, pen, steps, 0) == pen);
    assert(0 * steps.step() == 0);
    assert(steps.advance_x(0, first.advance_px as int) == moved.0 - pen.0);
    one_glyph(p, c, fg, aa, first, pen, steps);
    assert(drawn(p, c, fg, aa, run, pen, steps, 0) == p);
    assert(drawn(p, c, fg, aa, run, pen, steps, 1) == stamped(
        p,
        c,
        fg,
        *first,
        aa.lcd(),
        ft::bgr_order(aa),
        pen.0,
        pen.1,
    ));
    rest_follows(p, c, fg, aa, first, rest, pen, steps, later, rest.len() as int);
}

proof fn rest_follows(
    p: Picture,
    c: Curves,
    fg: [u8; 3],
    aa: Aa,
    first: Arc<Glyph>,
    rest: Seq<Option<Arc<Glyph>>>,
    pen: (int, int),
    steps: Steps,
    later: Steps,
    n: int,
)
    requires
        0 <= n <= rest.len(),
        later.extra == steps.extra,
        later.pdy == steps.pdy,
        match (steps.dx, later.dx) {
            (Some(d), Some(l)) => d.len() >= steps.step() && l == d.skip(steps.step()),
            (None, None) => true,
            _ => false,
        },
    ensures
        ({
            let run = seq![Some(first)] + rest;
            let moved = pen_at(run, pen, steps, 1);
            &&& pen_at(run, pen, steps, n + 1) == pen_at(rest, moved, later, n)
            &&& drawn(p, c, fg, aa, run, pen, steps, n + 1) == drawn(
                drawn(p, c, fg, aa, run, pen, steps, 1),
                c,
                fg,
                aa,
                rest,
                moved,
                later,
                n,
            )
        }),
    decreases n,
{
    if n > 0 {
        rest_follows(p, c, fg, aa, first, rest, pen, steps, later, n - 1);
        let run = seq![Some(first)] + rest;
        assert(run[n] == rest[n - 1]);
        assert(n * steps.step() == (n - 1) * steps.step() + steps.step()) by (nonlinear_arith);
        match (steps.dx, later.dx) {
            (Some(d), Some(l)) => {
                assert(layout::entry(later.dx, (n - 1) * later.step()) == layout::entry(steps.dx, n * steps.step())) by {
                    assert((n - 1) * steps.step() >= 0) by (nonlinear_arith)
                        requires
                            n >= 1,
                            steps.step() >= 0,
                    ;
                }
                if steps.pdy {
                    assert(layout::entry(later.dx, (n - 1) * 2 + 1) == layout::entry(steps.dx, n * 2 + 1));
                }
            },
            _ => {},
        }
    }
}

/// A glyph that could not be rendered is not drawn. Where `dx` has no advances
/// the run is as if it were not there.
pub proof fn a_missing_glyph_is_passed_over(
    p: Picture,
    c: Curves,
    fg: [u8; 3],
    aa: Aa,
    run: Seq<Option<Arc<Glyph>>>,
    pen: (int, int),
    steps: Steps,
)
    requires
        run.len() > 0,
        run.last() is None,
    ensures
        drawn(p, c, fg, aa, run, pen, steps, run.len() as int) == drawn(
            p,
            c,
            fg,
            aa,
            run.drop_last(),
            pen,
            steps,
            run.len() - 1,
        ),
{
    same_beginning(p, c, fg, aa, run, run.drop_last(), pen, steps, run.len() - 1);
}

proof fn same_beginning(
    p: Picture,
    c: Curves,
    fg: [u8; 3],
    aa: Aa,
    a: Seq<Option<Arc<Glyph>>>,
    b: Seq<Option<Arc<Glyph>>>,
    pen: (int, int),
    steps: Steps,
    n: int,
)
    requires
        n <= a.len(),
        n <= b.len(),
        forall|i: int| 0 <= i < n ==> a[i] == b[i],
    ensures
        pen_at(a, pen, steps, n) == pen_at(b, pen, steps, n),
        drawn(p, c, fg, aa, a, pen, steps, n) == drawn(p, c, fg, aa, b, pen, steps, n),
    decreases n,
{
    if n > 0 {
        same_beginning(p, c, fg, aa, a, b, pen, steps, n - 1);
    }
}

/// A placed run is drawn glyph after glyph, each as it would be at a pen that
/// stands at its place, seen from the picture's corner.
pub proof fn placed_glyphs_are_drawn_at_their_places(
    p: Picture,
    origin: (int, int),
    c: Curves,
    fg: [u8; 3],
    aa: Aa,
    glyphs: Seq<PlacedGlyph>,
    last: PlacedGlyph,
    steps: Steps,
)
    ensures
        run_drawn(p, origin, c, fg, aa, seq![], 0) == p,
        run_drawn(p, origin, c, fg, aa, glyphs.push(last), glyphs.len() as int + 1) == drawn(
            run_drawn(p, origin, c, fg, aa, glyphs, glyphs.len() as int),
            c,
            fg,
            aa,
            seq![Some(last.g)],
            (last.at.x - origin.0, last.at.y - origin.1),
            steps,
            1,
        ),
{
    let before = run_drawn(p, origin, c, fg, aa, glyphs, glyphs.len() as int);
    same_placed(p, origin, c, fg, aa, glyphs.push(last), glyphs, glyphs.len() as int);
    one_glyph(before, c, fg, aa, last.g, (last.at.x - origin.0, last.at.y - origin.1), steps);
}

proof fn same_placed(
    p: Picture,
    origin: (int, int),
    c: Curves,
    fg: [u8; 3],
    aa: Aa,
    a: Seq<PlacedGlyph>,
    b: Seq<PlacedGlyph>,
    n: int,
)
    requires
        n <= a.len(),
        n <= b.len(),
        forall|i: int| 0 <= i < n ==> a[i] == b[i],
    ensures
        run_drawn(p, origin, c, fg, aa, a, n) == run_drawn(p, origin, c, fg, aa, b, n),
    decreases n,
{
    if n > 0 {
        same_placed(p, origin, c, fg, aa, a, b, n - 1);
    }
}

/// What a run keeps: every glyph that has a bitmap, at its own place, and
/// nothing else.
pub proof fn glyphs_with_ink_are_kept(places: Seq<Placed>, run: Seq<Option<Arc<Glyph>>>, n: int, j: int)
    requires
        0 <= n <= run.len(),
        places.len() == run.len(),
    ensures
        0 <= j < n && run[j] is Some && run[j]->0.rows != 0 && run[j]->0.buffer@.len() != 0 ==> gathered(
            places,
            run,
            n,
        ).contains(PlacedGlyph { at: places[j], g: run[j]->0 }),
        0 <= j < gathered(places, run, n).len() ==> exists|i: int|
            0 <= i < n && #[trigger] run[i] == Some(gathered(places, run, n)[j].g) && places[i] == gathered(
                places,
                run,
                n,
            )[j].at && run[i]->0.rows != 0 && run[i]->0.buffer@.len() != 0,
    decreases n,
{
    if n > 0 {
        glyphs_with_ink_are_kept(places, run, n - 1, j);
        let now = gathered(places, run, n);
        let was = gathered(places, run, n - 1);
        if 0 <= j < n && run[j] is Some && run[j]->0.rows != 0 && run[j]->0.buffer@.len() != 0 {
            let pg = PlacedGlyph { at: places[j], g: run[j]->0 };
            if j == n - 1 {
                assert(now.last() == pg);
            } else {
                let at = choose|at: int| 0 <= at < was.len() && was[at] == pg;
                assert(now[at] == pg);
            }
        }
        if 0 <= j < now.len() {
            if kept(run, n - 1) && j == now.len() - 1 {
                assert(run[n - 1] == Some(now[j].g));
            } else {
                assert(now[j] == was[j]);
                let i = choose|i: int|
                    0 <= i < n - 1 && #[trigger] run[i] == Some(was[j].g) && places[i] == was[j].at && run[i]->0.rows
                        != 0 && run[i]->0.buffer@.len() != 0;
                assert(run[i] == Some(now[j].g));
            }
        }
    }
}

/// The bounds of one glyph are those of its bitmap at its place; those of a
/// run are the union with the bounds of what came before.
pub proof fn bounds_are_those_of_the_bitmaps(glyphs: Seq<PlacedGlyph>, last: PlacedGlyph)
    requires
        placeable(*last.g, last.at),
    ensures
        ({
            let (left, top) = (last.at.x + last.g.left, last.at.y - last.g.top);
            let width = if last.g.pixel_mode == 5 {
                last.g.width as int / 3
            } else {
                last.g.width as int
            };
            let own = (left as i32, top as i32, (left + width) as i32, (top + last.g.rows) as i32);
            &&& bounds_of(seq![last], 1) == Some(own)
            &&& bounds_of(glyphs.push(last), glyphs.len() as int + 1) == Some(
                united(bounds_of(glyphs, glyphs.len() as int), own),
            )
        }),
{
    bounds_of_prefix(glyphs.push(last), glyphs, glyphs.len() as int);
    assert(bounds_of(seq![last], 0) is None);
}

/// Drawing a run changes neither the size nor the clip of a picture, and no
/// pixel that lies outside it or outside its clip.
pub proof fn drawing_stays_in_the_clip(
    p: Picture,
    c: Curves,
    fg: [u8; 3],
    aa: Aa,
    run: Seq<Option<Arc<Glyph>>>,
    pen: (int, int),
    steps: Steps,
    n: int,
    i: int,
)
    requires
        p.ok(),
        0 <= i < p.rgb.len(),
    ensures
        ({
            let q = drawn(p, c, fg, aa, run, pen, steps, n);
            &&& q.w == p.w && q.h == p.h && q.clip == p.clip && q.rgb.len() == p.rgb.len()
            &&& !p.reaches(p.x(i), p.y(i)) ==> q.rgb[i] == p.rgb[i]
        }),
    decreases n,
{
    if n > 0 {
        drawing_stays_in_the_clip(p, c, fg, aa, run, pen, steps, n - 1, i);
    }
}

/// The union of two rectangles is the least one that holds both: no side goes
/// further than it must. Their order does not matter, and a rectangle with
/// itself is itself; with nothing, too.
pub proof fn a_union_is_the_least_around_both(a: Rect, b: Rect)
    ensures
        ({
            let u = united(Some(a), b);
            &&& u.0 <= a.0 && u.0 <= b.0 && (u.0 == a.0 || u.0 == b.0)
            &&& u.1 <= a.1 && u.1 <= b.1 && (u.1 == a.1 || u.1 == b.1)
            &&& u.2 >= a.2 && u.2 >= b.2 && (u.2 == a.2 || u.2 == b.2)
            &&& u.3 >= a.3 && u.3 >= b.3 && (u.3 == a.3 || u.3 == b.3)
        }),
        united(Some(a), b) == united(Some(b), a),
        united(Some(a), a) == a,
        united(None, b) == b,
{
}

/// The bounds of a run hold every pixel of every glyph in it.
pub proof fn bounds_hold_every_glyph(glyphs: Seq<PlacedGlyph>, n: int, j: int, x: int, y: int)
    requires
        0 <= j < n <= glyphs.len(),
        covers(glyphs[j], x, y),
    ensures
        bounds_of(glyphs, n) is Some,
        canvas::inside(bounds_of(glyphs, n)->0, x, y),
    decreases n,
{
    if j < n - 1 {
        bounds_hold_every_glyph(glyphs, n - 1, j, x, y);
    }
}

/// A pixel outside a run's bounds is left as it was by drawing the run.
pub proof fn drawing_stays_in_the_bounds(
    p: Picture,
    origin: (int, int),
    c: Curves,
    fg: [u8; 3],
    aa: Aa,
    glyphs: Seq<PlacedGlyph>,
    n: int,
    i: int,
)
    requires
        p.ok(),
        0 <= i < p.rgb.len(),
        0 <= n <= glyphs.len(),
        forall|j: int| 0 <= j < n ==> #[trigger] placeable(*glyphs[j].g, glyphs[j].at),
        bounds_of(glyphs, n) is Some ==> !canvas::inside(
            bounds_of(glyphs, n)->0,
            p.x(i) + origin.0,
            p.y(i) + origin.1,
        ),
    ensures
        run_drawn(p, origin, c, fg, aa, glyphs, n).rgb[i] == p.rgb[i],
        run_drawn(p, origin, c, fg, aa, glyphs, n).rgb.len() == p.rgb.len(),
        run_drawn(p, origin, c, fg, aa, glyphs, n).w == p.w,
        run_drawn(p, origin, c, fg, aa, glyphs, n).h == p.h,
        run_drawn(p, origin, c, fg, aa, glyphs, n).clip == p.clip,
    decreases n,
{
    if n > 0 {
        assert(placeable(*glyphs[n - 1].g, glyphs[n - 1].at));
        let (x, y) = (p.x(i) + origin.0, p.y(i) + origin.1);
        if covers(glyphs[n - 1], x, y) {
            bounds_hold_every_glyph(glyphs, n, n - 1, x, y);
        }
        drawing_stays_in_the_bounds(p, origin, c, fg, aa, glyphs, n - 1, i);
    }
}

} // verus!
