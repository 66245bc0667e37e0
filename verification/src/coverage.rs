//! Raw coverage of a run, for a caller that composites it itself
//! (`IDWriteGlyphRunAnalysis::CreateAlphaTexture`).

use std::sync::Arc;

use vstd::prelude::*;

use crate::canvas;
use crate::canvas::Rect;
use crate::ft::{Glyph, PIXEL_MODE_LCD};
use crate::layout;
use crate::numbers;
use crate::render;
use crate::render::{PlacedGlyph, RenderedRun};

verus! {

fn larger_of(a: u8, b: u8) -> (r: u8)
    ensures
        r == numbers::larger(a, b),
{
    if b > a {
        b
    } else {
        a
    }
}

/// Channel `k` of pixel (`col`, `row`) of `g` in a texture of `channels`
/// bytes per pixel: three hold the subpixels of an LCD glyph, or a grey
/// glyph's coverage three times; otherwise the first holds the mean.
pub open spec fn texel(g: Glyph, col: int, row: int, channels: int, bgr: bool, k: int) -> u8 {
    if !(0 <= row < g.rows && 0 <= col < render::pixel_width(g)) {
        0
    } else if g.pixel_mode == PIXEL_MODE_LCD {
        let (a, b, c) = render::subpixels(g, row, col, bgr);
        if channels == 3 {
            if k == 0 {
                a
            } else if k == 1 {
                b
            } else {
                c
            }
        } else if k == 0 {
            ((a + b + c) / 3) as u8
        } else {
            0
        }
    } else if channels == 3 || k == 0 {
        g.byte(row, col)
    } else {
        0
    }
}

/// Byte `i` of a texture `w` pixels wide that holds only `g`, with the
/// bitmap's top-left pixel at (`left`, `top`).
pub open spec fn glyph_texel(g: Glyph, left: int, top: int, w: int, channels: int, bgr: bool, i: int) -> u8 {
    texel(g, canvas::column(i, w, channels) - left, canvas::line(i, w, channels) - top, channels, bgr, i % channels)
}

/// Byte `i` of the texture: the most that any of the first `n` glyphs has
/// there.
pub open spec fn covering(glyphs: Seq<PlacedGlyph>, n: int, rect: Rect, w: int, channels: int, bgr: bool, i: int) -> u8
    decreases n,
{
    if n <= 0 {
        0
    } else {
        numbers::larger(
            covering(glyphs, n - 1, rect, w, channels, bgr, i),
            glyph_texel(
                *glyphs[n - 1].g,
                glyphs[n - 1].at.x + glyphs[n - 1].g.left - rect.0,
                glyphs[n - 1].at.y - glyphs[n - 1].g.top - rect.1,
                w,
                channels,
                bgr,
                i,
            ),
        )
    }
}

/// The pixels between two edges.
pub open spec fn extent(from: i32, to: i32) -> int {
    if to > from {
        to - from
    } else {
        0
    }
}

pub(crate) fn extent_of(from: i32, to: i32) -> (r: usize)
    ensures
        r == extent(from, to),
{
    if to > from {
        (to as i64 - from as i64) as usize
    } else {
        0
    }
}

spec fn texel_before(x: int, y: int, row: int, col: int) -> bool {
    y < row || y == row && x < col
}

/// Raise the texture by one glyph, with the bitmap's top-left pixel at
/// (`gl`, `gt`).
fn cover_glyph(cov: &mut Vec<u8>, g: &Glyph, gl: i128, gt: i128, w: usize, h: usize, channels: usize, bgr: bool)
    requires
        -0x4000_0000_0000_0000_0000_0000_0000 <= gl <= 0x4000_0000_0000_0000_0000_0000_0000,
        -0x4000_0000_0000_0000_0000_0000_0000 <= gt <= 0x4000_0000_0000_0000_0000_0000_0000,
        channels >= 1,
        old(cov)@.len() == w * h * channels,
        g.ok(),
        g.inked(),
    ensures
        final(cov)@.len() == old(cov)@.len(),
        forall|i: int|
            0 <= i < old(cov)@.len() ==> #[trigger] final(cov)@[i] == numbers::larger(
                old(cov)@[i],
                glyph_texel(*g, gl as int, gt as int, w as int, channels as int, bgr, i),
            ),
{
    let ghost prev = cov@;
    let lcd: bool = g.pixel_mode == PIXEL_MODE_LCD;
    let gw: i32 = if lcd {
        g.width / 3
    } else {
        g.width
    };
    let ghost wi = w as int;
    let ghost ch = channels as int;
    let mut row: i32 = 0;
    while row < g.rows
        invariant
            0 <= row <= g.rows,
            g.ok(),
            g.inked(),
            lcd == (g.pixel_mode == PIXEL_MODE_LCD),
            gw == render::pixel_width(*g),
            0 <= gw,
            -0x4000_0000_0000_0000_0000_0000_0000 <= gl <= 0x4000_0000_0000_0000_0000_0000_0000,
            -0x4000_0000_0000_0000_0000_0000_0000 <= gt <= 0x4000_0000_0000_0000_0000_0000_0000,
            wi == w,
            ch == channels,
            channels >= 1,
            cov@.len() == prev.len(),
            prev.len() == w * h * channels,
            forall|i: int|
                0 <= i < prev.len() ==> #[trigger] cov@[i] == (if texel_before(
                    canvas::column(i, wi, ch) - gl,
                    canvas::line(i, wi, ch) - gt,
                    row as int,
                    0,
                ) {
                    numbers::larger(prev[i], glyph_texel(*g, gl as int, gt as int, wi, ch, bgr, i))
                } else {
                    prev[i]
                }),
        decreases g.rows - row,
    {
        let y: i128 = gt + row as i128;
        let mut col: i32 = 0;
        while col < gw
            invariant
                0 <= row < g.rows,
                0 <= col <= gw,
                g.ok(),
                g.inked(),
                    lcd == (g.pixel_mode == PIXEL_MODE_LCD),
                gw == render::pixel_width(*g),
                -0x4000_0000_0000_0000_0000_0000_0000 <= gl <= 0x4000_0000_0000_0000_0000_0000_0000,
                -0x4000_0000_0000_0000_0000_0000_0000 <= gt <= 0x4000_0000_0000_0000_0000_0000_0000,
                y == gt + row,
                wi == w,
                ch == channels,
                channels >= 1,
                cov@.len() == prev.len(),
                prev.len() == w * h * channels,
                forall|i: int|
                    0 <= i < prev.len() ==> #[trigger] cov@[i] == (if texel_before(
                        canvas::column(i, wi, ch) - gl,
                        canvas::line(i, wi, ch) - gt,
                        row as int,
                        col as int,
                    ) {
                        numbers::larger(prev[i], glyph_texel(*g, gl as int, gt as int, wi, ch, bgr, i))
                    } else {
                        prev[i]
                    }),
            decreases gw - col,
        {
            let x: i128 = gl + col as i128;
            let ghost before = cov@;
            if 0 <= y && y < h as i128 && 0 <= x && x < w as i128 {
                let (a, b, c): (u8, u8, u8) = if lcd {
                    let b0: u8 = g.byte_at(row, col * 3);
                    let b1: u8 = g.byte_at(row, col * 3 + 1);
                    let b2: u8 = g.byte_at(row, col * 3 + 2);
                    if bgr {
                        (b2, b1, b0)
                    } else {
                        (b0, b1, b2)
                    }
                } else {
                    let v: u8 = g.byte_at(row, col);
                    (v, v, v)
                };
                let o: usize = texel_at(x as usize, y as usize, w, h, channels, cov.len());
                if channels == 3 {
                    proof {
                        canvas::offset_parts(x as int, y as int, 1, wi, h as int, 3);
                        canvas::offset_parts(x as int, y as int, 2, wi, h as int, 3);
                    }
                    cov[o] = larger_of(cov[o], a);
                    cov[o + 1] = larger_of(cov[o + 1], b);
                    cov[o + 2] = larger_of(cov[o + 2], c);
                } else {
                    let v: u8 = if lcd {
                        ((a as u16 + b as u16 + c as u16) / 3) as u8
                    } else {
                        a
                    };
                    cov[o] = larger_of(cov[o], v);
                }
                proof {
                    canvas::offset_parts(x as int, y as int, 0, wi, h as int, ch);
                }
            }
            proof {
                assert forall|i: int| 0 <= i < prev.len() implies #[trigger] cov@[i] == (if texel_before(
                    canvas::column(i, wi, ch) - gl,
                    canvas::line(i, wi, ch) - gt,
                    row as int,
                    col + 1,
                ) {
                    numbers::larger(prev[i], glyph_texel(*g, gl as int, gt as int, wi, ch, bgr, i))
                } else {
                    prev[i]
                }) by {
                    canvas::position_parts(i, wi, h as int, ch);
                    assert(before[i] == before[i]);
                }
            }
            col = col + 1;
        }
        proof {
            assert forall|i: int| 0 <= i < prev.len() implies #[trigger] cov@[i] == (if texel_before(
                canvas::column(i, wi, ch) - gl,
                canvas::line(i, wi, ch) - gt,
                row + 1,
                0,
            ) {
                numbers::larger(prev[i], glyph_texel(*g, gl as int, gt as int, wi, ch, bgr, i))
            } else {
                prev[i]
            }) by {}
        }
        row = row + 1;
    }
}

/// Where the bytes of pixel (`x`, `y`) start.
fn texel_at(x: usize, y: usize, w: usize, h: usize, channels: usize, len: usize) -> (r: usize)
    requires
        x < w,
        y < h,
        channels >= 1,
        len == w * h * channels,
    ensures
        r == canvas::offset(x as int, y as int, 0, w as int, channels as int),
        r < len,
{
    proof {
        canvas::offset_parts(x as int, y as int, 0, w as int, h as int, channels as int);
        assert(y * w <= y * w + x <= (y * w + x) * channels) by (nonlinear_arith)
            requires
                x >= 0,
                y >= 0,
                w >= 0,
                channels >= 1,
        ;
    }
    (y * w + x) * channels
}

fn zeroes(n: usize) -> (r: Vec<u8>)
    ensures
        r@.len() == n,
        forall|i: int| 0 <= i < n ==> r@[i] == 0,
{
    vec![0u8; n]
}

impl RenderedRun {
    /// Raw coverage inside `rect` (the glyphs' pixel space), not blended.
    /// `channels` is 3 for a ClearType 3x1 texture (R, G, B per pixel in panel
    /// order; a greyscale glyph fills all three) or 1 for an aliased 1x1
    /// texture (LCD glyphs are averaged). `bgr` is the subpixel order.
    /// Overlapping glyphs keep the larger value.
    pub fn coverage(&self, rect: Rect, channels: usize, bgr: bool) -> (r: Vec<u8>)
        requires
            self.ok(),
            channels >= 1,
            extent(rect.0, rect.2) * extent(rect.1, rect.3) * channels <= usize::MAX,
        ensures
            r@.len() == extent(rect.0, rect.2) * extent(rect.1, rect.3) * channels,
            forall|i: int|
                0 <= i < r@.len() ==> #[trigger] r@[i] == covering(
                    self.glyphs@,
                    self.glyphs@.len() as int,
                    rect,
                    extent(rect.0, rect.2),
                    channels as int,
                    bgr,
                    i,
                ),
    {
        let w: usize = extent_of(rect.0, rect.2);
        let h: usize = extent_of(rect.1, rect.3);
        assert(w * h <= w * h * channels) by (nonlinear_arith)
            requires
                channels >= 1,
                w >= 0,
                h >= 0,
        ;
        let mut cov: Vec<u8> = zeroes(w * h * channels);
        let mut n: usize = 0;
        while n < self.glyphs.len()
            invariant
                n <= self.glyphs@.len(),
                self.ok(),
                channels >= 1,
                w == extent(rect.0, rect.2),
                h == extent(rect.1, rect.3),
                cov@.len() == w * h * channels,
                forall|i: int|
                    0 <= i < cov@.len() ==> #[trigger] cov@[i] == covering(
                        self.glyphs@,
                        n as int,
                        rect,
                        w as int,
                        channels as int,
                        bgr,
                        i,
                    ),
            decreases self.glyphs@.len() - n,
        {
            assert((*self.glyphs@[n as int].g).ok());
            let ghost before = cov@;
            let pg: &PlacedGlyph = &self.glyphs[n];
            let gl: i128 = pg.at.x as i128 + pg.g.left as i128 - rect.0 as i128;
            let gt: i128 = pg.at.y as i128 - pg.g.top as i128 - rect.1 as i128;
            cover_glyph(&mut cov, &pg.g, gl, gt, w, h, channels, bgr);
            proof {
                assert forall|i: int| 0 <= i < cov@.len() implies #[trigger] cov@[i] == covering(
                    self.glyphs@,
                    n + 1,
                    rect,
                    w as int,
                    channels as int,
                    bgr,
                    i,
                ) by {
                    assert(before[i] == before[i]);
                }
            }
            n = n + 1;
        }
        cov
    }
}

/// Byte `i` of the 3x1 texture of a run: the most that any of the first `n`
/// glyphs has there. Only LCD glyphs have subpixels to give.
pub open spec fn run_covering(run: Seq<Option<Arc<Glyph>>>, n: int, pen: (int, int), w: int, i: int) -> u8
    decreases n,
{
    if n <= 0 {
        0
    } else {
        let rest = run_covering(run, n - 1, pen, w, i);
        let (x, y) = render::pen_at(run, pen, layout::plain(), n - 1);
        match run[n - 1] {
            Some(g) => if g.pixel_mode == PIXEL_MODE_LCD && g.inked() {
                numbers::larger(rest, glyph_texel(*g, x + g.left, y - g.top, w, 3, false, i))
            } else {
                rest
            },
            None => rest,
        }
    }
}

/// Raw LCD subpixel coverage (three bytes per pixel, not blended) of a run
/// laid out by its own advances. `pen` is the baseline in buffer coordinates.
pub fn glyph_run_coverage_lcd(run: &[Option<Arc<Glyph>>], pen: (i32, i32), w: usize, h: usize) -> (r: Vec<u8>)
    requires
        w * h * 3 <= usize::MAX,
        render::run_ok(run@),
    ensures
        r@.len() == w * h * 3,
        forall|i: int|
            0 <= i < r@.len() ==> #[trigger] r@[i] == run_covering(
                run@,
                run@.len() as int,
                (pen.0 as int, pen.1 as int),
                w as int,
                i,
            ),
{
    assert(w * h <= w * h * 3) by (nonlinear_arith);
    let mut cov: Vec<u8> = zeroes(w * h * 3);
    let ghost start = (pen.0 as int, pen.1 as int);
    let mut pen_x: i128 = pen.0 as i128;
    let mut n: usize = 0;
    while n < run.len()
        invariant
            n <= run@.len(),
            render::run_ok(run@),
            start == (pen.0 as int, pen.1 as int),
            (pen_x as int, pen.1 as int) == render::pen_at(run@, start, layout::plain(), n as int),
            -0x8000_0000 * (n + 1) <= pen_x <= 0x8000_0000 * (n + 1),
            cov@.len() == w * h * 3,
            forall|i: int| 0 <= i < cov@.len() ==> #[trigger] cov@[i] == run_covering(run@, n as int, start, w as int, i),
        decreases run@.len() - n,
    {
        let ghost before = cov@;
        match &run[n] {
            Some(g) => {
                assert(run@[n as int] == Some(*g));
                if g.pixel_mode == PIXEL_MODE_LCD && g.rows > 0 && g.buffer.len() > 0 {
                    cover_glyph(&mut cov, g, pen_x + g.left as i128, pen.1 as i128 - g.top as i128, w, h, 3, false);
                }
                pen_x = pen_x + g.advance_px as i128;
            },
            None => {},
        }
        proof {
            assert forall|i: int| 0 <= i < cov@.len() implies #[trigger] cov@[i] == run_covering(
                run@,
                n + 1,
                start,
                w as int,
                i,
            ) by {
                assert(before[i] == before[i]);
            }
        }
        n = n + 1;
    }
    cov
}

// ---- laws ----

/// A glyph alone in a texture gives the bytes of its bitmap, each where the
/// bitmap lies in `rect`: byte `col` of row `row` of a grey one stands in all
/// three channels of a 3x1 texture, or in the first channel of another. Of an
/// LCD one the three bytes from `3 * col` on stand in the three channels, in
/// that order or, for BGR, in the other one; elsewhere their mean stands.
pub proof fn a_lone_glyph_gives_its_bytes(
    pg: PlacedGlyph,
    rect: Rect,
    w: int,
    h: int,
    channels: int,
    bgr: bool,
    row: int,
    col: int,
    k: int,
)
    requires
        pg.g.inked(),
        0 <= row < pg.g.rows,
        0 <= col,
        if pg.g.pixel_mode == 5 {
            3 * col + 2 < pg.g.width
        } else {
            col < pg.g.width
        },
        0 <= pg.at.x + pg.g.left + col - rect.0 < w,
        0 <= pg.at.y - pg.g.top + row - rect.1 < h,
        0 <= k < channels,
    ensures
        ({
            let (x, y) = (pg.at.x + pg.g.left + col - rect.0, pg.at.y - pg.g.top + row - rect.1);
            let got = covering(seq![pg], 1, rect, w, channels, bgr, (y * w + x) * channels + k);
            let bytes = pg.g.buffer@;
            let first = row * pg.g.pitch + 3 * col;
            if pg.g.pixel_mode != 5 {
                got == (if channels == 3 || k == 0 {
                    bytes[row * pg.g.pitch + col]
                } else {
                    0
                })
            } else if channels != 3 {
                got == (if k == 0 {
                    (bytes[first] + bytes[first + 1] + bytes[first + 2]) / 3
                } else {
                    0
                })
            } else if bgr {
                got == bytes[first + 2 - k]
            } else {
                got == bytes[first + k]
            }
        }),
{
    let (x, y) = (pg.at.x + pg.g.left + col - rect.0, pg.at.y - pg.g.top + row - rect.1);
    let i = canvas::offset(x, y, k, w, channels);
    canvas::offset_parts(x, y, k, w, h, channels);
    assert(covering(seq![pg], 0, rect, w, channels, bgr, i) == 0);
    assert(seq![pg][0] == pg);
    assert(col * 3 == 3 * col);
}

/// Around its bitmap a glyph gives nothing.
pub proof fn a_lone_glyph_gives_nothing_around_it(
    pg: PlacedGlyph,
    rect: Rect,
    w: int,
    h: int,
    channels: int,
    bgr: bool,
    x: int,
    y: int,
    k: int,
)
    requires
        0 <= x < w,
        0 <= y < h,
        0 <= k < channels,
        ({
            let across = x + rect.0 - pg.at.x - pg.g.left;
            let down = y + rect.1 - pg.at.y + pg.g.top;
            ||| across < 0
            ||| down < 0
            ||| down >= pg.g.rows
            ||| pg.g.pixel_mode == 5 && 3 * across + 2 >= pg.g.width
            ||| pg.g.pixel_mode != 5 && across >= pg.g.width
        }),
    ensures
        covering(seq![pg], 1, rect, w, channels, bgr, (y * w + x) * channels + k) == 0,
{
    let i = canvas::offset(x, y, k, w, channels);
    canvas::offset_parts(x, y, k, w, h, channels);
    assert(covering(seq![pg], 0, rect, w, channels, bgr, i) == 0);
    assert(seq![pg][0] == pg);
}

/// Over its own bounds, one byte per pixel, the texture of a grey glyph whose
/// rows follow each other without a gap is its bitmap.
pub proof fn a_grey_glyph_over_its_bounds_is_its_bitmap(pg: PlacedGlyph, rect: Rect, bgr: bool, i: int)
    requires
        pg.g.ok(),
        pg.g.inked(),
        pg.g.pixel_mode != 5,
        pg.g.pitch == pg.g.width,
        rect.0 == pg.at.x + pg.g.left,
        rect.1 == pg.at.y - pg.g.top,
        0 <= i < pg.g.width * pg.g.rows,
    ensures
        covering(seq![pg], 1, rect, pg.g.width as int, 1, bgr, i) == pg.g.buffer@[i],
{
    let (w, h) = (pg.g.width as int, pg.g.rows as int);
    canvas::position_parts(i, w, h, 1);
    let (col, row) = (i % w, i / w);
    vstd::arithmetic::div_mod::lemma_fundamental_div_mod(i, w);
    assert(w * row == row * w) by (nonlinear_arith);
    a_lone_glyph_gives_its_bytes(pg, rect, w, h, 1, bgr, row, col, 0);
}

/// A texture grows glyph by glyph: one more glyph leaves at each byte the
/// larger of what was there and what that glyph gives alone.
pub proof fn one_more_glyph_raises_a_texture(
    glyphs: Seq<PlacedGlyph>,
    last: PlacedGlyph,
    rect: Rect,
    w: int,
    channels: int,
    bgr: bool,
    i: int,
)
    ensures
        covering(seq![], 0, rect, w, channels, bgr, i) == 0,
        ({
            let before = covering(glyphs, glyphs.len() as int, rect, w, channels, bgr, i);
            let alone = covering(seq![last], 1, rect, w, channels, bgr, i);
            let after = covering(glyphs.push(last), glyphs.len() as int + 1, rect, w, channels, bgr, i);
            after == (if alone > before {
                alone
            } else {
                before
            })
        }),
{
    same_covering(glyphs.push(last), glyphs, glyphs.len() as int, rect, w, channels, bgr, i);
    assert(covering(seq![last], 0, rect, w, channels, bgr, i) == 0);
    assert(seq![last][0] == last);
}

proof fn same_covering(
    a: Seq<PlacedGlyph>,
    b: Seq<PlacedGlyph>,
    n: int,
    rect: Rect,
    w: int,
    channels: int,
    bgr: bool,
    i: int,
)
    requires
        n <= a.len(),
        n <= b.len(),
        forall|j: int| 0 <= j < n ==> a[j] == b[j],
    ensures
        covering(a, n, rect, w, channels, bgr, i) == covering(b, n, rect, w, channels, bgr, i),
    decreases n,
{
    if n > 0 {
        same_covering(a, b, n - 1, rect, w, channels, bgr, i);
    }
}

/// The texture of a run of one LCD glyph holds the bytes of its bitmap, row
/// for row and in their order: the bitmap's left edge lies `left` pixels to
/// the right of the pen, its top edge `top` lines above.
pub proof fn an_lcd_glyph_gives_its_bytes(g: Arc<Glyph>, pen: (int, int), w: int, h: int, row: int, col: int, k: int)
    requires
        g.inked(),
        g.pixel_mode == 5,
        0 <= row < g.rows,
        0 <= col,
        3 * col + 2 < g.width,
        0 <= k < 3,
        0 <= pen.0 + g.left + col < w,
        0 <= pen.1 - g.top + row < h,
    ensures
        run_covering(seq![Some(g)], 1, pen, w, ((pen.1 - g.top + row) * w + pen.0 + g.left + col) * 3 + k)
            == g.buffer@[row * g.pitch + 3 * col + k],
{
    let (x, y) = (pen.0 + g.left + col, pen.1 - g.top + row);
    let run = seq![Some(g)];
    let i = canvas::offset(x, y, k, w, 3);
    canvas::offset_parts(x, y, k, w, h, 3);
    assert(run[0] == Some(g));
    assert(run_covering(run, 0, pen, w, i) == 0);
    assert(render::pen_at(run, pen, layout::plain(), 0) == pen);
    assert(col * 3 == 3 * col);
}

/// In the texture of a run a lone glyph gives nothing around its bitmap, and
/// nothing at all where it has no subpixels to give.
pub proof fn an_lcd_glyph_gives_nothing_around_it(g: Arc<Glyph>, pen: (int, int), w: int, h: int, x: int, y: int, k: int)
    requires
        0 <= x < w,
        0 <= y < h,
        0 <= k < 3,
        ({
            let (across, down) = (x - pen.0 - g.left, y - pen.1 + g.top);
            ||| g.pixel_mode != 5
            ||| across < 0
            ||| down < 0
            ||| down >= g.rows
            ||| 3 * across + 2 >= g.width
        }),
    ensures
        run_covering(seq![Some(g)], 1, pen, w, (y * w + x) * 3 + k) == 0,
        run_covering(seq![None], 1, pen, w, (y * w + x) * 3 + k) == 0,
        run_covering(seq![], 0, pen, w, (y * w + x) * 3 + k) == 0,
{
    let i = canvas::offset(x, y, k, w, 3);
    canvas::offset_parts(x, y, k, w, h, 3);
    let run = seq![Some(g)];
    let none: Seq<Option<Arc<Glyph>>> = seq![None];
    assert(run[0] == Some(g) && none[0] is None);
    assert(run_covering(run, 0, pen, w, i) == 0 && run_covering(none, 0, pen, w, i) == 0);
    assert(render::pen_at(run, pen, layout::plain(), 0) == pen);
}

/// The texture of a run: at each byte the larger of what the first glyph gives
/// alone and what the others give from a pen moved right by that glyph's
/// advance, or not moved where there is no such glyph.
pub proof fn a_run_is_covered_from_the_moved_pen(
    first: Option<Arc<Glyph>>,
    rest: Seq<Option<Arc<Glyph>>>,
    pen: (int, int),
    w: int,
    i: int,
)
    ensures
        ({
            let run = seq![first] + rest;
            let moved = match first {
                Some(g) => (pen.0 + g.advance_px, pen.1),
                None => pen,
            };
            let alone = run_covering(seq![first], 1, pen, w, i);
            let others = run_covering(rest, rest.len() as int, moved, w, i);
            run_covering(run, run.len() as int, pen, w, i) == (if alone > others {
                alone
            } else {
                others
            })
        }),
{
    rest_of_run(first, rest, pen, w, i, rest.len() as int);
}

proof fn rest_of_run(
    first: Option<Arc<Glyph>>,
    rest: Seq<Option<Arc<Glyph>>>,
    pen: (int, int),
    w: int,
    i: int,
    n: int,
)
    requires
        0 <= n <= rest.len(),
    ensures
        ({
            let run = seq![first] + rest;
            let moved = match first {
                Some(g) => (pen.0 + g.advance_px, pen.1),
                None => pen,
            };
            &&& render::pen_at(run, pen, layout::plain(), n + 1) == render::pen_at(rest, moved, layout::plain(), n)
            &&& run_covering(run, n + 1, pen, w, i) == numbers::larger(
                run_covering(seq![first], 1, pen, w, i),
                run_covering(rest, n, moved, w, i),
            )
        }),
    decreases n,
{
    let run = seq![first] + rest;
    let one = seq![first];
    assert(run[0] == first && one[0] == first);
    if n > 0 {
        rest_of_run(first, rest, pen, w, i, n - 1);
        assert(run[n] == rest[n - 1]);
    } else {
        assert(render::pen_at(run, pen, layout::plain(), 0) == pen);
        assert(render::pen_at(one, pen, layout::plain(), 0) == pen);
        assert(run_covering(run, 0, pen, w, i) == 0);
        assert(run_covering(one, 0, pen, w, i) == 0);
    }
}

/// What glyph `j` of a run has at byte `i` of the run's texture.
pub open spec fn share(glyphs: Seq<PlacedGlyph>, j: int, rect: Rect, w: int, channels: int, bgr: bool, i: int) -> u8 {
    glyph_texel(
        *glyphs[j].g,
        glyphs[j].at.x + glyphs[j].g.left - rect.0,
        glyphs[j].at.y - glyphs[j].g.top - rect.1,
        w,
        channels,
        bgr,
        i,
    )
}

/// Where glyphs overlap, a texture holds the largest of what they have there:
/// no glyph has more, and where there is any coverage, one of them has it.
pub proof fn coverage_is_the_most(glyphs: Seq<PlacedGlyph>, n: int, rect: Rect, w: int, channels: int, bgr: bool, i: int)
    requires
        0 <= n <= glyphs.len(),
    ensures
        forall|j: int|
            0 <= j < n ==> #[trigger] share(glyphs, j, rect, w, channels, bgr, i) <= covering(
                glyphs,
                n,
                rect,
                w,
                channels,
                bgr,
                i,
            ),
        covering(glyphs, n, rect, w, channels, bgr, i) > 0 ==> exists|j: int|
            0 <= j < n && #[trigger] share(glyphs, j, rect, w, channels, bgr, i) == covering(
                glyphs,
                n,
                rect,
                w,
                channels,
                bgr,
                i,
            ),
    decreases n,
{
    if n > 0 {
        coverage_is_the_most(glyphs, n - 1, rect, w, channels, bgr, i);
        let last = share(glyphs, n - 1, rect, w, channels, bgr, i);
        let rest = covering(glyphs, n - 1, rect, w, channels, bgr, i);
        if rest >= last && rest > 0 {
            let j = choose|j: int| 0 <= j < n - 1 && #[trigger] share(glyphs, j, rect, w, channels, bgr, i) == rest;
            assert(share(glyphs, j, rect, w, channels, bgr, i) == covering(glyphs, n, rect, w, channels, bgr, i));
        }
    }
}

/// There is no coverage outside a run's bounds.
pub proof fn no_coverage_outside_the_bounds(
    glyphs: Seq<PlacedGlyph>,
    n: int,
    rect: Rect,
    w: int,
    channels: int,
    bgr: bool,
    i: int,
)
    requires
        0 <= n <= glyphs.len(),
        forall|j: int| 0 <= j < n ==> #[trigger] render::placeable(*glyphs[j].g, glyphs[j].at),
        render::bounds_of(glyphs, n) is Some ==> !canvas::inside(
            render::bounds_of(glyphs, n)->0,
            canvas::column(i, w, channels) + rect.0,
            canvas::line(i, w, channels) + rect.1,
        ),
    ensures
        covering(glyphs, n, rect, w, channels, bgr, i) == 0,
    decreases n,
{
    if n > 0 {
        let (x, y) = (canvas::column(i, w, channels) + rect.0, canvas::line(i, w, channels) + rect.1);
        assert(render::placeable(*glyphs[n - 1].g, glyphs[n - 1].at));
        if render::covers(glyphs[n - 1], x, y) {
            render::bounds_hold_every_glyph(glyphs, n, n - 1, x, y);
        }
        no_coverage_outside_the_bounds(glyphs, n - 1, rect, w, channels, bgr, i);
    }
}

/// The one byte of a 1x1 texture is the mean of the three that the same glyph
/// has in a 3x1 texture at that pixel, whatever the subpixel order.
pub proof fn one_channel_is_the_mean(g: Glyph, col: int, row: int, bgr: bool, other: bool)
    ensures
        texel(g, col, row, 1, bgr, 0) == (texel(g, col, row, 3, other, 0) + texel(g, col, row, 3, other, 1) + texel(
            g,
            col,
            row,
            3,
            other,
            2,
        )) / 3,
{
}

} // verus!
