//! Glyph metrics of GDI (`GetGlyphOutline`).
//!
//! Programs that clip glyphs themselves first ask for the metrics only, then
//! clip to that box. The glyphs drawn here come out a little heavier than
//! GDI's, so the box is padded: the origin is moved up (capped at the ascent)
//! and the black box grown by the same padding (capped at the font height).

use vstd::prelude::*;

use crate::gdi::Metrics;
use crate::numbers;

verus! {

/// `GGO_BITMAP`, `GGO_NATIVE` and the grey bitmap formats, together.
pub const DATA_FORMATS: u32 = 7;

/// One and a half pixels at 96 dpi, scaled to the screen's (at least 96) and
/// rounded down.
pub open spec fn padding(dpi: int) -> int {
    3 * (if dpi < 96 {
        96
    } else {
        dpi
    }) / 192
}

/// The padding for a screen of `dpi`.
pub fn pad_px(dpi: i32) -> (r: i32)
    ensures
        r == padding(dpi as int),
        r >= 1,
{
    let d: i64 = if dpi < 96 {
        96
    } else {
        dpi as i64
    };
    (3 * d / 192) as i32
}

/// Is this a metrics-only query (no buffer, no bitmap or outline format)?
/// Only those are padded; a call that fetches data is passed through.
pub fn is_metrics_only(format: u32, size: u32, buffer: bool) -> (r: bool)
    ensures
        r <==> (size == 0 || !buffer) && format & DATA_FORMATS == 0,
{
    (size == 0 || !buffer) && format & DATA_FORMATS == 0
}

/// The vertical part of a glyph's metrics: how far its top is above the
/// baseline, and how high its black box is.
#[derive(Clone, Copy, Debug, PartialEq, Eq, Structural)]
pub struct GlyphBox {
    pub origin_y: i32,
    pub box_y: u32,
}

/// How far up the origin goes: by `n`, but not past the ascent.
pub open spec fn lift(b: GlyphBox, ascent: int, n: int) -> int {
    if b.origin_y >= ascent {
        0
    } else {
        numbers::least(n, ascent - b.origin_y)
    }
}

/// How far below the cell's top the box ends.
pub open spec fn bottom(b: GlyphBox, ascent: int) -> int {
    ascent - b.origin_y + b.box_y
}

/// A box's height grown by `n`. A height past 31 bits counts as the
/// largest that is not.
pub open spec fn grown_box(box_y: u32, n: int) -> int {
    numbers::least(numbers::least(box_y as int, i32::MAX as int) + n, i32::MAX as int)
}

/// The height of the padded box: it grows by `n`, but ends no further down
/// than the font's height, unless it did so already. Then it grows by as much
/// as the origin goes up, and ends where it did.
pub open spec fn padded_box(b: GlyphBox, ascent: int, height: int, n: int) -> int {
    let up = lift(b, ascent, n);
    let to_height = height - ascent + b.origin_y + up;
    numbers::most(grown_box(b.box_y, up), numbers::least(grown_box(b.box_y, n), to_height))
}

/// The metrics padded by `n`, for the font of `tm`. The box ends no further
/// down than the font's height, unless it did so already.
pub fn pad_metrics(b: &GlyphBox, tm: &Metrics, n: i32) -> (r: GlyphBox)
    requires
        n >= 0,
    ensures
        r.origin_y == b.origin_y + lift(*b, tm.ascent as int, n as int),
        r.box_y == padded_box(*b, tm.ascent as int, tm.height as int, n as int),
        bottom(r, tm.ascent as int) <= tm.height || bottom(*b, tm.ascent as int) > tm.height,
{
    let a: i64 = tm.ascent as i64;
    let o: i64 = b.origin_y as i64;
    let dy: i64 = if o >= a {
        0
    } else if o + n as i64 > a {
        a - o
    } else {
        n as i64
    };
    let to_height: i64 = tm.height as i64 - a + o + dy;
    let low: i64 = grown(b.box_y, dy as i32) as i64;
    let high: i64 = grown(b.box_y, n) as i64;
    let capped: i64 = if high <= to_height {
        high
    } else {
        to_height
    };
    let box_y: u32 = if low >= capped {
        low as u32
    } else {
        capped as u32
    };
    GlyphBox { origin_y: (o + dy) as i32, box_y }
}

fn grown(box_y: u32, n: i32) -> (r: i32)
    requires
        n >= 0,
    ensures
        r == grown_box(box_y, n as int),
{
    let most: i64 = i32::MAX as i64;
    let now: i64 = if box_y as i64 > most {
        most
    } else {
        box_y as i64
    };
    if now + n as i64 > most {
        i32::MAX
    } else {
        (now + n as i64) as i32
    }
}

// ---- laws ----

/// The padding is a pixel and a half for every 96 dots per inch, rounded down;
/// fewer dots count as 96.
pub proof fn padding_follows_the_resolution(dpi: int)
    ensures
        dpi >= 96 ==> 64 * padding(dpi) <= dpi < 64 * (padding(dpi) + 1),
        dpi < 96 ==> padding(dpi) == 1,
{
}

/// The origin goes up by the padding, but stops at the ascent, and does not
/// move where it is there already.
pub proof fn the_origin_goes_up_to_the_ascent(b: GlyphBox, ascent: int, n: int)
    requires
        n >= 0,
    ensures
        b.origin_y + n <= ascent ==> lift(b, ascent, n) == n,
        b.origin_y <= ascent < b.origin_y + n ==> b.origin_y + lift(b, ascent, n) == ascent,
        b.origin_y >= ascent ==> lift(b, ascent, n) == 0,
{
}

/// A box that would end below the font's height ends at it, unless it then
/// were smaller than its growth at the top makes it.
pub proof fn a_box_ends_at_the_font_height(b: GlyphBox, ascent: int, height: int, n: int, up: int)
    requires
        n >= 0,
        up == lift(b, ascent, n),
        b.box_y + n <= i32::MAX,
        ascent - (b.origin_y + up) + b.box_y + n > height,
    ensures
        ascent - b.origin_y + b.box_y <= height ==> ascent - (b.origin_y + up) + padded_box(b, ascent, height, n)
            == height,
        ascent - b.origin_y + b.box_y > height ==> padded_box(b, ascent, height, n) == b.box_y + up,
{
}

/// Padding never moves the origin down, nor past the ascent, and never
/// shrinks the box, which grows by no more than the padding: by exactly that
/// where it then ends within the font's height, whether or not the origin
/// reached the ascent. It ends no further down than the font's height, or than
/// it did.
pub proof fn padding_only_grows(b: GlyphBox, ascent: int, height: int, n: int)
    requires
        n >= 0,
        b.box_y <= i32::MAX,
    ensures
        lift(b, ascent, n) >= 0,
        b.origin_y <= ascent ==> b.origin_y + lift(b, ascent, n) <= ascent,
        b.box_y <= padded_box(b, ascent, height, n) <= b.box_y + n,
        b.box_y + n <= i32::MAX && bottom(b, ascent) - lift(b, ascent, n) + n <= height ==> padded_box(
            b,
            ascent,
            height,
            n,
        ) == b.box_y + n,
        ({
            let end = ascent - (b.origin_y + lift(b, ascent, n)) + padded_box(b, ascent, height, n);
            end <= numbers::most(height, bottom(b, ascent))
        }),
{
}

} // verus!
