//! A pixel buffer.

use vstd::prelude::*;

verus! {

/// A pixel rectangle `(left, top, right, bottom)`, right and bottom exclusive.
pub type Rect = (i32, i32, i32, i32);

/// Pixel (`x`, `y`) lies in `r`.
pub open spec fn inside(r: Rect, x: int, y: int) -> bool {
    r.0 <= x < r.2 && r.1 <= y < r.3
}

// ---- positions in a buffer of pixels ----

/// Where channel `k` of pixel (`x`, `y`) stands in rows of `w` pixels with
/// `n` channels each.
pub open spec fn offset(x: int, y: int, k: int, w: int, n: int) -> int {
    (y * w + x) * n + k
}

/// The column of the pixel that position `i` belongs to.
pub open spec fn column(i: int, w: int, n: int) -> int {
    (i / n) % w
}

/// The row of the pixel that position `i` belongs to.
pub open spec fn line(i: int, w: int, n: int) -> int {
    (i / n) / w
}

/// A pixel's position leads back to the pixel.
pub proof fn offset_parts(x: int, y: int, k: int, w: int, h: int, n: int)
    requires
        0 <= x < w,
        0 <= y < h,
        0 <= k < n,
    ensures
        0 <= offset(x, y, k, w, n) < w * h * n,
        column(offset(x, y, k, w, n), w, n) == x,
        line(offset(x, y, k, w, n), w, n) == y,
        offset(x, y, k, w, n) % n == k,
{
    let p = y * w + x;
    assert(0 <= p < w * h) by (nonlinear_arith)
        requires
            p == y * w + x,
            0 <= x < w,
            0 <= y < h,
    ;
    assert(0 <= p * n + k < w * h * n) by (nonlinear_arith)
        requires
            0 <= p < w * h,
            0 <= k < n,
    ;
    vstd::arithmetic::div_mod::lemma_fundamental_div_mod_converse(p * n + k, n, p, k);
    vstd::arithmetic::div_mod::lemma_fundamental_div_mod_converse(p, w, y, x);
}

/// Every position belongs to one pixel of the buffer.
pub proof fn position_parts(i: int, w: int, h: int, n: int)
    requires
        0 <= i < w * h * n,
        0 < n,
        0 <= w,
        0 <= h,
    ensures
        0 < w,
        0 <= column(i, w, n) < w,
        0 <= line(i, w, n) < h,
        0 <= i % n < n,
        i == offset(column(i, w, n), line(i, w, n), i % n, w, n),
{
    assert(w > 0 && h > 0) by (nonlinear_arith)
        requires
            0 <= i < w * h * n,
            0 < n,
            0 <= w,
            0 <= h,
    ;
    let p = i / n;
    vstd::arithmetic::div_mod::lemma_fundamental_div_mod(i, n);
    vstd::arithmetic::div_mod::lemma_fundamental_div_mod(p, w);
    vstd::arithmetic::div_mod::lemma_mod_bound(i, n);
    vstd::arithmetic::div_mod::lemma_mod_bound(p, w);
    let x = p % w;
    let y = p / w;
    assert(i == n * p + i % n);
    assert(p == w * y + x);
    assert(0 <= p < w * h) by (nonlinear_arith)
        requires
            0 <= i < w * h * n,
            i == n * p + i % n,
            0 <= i % n < n,
            0 < n,
    ;
    assert(0 <= y < h) by (nonlinear_arith)
        requires
            0 <= p < w * h,
            p == w * y + x,
            0 <= x < w,
            0 < w,
    ;
    assert((y * w + x) * n + i % n == i) by (nonlinear_arith)
        requires
            i == n * p + i % n,
            p == w * y + x,
    ;
}

// ---- the canvas ----

/// An RGB pixel buffer.
pub struct Canvas {
    pub w: usize,
    pub h: usize,
    pub rgb: Vec<u8>,
    /// Where drawing is let through; `None` is everywhere.
    pub clip: Option<Rect>,
}

/// What a canvas shows.
pub struct Picture {
    pub w: int,
    pub h: int,
    pub rgb: Seq<u8>,
    pub clip: Option<Rect>,
}

impl Picture {
    /// Three bytes for every pixel.
    pub open spec fn ok(self) -> bool {
        self.w >= 0 && self.h >= 0 && self.rgb.len() == self.w * self.h * 3
    }

    pub open spec fn contains(self, x: int, y: int) -> bool {
        0 <= x < self.w && 0 <= y < self.h
    }

    /// Drawing reaches pixel (`x`, `y`).
    pub open spec fn reaches(self, x: int, y: int) -> bool {
        self.contains(x, y) && match self.clip {
            Some(r) => inside(r, x, y),
            None => true,
        }
    }

    /// The column of the pixel that byte `i` belongs to.
    pub open spec fn x(self, i: int) -> int {
        column(i, self.w, 3)
    }

    /// The row of the pixel that byte `i` belongs to.
    pub open spec fn y(self, i: int) -> int {
        line(i, self.w, 3)
    }
}

impl View for Canvas {
    type V = Picture;

    open spec fn view(&self) -> Picture {
        Picture { w: self.w as int, h: self.h as int, rgb: self.rgb@, clip: self.clip }
    }
}

/// The buffer of a `w` by `h` picture in one colour.
pub open spec fn solid(w: int, h: int, bg: [u8; 3]) -> Seq<u8> {
    Seq::new((w * h * 3) as nat, |i: int| bg[i % 3])
}

/// The picture `p` with a rectangle of it in one colour.
pub open spec fn filled_with(p: Picture, rect: Rect, rgb: [u8; 3]) -> Picture {
    Picture {
        rgb: Seq::new(
            p.rgb.len(),
            |i: int|
                if inside(rect, p.x(i), p.y(i)) {
                    rgb[i % 3]
                } else {
                    p.rgb[i]
                },
        ),
        ..p
    }
}

impl Canvas {
    /// A white canvas.
    pub fn new(w: usize, h: usize) -> (r: Canvas)
        requires
            w * h * 3 <= usize::MAX,
        ensures
            r@ == (Picture { w: w as int, h: h as int, rgb: solid(w as int, h as int, [255, 255, 255]), clip: None }),
            r@.ok(),
    {
        Canvas::filled(w, h, [255, 255, 255])
    }

    /// A canvas filled with a solid background colour.
    pub fn filled(w: usize, h: usize, bg: [u8; 3]) -> (r: Canvas)
        requires
            w * h * 3 <= usize::MAX,
        ensures
            r@ == (Picture { w: w as int, h: h as int, rgb: solid(w as int, h as int, bg), clip: None }),
            r@.ok(),
    {
        assert(w * h <= usize::MAX) by (nonlinear_arith)
            requires
                w * h * 3 <= usize::MAX,
        ;
        let n: usize = w * h;
        assert(n * 3 == w * h * 3);
        let mut rgb: Vec<u8> = Vec::with_capacity(n * 3);
        let mut i: usize = 0;
        while i < n
            invariant
                i <= n,
                n * 3 <= usize::MAX,
                rgb@.len() == i * 3,
                forall|j: int| 0 <= j < i * 3 ==> #[trigger] rgb@[j] == bg[j % 3],
            decreases n - i,
        {
            rgb.push(bg[0]);
            rgb.push(bg[1]);
            rgb.push(bg[2]);
            i = i + 1;
        }
        proof {
            assert(rgb@ =~= solid(w as int, h as int, bg));
        }
        Canvas { w, h, rgb, clip: None }
    }

    /// Restrict subsequent drawing to `rect`; `None` clears the clip.
    pub fn set_clip(&mut self, rect: Option<Rect>)
        ensures
            final(self)@ == (Picture { clip: rect, ..old(self)@ }),
    {
        self.clip = rect;
    }

    /// Fill a rectangle with a solid colour, whatever the clip.
    pub fn fill_rect(&mut self, rect: Rect, rgb: [u8; 3])
        requires
            old(self)@.ok(),
        ensures
            final(self)@.ok(),
            final(self)@ == filled_with(old(self)@, rect, rgb),
    {
        let ghost p = self@;
        let (l, t, r, b): Rect = rect;
        let x0: usize = start(l);
        let x1: usize = end(r, self.w);
        let y0: usize = start(t);
        let y1: usize = end(b, self.h);
        let mut y: usize = y0;
        proof {
            assert forall|i: int| 0 <= i < p.rgb.len() implies p.y(i) >= 0 by {
                position_parts(i, p.w, p.h, 3);
            }
        }
        while y < y1
            invariant
                y0 <= y,
                p == old(self)@,
                p.ok(),
                self.w == p.w,
                self.h == p.h,
                self.clip == p.clip,
                self.rgb@.len() == p.rgb.len(),
                x0 == clip_low(l),
                y0 == clip_low(t),
                x1 == clip_high(r, self.w as int),
                y1 == clip_high(b, self.h as int),
                rect == (l, t, r, b),
                forall|i: int| 0 <= i < p.rgb.len() ==> #[trigger] self.rgb@[i] == (if inside(rect, p.x(i), p.y(i)) && p.y(i)
                    < y {
                    rgb[i % 3]
                } else {
                    p.rgb[i]
                }),
            decreases y1 - y,
        {
            let mut x: usize = x0;
            while x < x1
                invariant
                    p == old(self)@,
                    p.ok(),
                    self.w == p.w,
                    self.h == p.h,
                    self.clip == p.clip,
                    self.rgb@.len() == p.rgb.len(),
                    y < y1,
                    y0 <= y,
                    x0 <= x,
                    x0 == clip_low(l),
                    y0 == clip_low(t),
                    x1 == clip_high(r, self.w as int),
                    y1 == clip_high(b, self.h as int),
                    rect == (l, t, r, b),
                    forall|i: int| 0 <= i < p.rgb.len() ==> #[trigger] self.rgb@[i] == (if inside(rect, p.x(i), p.y(i))
                        && (p.y(i) < y || p.y(i) == y && p.x(i) < x) {
                        rgb[i % 3]
                    } else {
                        p.rgb[i]
                    }),
                decreases x1 - x,
            {
                let ghost before = self.rgb@;
                let at: usize = pixel_at(x, y, self.w, self.h, self.rgb.len());
                self.rgb[at] = rgb[0];
                self.rgb[at + 1] = rgb[1];
                self.rgb[at + 2] = rgb[2];
                proof {
                    offset_parts(x as int, y as int, 0, p.w, p.h, 3);
                    offset_parts(x as int, y as int, 1, p.w, p.h, 3);
                    offset_parts(x as int, y as int, 2, p.w, p.h, 3);
                    assert forall|i: int| 0 <= i < p.rgb.len() implies #[trigger] self.rgb@[i] == (if inside(
                        rect,
                        p.x(i),
                        p.y(i),
                    ) && (p.y(i) < y || p.y(i) == y && p.x(i) < x + 1) {
                        rgb[i % 3]
                    } else {
                        p.rgb[i]
                    }) by {
                        position_parts(i, p.w, p.h, 3);
                        assert(before[i] == before[i]);
                    }
                }
                x = x + 1;
            }
            proof {
                assert forall|i: int| 0 <= i < p.rgb.len() implies #[trigger] self.rgb@[i] == (if inside(
                    rect,
                    p.x(i),
                    p.y(i),
                ) && p.y(i) < y + 1 {
                    rgb[i % 3]
                } else {
                    p.rgb[i]
                }) by {
                    position_parts(i, p.w, p.h, 3);
                }
            }
            y = y + 1;
        }
        proof {
            assert forall|i: int| 0 <= i < p.rgb.len() implies #[trigger] self.rgb@[i] == (if inside(
                rect,
                p.x(i),
                p.y(i),
            ) {
                rgb[i % 3]
            } else {
                p.rgb[i]
            }) by {
                position_parts(i, p.w, p.h, 3);
            }
            assert(self.rgb@ =~= filled_with(p, rect, rgb).rgb);
        }
    }

    /// Does drawing reach pixel (`x`, `y`): on the canvas, and in the clip?
    pub fn in_bounds(&self, x: i32, y: i32) -> (r: bool)
        ensures
            r == self@.reaches(x as int, y as int),
    {
        if x < 0 || x as usize >= self.w || y < 0 || y as usize >= self.h {
            return false;
        }
        match self.clip {
            Some((l, t, r, b)) => x >= l && x < r && y >= t && y < b,
            None => true,
        }
    }
}

impl Canvas {
    /// A canvas from a 32bpp top-down BGRA buffer.
    pub fn from_bgra_topdown(w: usize, h: usize, bgra: &[u8]) -> (r: Canvas)
        requires
            w * h * 4 <= bgra@.len(),
        ensures
            r@ == (Picture { w: w as int, h: h as int, rgb: from_bgra(w as int, h as int, bgra@), clip: None }),
            r@.ok(),
    {
        let len: usize = bgra.len();
        assert(w * h <= w * h * 4 && w * h * 3 <= w * h * 4) by (nonlinear_arith);
        let n: usize = w * h;
        let mut rgb: Vec<u8> = Vec::with_capacity(n * 3);
        let mut i: usize = 0;
        while i < n
            invariant
                i <= n,
                n * 4 <= len,
                len == bgra@.len(),
                rgb@.len() == i * 3,
                forall|j: int| 0 <= j < i * 3 ==> #[trigger] rgb@[j] == bgra@[(j / 3) * 4 + 2 - j % 3],
            decreases n - i,
        {
            rgb.push(bgra[i * 4 + 2]);
            rgb.push(bgra[i * 4 + 1]);
            rgb.push(bgra[i * 4]);
            i = i + 1;
        }
        proof {
            assert(rgb@ =~= from_bgra(w as int, h as int, bgra@));
        }
        Canvas { w, h, rgb, clip: None }
    }

    /// Write this canvas back into a 32bpp top-down BGRA buffer (alpha 255).
    pub fn blit_to_bgra_topdown(&self, bgra: &mut [u8])
        requires
            self@.ok(),
            self.w * self.h * 4 <= old(bgra)@.len(),
        ensures
            final(bgra)@ == onto_bgra(self@.rgb, old(bgra)@),
    {
        let ghost old_bgra = bgra@;
        let len: usize = bgra.len();
        assert(self.w * self.h <= self.w * self.h * 4) by (nonlinear_arith);
        let n: usize = self.w * self.h;
        let mut i: usize = 0;
        while i < n
            invariant
                i <= n,
                self.rgb@.len() == n * 3,
                n * 4 <= len,
                len == bgra@.len(),
                bgra@.len() == old_bgra.len(),
                forall|j: int| i * 4 <= j < bgra@.len() ==> bgra@[j] == old_bgra[j],
                forall|j: int| 0 <= j < i * 4 ==> #[trigger] bgra@[j] == (if j % 4 == 3 {
                    255
                } else {
                    self.rgb@[(j / 4) * 3 + 2 - j % 4]
                }),
            decreases n - i,
        {
            bgra[i * 4] = self.rgb[i * 3 + 2];
            bgra[i * 4 + 1] = self.rgb[i * 3 + 1];
            bgra[i * 4 + 2] = self.rgb[i * 3];
            bgra[i * 4 + 3] = 255;
            i = i + 1;
        }
        proof {
            assert(bgra@ =~= onto_bgra(self@.rgb, old_bgra));
        }
    }
}

/// The RGB bytes of a `w` by `h` picture given as BGRA.
pub open spec fn from_bgra(w: int, h: int, bgra: Seq<u8>) -> Seq<u8> {
    Seq::new((w * h * 3) as nat, |i: int| bgra[(i / 3) * 4 + 2 - i % 3])
}

/// `bgra` with the pixels of `rgb`, opaque, in front.
pub open spec fn onto_bgra(rgb: Seq<u8>, bgra: Seq<u8>) -> Seq<u8> {
    Seq::new(
        bgra.len(),
        |j: int|
            if j / 4 >= rgb.len() / 3 {
                bgra[j]
            } else if j % 4 == 3 {
                255
            } else {
                rgb[(j / 4) * 3 + 2 - j % 4]
            },
    )
}

/// A fresh picture shows its colour everywhere: channel `k` of pixel
/// (`x`, `y`) is that of the colour.
pub proof fn a_fresh_picture_is_one_colour(w: int, h: int, bg: [u8; 3], x: int, y: int, k: int)
    requires
        0 <= x < w,
        0 <= y < h,
        0 <= k < 3,
    ensures
        solid(w, h, bg).len() == w * h * 3,
        solid(w, h, bg)[(y * w + x) * 3 + k] == bg[k],
{
    offset_parts(x, y, k, w, h, 3);
}

/// Filling a rectangle gives its pixels the colour, in the clip or not, and
/// leaves every other pixel as it was.
pub proof fn a_filled_rectangle_has_its_colour(p: Picture, rect: Rect, rgb: [u8; 3], x: int, y: int, k: int)
    requires
        p.ok(),
        0 <= x < p.w,
        0 <= y < p.h,
        0 <= k < 3,
    ensures
        ({
            let i = (y * p.w + x) * 3 + k;
            let q = filled_with(p, rect, rgb);
            &&& q.w == p.w && q.h == p.h && q.clip == p.clip && q.rgb.len() == p.rgb.len()
            &&& rect.0 <= x < rect.2 && rect.1 <= y < rect.3 ==> q.rgb[i] == rgb[k]
            &&& !(rect.0 <= x < rect.2 && rect.1 <= y < rect.3) ==> q.rgb[i] == p.rgb[i]
        }),
{
    offset_parts(x, y, k, p.w, p.h, 3);
}

/// A BGRA buffer holds the pixels line by line from the top, four bytes each:
/// blue, green, red and alpha. What is read from it, and what is written to
/// it, is the same pixel in red, green and blue.
pub proof fn bgra_pixels_keep_their_places(w: int, h: int, bgra: Seq<u8>, rgb: Seq<u8>, x: int, y: int)
    requires
        0 <= x < w,
        0 <= y < h,
        w * h * 4 <= bgra.len(),
        rgb.len() == w * h * 3,
    ensures
        ({
            let (three, four) = ((y * w + x) * 3, (y * w + x) * 4);
            let (seen, written) = (from_bgra(w, h, bgra), onto_bgra(rgb, bgra));
            &&& seen[three] == bgra[four + 2] && seen[three + 1] == bgra[four + 1] && seen[three + 2] == bgra[four]
            &&& written[four] == rgb[three + 2] && written[four + 1] == rgb[three + 1] && written[four + 2]
                == rgb[three] && written[four + 3] == 255
        }),
{
    offset_parts(x, y, 0, w, h, 3);
    offset_parts(x, y, 2, w, h, 3);
    offset_parts(x, y, 3, w, h, 4);
    let n = y * w + x;
    assert(w * h * 4 == (w * h) * 4 && w * h * 3 == (w * h) * 3);
}

/// Drawing reaches a pixel that is in the picture, and in the clip where there
/// is one; no other.
pub proof fn drawing_reaches_the_clip(p: Picture, x: int, y: int)
    ensures
        p.reaches(x, y) <==> 0 <= x < p.w && 0 <= y < p.h && (p.clip matches Some(r) ==> r.0 <= x < r.2 && r.1 <= y
            < r.3),
{
}

/// Reading a BGRA buffer into a picture and writing it back changes nothing
/// but the alpha of its pixels, which becomes opaque.
pub proof fn bgra_round_trip(w: int, h: int, bgra: Seq<u8>, i: int)
    requires
        0 <= w,
        0 <= h,
        w * h * 4 <= bgra.len(),
        0 <= i < bgra.len(),
    ensures
        onto_bgra(from_bgra(w, h, bgra), bgra)[i] == (if i < w * h * 4 && i % 4 == 3 {
            255
        } else {
            bgra[i]
        }),
{
    assert(w * h >= 0) by (nonlinear_arith)
        requires
            0 <= w,
            0 <= h,
    ;
    let n = w * h;
    assert(w * h * 3 == n * 3 && w * h * 4 == n * 4);
}

spec fn clip_low(v: i32) -> int {
    if v < 0 {
        0
    } else {
        v as int
    }
}

spec fn clip_high(v: i32, limit: int) -> int {
    if v < 0 {
        0
    } else if v < limit {
        v as int
    } else {
        limit
    }
}

fn start(v: i32) -> (r: usize)
    ensures
        r == clip_low(v),
{
    if v < 0 {
        0
    } else {
        v as usize
    }
}

fn end(v: i32, limit: usize) -> (r: usize)
    ensures
        r == clip_high(v, limit as int),
{
    if v < 0 {
        0
    } else if (v as usize) < limit {
        v as usize
    } else {
        limit
    }
}

/// Where the bytes of pixel (`x`, `y`) start in an RGB buffer.
pub(crate) fn pixel_at(x: usize, y: usize, w: usize, h: usize, len: usize) -> (r: usize)
    requires
        x < w,
        y < h,
        len == w * h * 3,
    ensures
        r == offset(x as int, y as int, 0, w as int, 3),
        r + 2 < len,
{
    proof {
        offset_parts(x as int, y as int, 0, w as int, h as int, 3);
        offset_parts(x as int, y as int, 2, w as int, h as int, 3);
        assert(y * w <= offset(x as int, y as int, 0, w as int, 3)) by (nonlinear_arith)
            requires
                offset(x as int, y as int, 0, w as int, 3) == (y * w + x) * 3,
                x >= 0,
                y >= 0,
                w >= 0,
        ;
    }
    (y * w + x) * 3
}

/// A picture is what its canvas holds.
pub proof fn a_picture_is_what_its_canvas_holds(c: Canvas)
    ensures
        c@.w == c.w && c@.h == c.h && c@.rgb == c.rgb@ && c@.clip == c.clip,
        c@.ok() <==> c.rgb@.len() == c.w * c.h * 3,
{
}

} // verus!
