//! Looking at what was drawn: where the ink is in a bitmap, how dark it is,
//! and the bitmap as a file.

use vstd::prelude::*;

use crate::canvas;
use crate::canvas::Rect;
use crate::numbers;
use crate::text;

verus! {

// ---- bounds ----

/// The columns and rows between which something is, both ends included.
#[derive(Clone, Copy, Debug, PartialEq, Eq, Structural)]
pub struct Bounds {
    pub left: usize,
    pub right: usize,
    pub top: usize,
    pub bottom: usize,
}

/// Pixel `i`, row by row in rows of `w`, is within the bounds.
pub open spec fn within(b: Bounds, w: int, i: int) -> bool {
    b.left <= i % w <= b.right && b.top <= i / w <= b.bottom
}

/// `b` are the bounds of those of the first `n` pixels that `p` holds of:
/// they hold them all, and each side touches one.
pub open spec fn bounds_of(b: Option<Bounds>, w: int, n: int, p: spec_fn(int) -> bool) -> bool {
    match b {
        Some(b) => {
            &&& forall|i: int| 0 <= i < n && #[trigger] p(i) ==> within(b, w, i)
            &&& exists|i: int| 0 <= i < n && #[trigger] p(i) && i % w == b.left
            &&& exists|i: int| 0 <= i < n && #[trigger] p(i) && i % w == b.right
            &&& exists|i: int| 0 <= i < n && #[trigger] p(i) && i / w == b.top
            &&& exists|i: int| 0 <= i < n && #[trigger] p(i) && i / w == b.bottom
        },
        None => forall|i: int| 0 <= i < n ==> !#[trigger] p(i),
    }
}

/// The bounds with pixel `i` added.
fn grown(b: Option<Bounds>, w: usize, i: usize, Ghost(p): Ghost<spec_fn(int) -> bool>) -> (r: Option<Bounds>)
    requires
        w > 0,
        bounds_of(b, w as int, i as int, p),
        p(i as int),
    ensures
        r is Some,
        bounds_of(r, w as int, i + 1, p),
{
    let x: usize = i % w;
    let y: usize = i / w;
    match b {
        Some(b) => {
            let r: Bounds = Bounds {
                left: if x < b.left {
                    x
                } else {
                    b.left
                },
                right: if x > b.right {
                    x
                } else {
                    b.right
                },
                top: if y < b.top {
                    y
                } else {
                    b.top
                },
                bottom: if y > b.bottom {
                    y
                } else {
                    b.bottom
                },
            };
            Some(r)
        },
        None => Some(Bounds { left: x, right: x, top: y, bottom: y }),
    }
}

// ---- ink ----

/// The light of a white pixel.
pub const WHITE: u32 = 765;

/// The light of pixel `i` of a BGRA bitmap.
pub open spec fn light(px: Seq<u8>, i: int) -> int {
    px[i * 4] + px[i * 4 + 1] + px[i * 4 + 2]
}

/// What is darker than white is ink.
pub open spec fn inked(px: Seq<u8>, i: int) -> bool {
    light(px, i) < WHITE
}

/// How many of the first `n` pixels have ink.
pub open spec fn ink_count(px: Seq<u8>, n: int) -> int
    decreases n,
{
    if n <= 0 {
        0
    } else {
        ink_count(px, n - 1) + (if inked(px, n - 1) {
            1int
        } else {
            0
        })
    }
}

/// How dark the ink among the first `n` pixels is, added up.
pub open spec fn ink_sum(px: Seq<u8>, n: int) -> int
    decreases n,
{
    if n <= 0 {
        0
    } else {
        ink_sum(px, n - 1) + (if inked(px, n - 1) {
            WHITE - light(px, n - 1)
        } else {
            0
        })
    }
}

/// Pixel `i` is the darkest of the first `n`, and the first such.
pub open spec fn darkest_at(px: Seq<u8>, n: int, i: int) -> bool {
    &&& 0 <= i < n
    &&& inked(px, i)
    &&& forall|j: int| 0 <= j < n && #[trigger] inked(px, j) ==> light(px, i) <= light(px, j)
    &&& forall|j: int| 0 <= j < i && #[trigger] inked(px, j) ==> light(px, i) < light(px, j)
}

/// Where the ink is, and how dark it is.
#[derive(Clone, Copy, Debug, PartialEq, Eq, Structural)]
pub struct Report {
    pub bounds: Bounds,
    /// The darkest pixel (its index).
    pub darkest: usize,
    /// How dark the ink is on average, of `WHITE`.
    pub mean: u64,
    /// How many pixels have ink.
    pub count: u64,
}

/// The ink in a BGRA bitmap of `w` by `h` pixels, on white.
pub fn ink(px: &[u8], w: usize, h: usize) -> (r: Option<Report>)
    requires
        w * h * 4 <= px@.len(),
        w * h <= 0xffff_ffff,
    ensures
        match r {
            Some(r) => {
                &&& bounds_of(Some(r.bounds), w as int, w * h, |i: int| inked(px@, i))
                &&& darkest_at(px@, w * h, r.darkest as int)
                &&& r.count == ink_count(px@, w * h)
                &&& r.count > 0
                &&& r.mean == ink_sum(px@, w * h) / r.count as int
            },
            None => forall|i: int| 0 <= i < w * h ==> !#[trigger] inked(px@, i),
        },
{
    let len: usize = px.len();
    assert(w * h <= w * h * 4) by (nonlinear_arith);
    let n: usize = w * h;
    let ghost p = |i: int| inked(px@, i);
    let mut bounds: Option<Bounds> = None;
    let mut darkest: usize = 0;
    let mut least: u32 = WHITE;
    let mut count: u64 = 0;
    let mut sum: u64 = 0;
    let mut i: usize = 0;
    while i < n
        invariant
            i <= n,
            n == w * h,
            n * 4 <= len,
            len == px@.len(),
            n <= 0xffff_ffff,
            p == (|i: int| inked(px@, i)),
            bounds_of(bounds, w as int, i as int, p),
            bounds is Some <==> count > 0,
            count == ink_count(px@, i as int),
            sum == ink_sum(px@, i as int),
            count <= i,
            sum <= WHITE * i,
            count > 0 ==> darkest_at(px@, i as int, darkest as int) && least == light(px@, darkest as int),
            count == 0 ==> least == WHITE,
        decreases n - i,
    {
        let s: u32 = px[i * 4] as u32 + px[i * 4 + 1] as u32 + px[i * 4 + 2] as u32;
        proof {
            assert(s == light(px@, i as int));
            assert(p(i as int) == inked(px@, i as int));
            if count == 0 {
                assert forall|j: int| 0 <= j < i implies !#[trigger] inked(px@, j) by {
                    assert(!p(j));
                }
            }
        }
        if s < WHITE {
            proof {
                assert(w > 0) by (nonlinear_arith)
                    requires
                        0 <= i < w * h,
                ;
            }
            bounds = grown(bounds, w, i, Ghost(p));
            count = count + 1;
            sum = sum + (WHITE - s) as u64;
            if s < least {
                least = s;
                darkest = i;
            }
        } else {
            assert(bounds_of(bounds, w as int, i + 1, p));
        }
        i = i + 1;
    }
    match bounds {
        Some(bounds) => Some(Report { bounds, darkest, mean: sum / count, count }),
        None => {
            assert forall|j: int| 0 <= j < w * h implies !#[trigger] inked(px@, j) by {
                assert(!p(j));
            }
            None
        },
    }
}

/// A digit of a hexadecimal numeral.
pub open spec fn hex_digit(d: int) -> char {
    if d < 10 {
        (0x30 + d) as char
    } else {
        (0x57 + d) as char
    }
}

/// A byte as two hexadecimal digits.
pub open spec fn hex(b: u8) -> Seq<char> {
    seq![hex_digit(b as int / 16), hex_digit(b as int % 16)]
}

fn push_hex(s: &mut String, b: u8)
    ensures
        final(s)@ == old(s)@ + hex(b),
{
    let digits: [char; 16] = ['0', '1', '2', '3', '4', '5', '6', '7', '8', '9', 'a', 'b', 'c', 'd', 'e', 'f'];
    s.push(digits[(b / 16) as usize]);
    s.push(digits[(b % 16) as usize]);
    proof {
        assert(s@ =~= old(s)@ + hex(b));
    }
}

pub open spec fn report_text(px: Seq<u8>, r: Option<Report>) -> Seq<char> {
    match r {
        None => "ink=(none)"@,
        Some(r) => {
            let at = r.darkest as int * 4;
            "ink=x="@ + text::numeral(r.bounds.left as int) + ".."@ + text::numeral(r.bounds.right as int) + " y="@
                + text::numeral(r.bounds.top as int) + ".."@ + text::numeral(r.bounds.bottom as int) + " darkest=#"@
                + hex(px[at + 2]) + hex(px[at + 1]) + hex(px[at]) + " mean="@ + text::numeral(r.mean as int) + " px="@
                + text::numeral(r.count as int)
        },
    }
}

/// The line that tells of the ink in bitmap `px`.
pub fn report_line(px: &[u8], r: &Option<Report>) -> (s: String)
    requires
        r matches Some(r) ==> r.darkest * 4 + 2 < px@.len(),
    ensures
        s@ == report_text(px@, *r),
{
    match r {
        None => "ink=(none)".to_owned(),
        Some(r) => {
            let len: usize = px.len();
            let at: usize = r.darkest * 4;
            let mut s: String = "ink=x=".to_owned();
            text::push_number(&mut s, r.bounds.left as u64);
            s.append("..");
            text::push_number(&mut s, r.bounds.right as u64);
            s.append(" y=");
            text::push_number(&mut s, r.bounds.top as u64);
            s.append("..");
            text::push_number(&mut s, r.bounds.bottom as u64);
            s.append(" darkest=#");
            push_hex(&mut s, px[at + 2]);
            push_hex(&mut s, px[at + 1]);
            push_hex(&mut s, px[at]);
            s.append(" mean=");
            text::push_number(&mut s, r.mean);
            s.append(" px=");
            text::push_number(&mut s, r.count);
            s
        },
    }
}

// ---- bitmap files ----

/// The bytes of a row in a 24-bit bitmap: a multiple of four.
pub open spec fn row_bytes(w: int) -> int {
    (w * 3 + 3) / 4 * 4
}

/// A number's four bytes, low byte first.
pub open spec fn le_bytes(n: int) -> Seq<u8> {
    seq![
        (n % 0x100) as u8,
        (n / 0x100 % 0x100) as u8,
        (n / 0x1_0000 % 0x100) as u8,
        (n / 0x100_0000 % 0x100) as u8,
    ]
}

/// The headers of a 24-bit bitmap file of `w` by `h` pixels.
pub open spec fn bmp_header(w: int, h: int) -> Seq<u8> {
    seq![0x42u8, 0x4d] + le_bytes(54 + row_bytes(w) * h) + le_bytes(0) + le_bytes(54) + le_bytes(40) + le_bytes(w)
        + le_bytes(h) + seq![1u8, 0, 24, 0] + Seq::new(24, |i: int| 0u8)
}

/// Byte `d` of the pixels of a bitmap file: the rows from the bottom up, and
/// nothing behind a row's last pixel.
pub open spec fn bmp_byte(px: Seq<u8>, w: int, h: int, d: int) -> u8 {
    let y = h - 1 - d / row_bytes(w);
    let c = d % row_bytes(w);
    if c < w * 3 {
        px[(y * w + c / 3) * 4 + c % 3]
    } else {
        0
    }
}

fn push_le(v: &mut Vec<u8>, n: u32)
    ensures
        final(v)@ == old(v)@ + le_bytes(n as int),
{
    v.push((n % 0x100) as u8);
    v.push((n / 0x100 % 0x100) as u8);
    v.push((n / 0x1_0000 % 0x100) as u8);
    v.push((n / 0x100_0000 % 0x100) as u8);
    proof {
        assert(v@ =~= old(v)@ + le_bytes(n as int));
    }
}

/// A BGRA bitmap of `w` by `h` pixels as a 24-bit bitmap file.
pub fn bmp(px: &[u8], w: usize, h: usize) -> (r: Vec<u8>)
    requires
        w * h * 4 <= px@.len(),
        w <= 0x1000_0000,
        h <= 0x1000_0000,
        54 + row_bytes(w as int) * h <= 0xffff_ffff,
    ensures
        r@ == bmp_header(w as int, h as int) + Seq::new(
            (row_bytes(w as int) * h) as nat,
            |d: int| bmp_byte(px@, w as int, h as int, d),
        ),
{
    let len: usize = px.len();
    let row: usize = (w * 3 + 3) / 4 * 4;
    proof {
        assert(0 <= row * h) by (nonlinear_arith)
            requires
                0 <= row,
                0 <= h,
        ;
    }
    let n: usize = row * h;
    let mut r: Vec<u8> = Vec::new();
    r.push(0x42);
    r.push(0x4d);
    push_le(&mut r, 54 + n as u32);
    push_le(&mut r, 0);
    push_le(&mut r, 54);
    push_le(&mut r, 40);
    push_le(&mut r, w as u32);
    push_le(&mut r, h as u32);
    r.push(1);
    r.push(0);
    r.push(24);
    r.push(0);
    let mut k: usize = 0;
    let ghost before = r@;
    while k < 24
        invariant
            k <= 24,
            r@ == before + Seq::new(k as nat, |i: int| 0u8),
        decreases 24 - k,
    {
        r.push(0);
        proof {
            assert(r@ =~= before + Seq::new((k + 1) as nat, |i: int| 0u8));
        }
        k = k + 1;
    }
    let ghost head = r@;
    proof {
        assert(head =~= bmp_header(w as int, h as int));
    }
    let mut d: usize = 0;
    proof {
        assert(r@ =~= head + Seq::new(0, |i: int| bmp_byte(px@, w as int, h as int, i)));
    }
    while d < n
        invariant
            d <= n,
            n == row * h,
            row == row_bytes(w as int),
            len == px@.len(),
            w * h * 4 <= len,
            w <= 0x1000_0000,
            h <= 0x1000_0000,
            r@ == head + Seq::new(d as nat, |i: int| bmp_byte(px@, w as int, h as int, i)),
        decreases n - d,
    {
        proof {
            assert(row > 0) by (nonlinear_arith)
                requires
                    0 <= d < row * h,
                    row >= 0,
            ;
            vstd::arithmetic::div_mod::lemma_fundamental_div_mod(d as int, row as int);
            let q = d as int / row as int;
            assert(0 <= q < h) by (nonlinear_arith)
                requires
                    d == row * q + d as int % row as int,
                    0 <= d as int % (row as int),
                    d as int % (row as int) < row,
                    0 <= d < row * h,
                    row > 0,
                    q == d as int / row as int,
            ;
        }
        let y: usize = h - 1 - d / row;
        let c: usize = d % row;
        let b: u8 = if c < w * 3 {
            proof {
                canvas::offset_parts(c as int / 3, y as int, c as int % 3, w as int, h as int, 4);
                assert(0 <= y * w + c as int / 3) by (nonlinear_arith)
                    requires
                        0 <= y,
                        0 <= w,
                        0 <= c as int / 3,
                ;
                assert(0 <= y * w) by (nonlinear_arith)
                    requires
                        0 <= y,
                        0 <= w,
                ;
            }
            px[(y * w + c / 3) * 4 + c % 3]
        } else {
            0
        };
        r.push(b);
        proof {
            assert(b == bmp_byte(px@, w as int, h as int, d as int));
            assert(r@ =~= head + Seq::new((d + 1) as nat, |i: int| bmp_byte(px@, w as int, h as int, i)));
        }
        d = d + 1;
    }
    r
}

// ---- textures ----

/// More coverage than this counts.
pub const COVERED: u8 = 60;

/// Pixel `i` of a texture with `n` bytes for each pixel is covered.
pub open spec fn covered(buf: Seq<u8>, n: int, i: int) -> bool {
    exists|k: int| 0 <= k < n && #[trigger] buf[i * n + k] > COVERED
}

/// Where a texture of `w` by `h` pixels, `n` bytes for each, is covered.
pub fn covered_part(buf: &[u8], w: usize, h: usize, n: usize) -> (r: Option<Bounds>)
    requires
        w * h * n <= buf@.len(),
        1 <= n <= 3,
    ensures
        bounds_of(r, w as int, w * h, |i: int| covered(buf@, n as int, i)),
{
    let len: usize = buf.len();
    assert(w * h <= w * h * n) by (nonlinear_arith)
        requires
            1 <= n,
            0 <= w * h,
    ;
    let m: usize = w * h;
    let ghost p = |i: int| covered(buf@, n as int, i);
    let mut r: Option<Bounds> = None;
    let mut i: usize = 0;
    while i < m
        invariant
            i <= m,
            m == w * h,
            m * n <= len,
            len == buf@.len(),
            1 <= n <= 3,
            p == (|i: int| covered(buf@, n as int, i)),
            bounds_of(r, w as int, i as int, p),
        decreases m - i,
    {
        let mut hit: bool = false;
        let mut k: usize = 0;
        proof {
            assert(i * n + n <= m * n) by (nonlinear_arith)
                requires
                    i < m,
                    1 <= n,
            ;
        }
        while k < n
            invariant
                k <= n <= 3,
                i * n + n <= m * n <= len,
                len == buf@.len(),
                hit == exists|j: int| 0 <= j < k && #[trigger] buf@[i * n + j] > COVERED,
            decreases n - k,
        {
            let v: u8 = buf[i * n + k];
            if v > COVERED {
                assert(buf@[i * n + k] > COVERED);
                hit = true;
            }
            k = k + 1;
        }
        assert(hit == p(i as int));
        if hit {
            proof {
                assert(w > 0) by (nonlinear_arith)
                    requires
                        0 <= i < w * h,
                ;
            }
            r = grown(r, w, i, Ghost(p));
        } else {
            assert(bounds_of(r, w as int, i + 1, p));
        }
        i = i + 1;
    }
    r
}

/// How far the three values of pixel `i` are apart.
pub open spec fn apart(buf: Seq<u8>, i: int) -> int {
    let (a, b, c) = (buf[i * 3] as int, buf[i * 3 + 1] as int, buf[i * 3 + 2] as int);
    numbers::most(a, numbers::most(b, c)) - numbers::least(a, numbers::least(b, c))
}

/// How far the three values of a pixel are apart, at most, among the first `n`.
pub open spec fn most_apart(buf: Seq<u8>, n: int) -> int
    decreases n,
{
    if n <= 0 {
        0
    } else {
        numbers::most(most_apart(buf, n - 1), apart(buf, n - 1))
    }
}

/// How coloured a texture with three values for each pixel is.
pub fn spread(buf: &[u8]) -> (r: u8)
    ensures
        r == most_apart(buf@, buf@.len() as int / 3),
{
    let len: usize = buf.len();
    let n: usize = len / 3;
    let mut r: u8 = 0;
    let mut i: usize = 0;
    while i < n
        invariant
            i <= n,
            len == buf@.len(),
            n == buf@.len() / 3,
            r == most_apart(buf@, i as int),
        decreases n - i,
    {
        let (a, b, c): (u8, u8, u8) = (buf[i * 3], buf[i * 3 + 1], buf[i * 3 + 2]);
        let hi: u8 = if a > b {
            if a > c {
                a
            } else {
                c
            }
        } else if b > c {
            b
        } else {
            c
        };
        let lo: u8 = if a < b {
            if a < c {
                a
            } else {
                c
            }
        } else if b < c {
            b
        } else {
            c
        };
        if hi - lo > r {
            r = hi - lo;
        }
        i = i + 1;
    }
    r
}

/// Coverage the other way round: ink is dark.
pub fn inverted(cov: &[u8]) -> (r: Vec<u8>)
    ensures
        r@ == Seq::new(cov@.len(), |i: int| (255 - cov@[i]) as u8),
{
    let mut r: Vec<u8> = Vec::new();
    let mut i: usize = 0;
    while i < cov.len()
        invariant
            i <= cov@.len(),
            r@.len() == i,
            forall|j: int| 0 <= j < i ==> r@[j] == (255 - cov@[j]) as u8,
        decreases cov@.len() - i,
    {
        r.push(255 - cov[i]);
        i = i + 1;
    }
    proof {
        assert(r@ =~= Seq::new(cov@.len(), |i: int| (255 - cov@[i]) as u8));
    }
    r
}

/// Byte `i` of a BGRA bitmap of width `w` with black text on it, whose
/// subpixel coverage `cov` (red, green, blue) is for `bounds`.
pub open spec fn inked_byte(px: Seq<u8>, w: int, cov: Seq<u8>, bounds: Rect, i: int) -> u8 {
    let x = canvas::column(i, w, 4);
    let y = canvas::line(i, w, 4);
    let k = i % 4;
    if k < 3 && bounds.0 <= x < bounds.2 && bounds.1 <= y < bounds.3 {
        let at = ((y - bounds.1) * (bounds.2 - bounds.0) + (x - bounds.0)) * 3 + 2 - k;
        (px[i] * (255 - cov[at]) / 255) as u8
    } else {
        px[i]
    }
}

/// Composite black text onto a BGRA bitmap of `w` by `h` pixels, from its
/// subpixel coverage.
pub fn composited(px: &[u8], w: usize, h: usize, cov: &[u8], bounds: Rect) -> (r: Vec<u8>)
    requires
        w * h * 4 == px@.len(),
        w <= 0x1000_0000,
        h <= 0x1000_0000,
        bounds.0 <= bounds.2,
        bounds.1 <= bounds.3,
        (bounds.2 - bounds.0) * (bounds.3 - bounds.1) * 3 == cov@.len(),
    ensures
        r@ == Seq::new(px@.len(), |i: int| inked_byte(px@, w as int, cov@, bounds, i)),
{
    let (left, top, right, bottom): (i64, i64, i64, i64) = (
        bounds.0 as i64,
        bounds.1 as i64,
        bounds.2 as i64,
        bounds.3 as i64,
    );
    let n: usize = px.len();
    let m: usize = cov.len();
    let mut r: Vec<u8> = Vec::new();
    let mut i: usize = 0;
    while i < n
        invariant
            i <= n,
            n == px@.len(),
            m == cov@.len(),
            w * h * 4 == n,
            w <= 0x1000_0000,
            h <= 0x1000_0000,
            left == bounds.0,
            top == bounds.1,
            right == bounds.2,
            bottom == bounds.3,
            (right - left) * (bottom - top) * 3 == m,
            r@.len() == i,
            forall|j: int| 0 <= j < i ==> r@[j] == inked_byte(px@, w as int, cov@, bounds, j),
        decreases n - i,
    {
        proof {
            canvas::position_parts(i as int, w as int, h as int, 4);
        }
        let x: i64 = (i / 4 % w) as i64;
        let y: i64 = (i / 4 / w) as i64;
        let k: usize = i % 4;
        let b: u8 = if k < 3 && left <= x && x < right && top <= y && y < bottom {
            proof {
                canvas::offset_parts(x - left, y - top, 2 - k as int, right - left, bottom - top, 3);
                assert(0 <= (y - top) * (right - left)) by (nonlinear_arith)
                    requires
                        0 <= y - top,
                        0 <= right - left,
                ;
                assert(((y - top) * (right - left) + (x - left)) * 3 + (2 - k) < m);
            }
            let at: usize = ((y - top) as usize * (right - left) as usize + (x - left) as usize) * 3 + 2 - k;
            let v: u32 = px[i] as u32;
            let c: u32 = cov[at] as u32;
            assert(v * (255 - c) <= 255 * 255) by (nonlinear_arith)
                requires
                    v <= 255,
                    c <= 255,
            ;
            assert(v * (255 - c) >= 0) by (nonlinear_arith)
                requires
                    v <= 255,
                    c <= 255,
            ;
            (v * (255 - c) / 255) as u8
        } else {
            px[i]
        };
        r.push(b);
        i = i + 1;
    }
    proof {
        assert(r@ =~= Seq::new(px@.len(), |i: int| inked_byte(px@, w as int, cov@, bounds, i)));
    }
    r
}

// ---- laws ----

/// A pixel's light is the sum of its three colours; it is ink unless all three
/// are full.
pub proof fn ink_is_what_is_not_white(px: Seq<u8>, i: int)
    ensures
        light(px, i) == px[4 * i] + px[4 * i + 1] + px[4 * i + 2],
        inked(px, i) <==> !(px[4 * i] == 255 && px[4 * i + 1] == 255 && px[4 * i + 2] == 255),
{
    assert(i * 4 == 4 * i);
}

/// Ink is counted, and how far it is from white added up, pixel by pixel.
pub proof fn ink_is_counted_pixel_by_pixel(px: Seq<u8>, n: int)
    requires
        0 <= n,
    ensures
        ink_count(px, 0) == 0 && ink_sum(px, 0) == 0,
        inked(px, n) ==> ink_count(px, n + 1) == ink_count(px, n) + 1,
        !inked(px, n) ==> ink_count(px, n + 1) == ink_count(px, n),
        ink_sum(px, n + 1) == ink_sum(px, n) + (765 - (px[4 * n] + px[4 * n + 1] + px[4 * n + 2])),
{
    assert(n * 4 == 4 * n);
}

/// Bounds hold a pixel in their columns and rows, both ends among them.
pub proof fn bounds_hold_columns_and_rows(b: Bounds, w: int, x: int, y: int)
    requires
        0 <= x < w,
        0 <= y,
    ensures
        within(b, w, y * w + x) <==> b.left <= x <= b.right && b.top <= y <= b.bottom,
{
    vstd::arithmetic::div_mod::lemma_fundamental_div_mod_converse(y * w + x, w, y, x);
}

/// A byte is written as its two hexadecimal digits, in small letters.
pub proof fn hexadecimal_digits(b: u8, d: int)
    ensures
        hex(b).len() == 2,
        0 <= d < 10 ==> hex_digit(d) as u32 == 48 + d,
        10 <= d < 16 ==> hex_digit(d) as u32 == 97 + (d - 10),
        hex(b)[0] == hex_digit(b as int / 16) && hex(b)[1] == hex_digit(b as int % 16),
{
}

/// The rows of a bitmap file are as short as they can be with three bytes for
/// each pixel and a multiple of four in all.
pub proof fn rows_are_padded_to_four_bytes(w: int)
    requires
        0 <= w,
    ensures
        row_bytes(w) % 4 == 0,
        3 * w <= row_bytes(w) < 3 * w + 4,
{
}

/// A bitmap file has its rows from the bottom up: byte `k` (blue, green, red)
/// of the pixel in column `x` and row `y` stands in the row as many from the
/// end, and the bytes behind a row's pixels are 0.
pub proof fn a_bitmap_file_has_the_bottom_row_first(px: Seq<u8>, w: int, h: int, x: int, y: int, k: int, c: int)
    requires
        0 <= x < w,
        0 <= y < h,
        0 <= k < 3,
        3 * w <= c < row_bytes(w),
    ensures
        bmp_byte(px, w, h, (h - 1 - y) * row_bytes(w) + 3 * x + k) == px[(y * w + x) * 4 + k],
        bmp_byte(px, w, h, (h - 1 - y) * row_bytes(w) + c) == 0,
{
    let row = row_bytes(w);
    let q = h - 1 - y;
    vstd::arithmetic::div_mod::lemma_fundamental_div_mod_converse(q * row + (3 * x + k), row, q, 3 * x + k);
    vstd::arithmetic::div_mod::lemma_fundamental_div_mod_converse(q * row + c, row, q, c);
    assert((3 * x + k) / 3 == x && (3 * x + k) % 3 == k);
}

/// The headers of a bitmap file: `BM`, the file's length, where the pixels
/// start (54), the size of the second header (40), the width, the height, one
/// plane and 24 bits; every other byte is 0.
pub proof fn the_headers_of_a_bitmap_file(w: int, h: int)
    requires
        0 <= w < 0x1_0000_0000,
        0 <= h < 0x1_0000_0000,
        54 + row_bytes(w) * h < 0x1_0000_0000,
        0 <= row_bytes(w) * h,
    ensures
        ({
            let b = bmp_header(w, h);
            &&& b.len() == 54
            &&& b[0] == 0x42 && b[1] == 0x4d
            &&& b[2] + 0x100 * b[3] + 0x1_0000 * b[4] + 0x100_0000 * b[5] == 54 + row_bytes(w) * h
            &&& b[6] == 0 && b[7] == 0 && b[8] == 0 && b[9] == 0
            &&& b[10] == 54 && b[11] == 0 && b[12] == 0 && b[13] == 0
            &&& b[14] == 40 && b[15] == 0 && b[16] == 0 && b[17] == 0
            &&& b[18] + 0x100 * b[19] + 0x1_0000 * b[20] + 0x100_0000 * b[21] == w
            &&& b[22] + 0x100 * b[23] + 0x1_0000 * b[24] + 0x100_0000 * b[25] == h
            &&& b[26] == 1 && b[27] == 0 && b[28] == 24 && b[29] == 0
            &&& forall|i: int| 30 <= i < 54 ==> b[i] == 0
        }),
{
    four_bytes(54 + row_bytes(w) * h);
    four_bytes(0);
    four_bytes(54);
    four_bytes(40);
    four_bytes(w);
    four_bytes(h);
}

proof fn four_bytes(n: int)
    requires
        0 <= n < 0x1_0000_0000,
    ensures
        ({
            let b = le_bytes(n);
            &&& b.len() == 4
            &&& b[0] + 0x100 * b[1] + 0x1_0000 * b[2] + 0x100_0000 * b[3] == n
            &&& n < 0x100 ==> b[0] == n && b[1] == 0 && b[2] == 0 && b[3] == 0
        }),
{
    assert(n / 0x1_0000 == n / 0x100 / 0x100);
    assert(n / 0x100_0000 == n / 0x1_0000 / 0x100);
}

/// A pixel of a texture is covered if any of its bytes is above 60.
pub proof fn more_than_60_covers(buf: Seq<u8>, n: int, i: int, k: int)
    requires
        0 <= k < n,
    ensures
        buf[i * n + k] > 60 ==> covered(buf, n, i),
        (forall|j: int| 0 <= j < n ==> #[trigger] buf[i * n + j] <= 60) ==> !covered(buf, n, i),
{
}

/// A texture is as coloured as its most coloured pixel: no two values of a
/// pixel are further apart, and unless nothing is coloured two of one are.
pub proof fn colours_are_this_far_apart(buf: Seq<u8>, n: int, i: int, j: int, k: int)
    requires
        0 <= i < n,
        0 <= j < 3,
        0 <= k < 3,
    ensures
        most_apart(buf, n) >= buf[3 * i + j] - buf[3 * i + k],
        most_apart(buf, n) > 0 ==> exists|m: int| 0 <= m < n && #[trigger] apart(buf, m) == most_apart(buf, n),
        apart(buf, i) >= buf[3 * i + j] - buf[3 * i + k],
        ({
            let (a, b, c) = (buf[3 * i] as int, buf[3 * i + 1] as int, buf[3 * i + 2] as int);
            apart(buf, i) == a - b || apart(buf, i) == a - c || apart(buf, i) == b - a || apart(buf, i) == b - c
                || apart(buf, i) == c - a || apart(buf, i) == c - b || apart(buf, i) == 0
        }),
{
    assert(i * 3 == 3 * i);
    apart_at_most(buf, n, i);
}

proof fn apart_at_most(buf: Seq<u8>, n: int, i: int)
    requires
        0 <= i < n,
    ensures
        most_apart(buf, n) >= apart(buf, i),
        most_apart(buf, n) > 0 ==> exists|m: int| 0 <= m < n && #[trigger] apart(buf, m) == most_apart(buf, n),
    decreases n,
{
    if n > 1 {
        apart_at_most(buf, n - 1, if i < n - 1 {
            i
        } else {
            0
        });
        if most_apart(buf, n) > 0 && most_apart(buf, n) != apart(buf, n - 1) {
            let m = choose|m: int| 0 <= m < n - 1 && #[trigger] apart(buf, m) == most_apart(buf, n - 1);
            assert(apart(buf, m) == most_apart(buf, n));
        }
    } else {
        assert(most_apart(buf, 0) == 0);
        assert(apart(buf, 0) >= 0);
    }
}

/// Black text takes from each colour of a pixel in its bounds as much of 255 as
/// the colour's own coverage is, rounded so that no more than that is left;
/// the alpha, and every other pixel, stays.
pub proof fn black_text_darkens_each_colour(
    px: Seq<u8>,
    w: int,
    h: int,
    cov: Seq<u8>,
    bounds: Rect,
    x: int,
    y: int,
    k: int,
)
    requires
        0 <= x < w,
        0 <= y < h,
        0 <= k < 4,
    ensures
        ({
            let i = (y * w + x) * 4 + k;
            let got = inked_byte(px, w, cov, bounds, i) as int;
            let inside = bounds.0 <= x < bounds.2 && bounds.1 <= y < bounds.3;
            let at = ((y - bounds.1) * (bounds.2 - bounds.0) + (x - bounds.0)) * 3;
            let left = px[i] * (255 - cov[at + 2 - k]);
            &&& k < 3 && inside ==> 255 * got <= left < 255 * (got + 1)
            &&& k == 3 || !inside ==> got == px[i]
        }),
{
    canvas::offset_parts(x, y, k, w, h, 4);
    let i = (y * w + x) * 4 + k;
    let at = ((y - bounds.1) * (bounds.2 - bounds.0) + (x - bounds.0)) * 3 + 2 - k;
    let (v, c) = (px[i] as int, cov[at] as int);
    assert(0 <= v * (255 - c) <= 255 * 255) by (nonlinear_arith)
        requires
            0 <= v <= 255,
            0 <= c <= 255,
    ;
}

} // verus!
