//! Where DirectWrite puts each glyph of a run, in device pixels; shared by
//! every path that rasterises a run itself.
//!
//! * The pen starts at the baseline origin and moves by the run's advances,
//!   or by the font's own where it gives none: design metrics in the natural
//!   measuring mode, GDI-compatible ones in the GDI modes.
//! * `advanceOffset` shifts a glyph along the reading direction,
//!   `ascenderOffset` shifts it up.
//! * An odd `bidiLevel` runs right to left: the glyph's right edge, by its own
//!   advance and not the run's, sits on the pen, and then the pen moves left
//!   by the run's advance.
//! * `isSideways` turns each glyph a quarter counter-clockwise, advances by
//!   vertical metrics, and puts the vertical origin on the pen.
//! * A device pixel is pixelsPerDip times the transformed point. Only a
//!   uniform positive scale with a translation is handled; anything else is
//!   left to DirectWrite.
//!
//! Lengths are fixed-point numbers: whole numbers of `1 / ONE`. Nothing is
//! rounded on the way to a pixel, and every length has one: what is far away
//! is drawn at the furthest pixel there is.

use vstd::prelude::*;

use crate::ft::GlyphStyle;
use crate::numbers;
use crate::render::Placed;
use crate::wide::Wide;

verus! {

pub const ONE: i64 = 0x1_0000_0000;

/// A pixel, counted in the product of three fixed-point numbers.
pub const PIXEL: i128 = 0x1_0000_0000_0000_0000_0000_0000;

/// No device coordinate is further from 0 than this.
pub const FAR: i32 = 1_000_000;

/// `n`, but no further from 0 than `FAR`.
pub open spec fn in_reach(n: int) -> int {
    if n > FAR {
        FAR as int
    } else if n < -FAR {
        -FAR
    } else {
        n
    }
}

proof fn product_bound(a: int, b: int, m: int, n: int)
    requires
        -m <= a <= m,
        -n <= b <= n,
    ensures
        -(m * n) <= a * b <= m * n,
{
    assert(a * b <= m * n && -(m * n) <= a * b) by (nonlinear_arith)
        requires
            -m <= a <= m,
            -n <= b <= n,
    ;
}

fn product(a: i64, b: i64) -> (r: i128)
    ensures
        r == a * b,
        -MAX_PRODUCT <= r <= MAX_PRODUCT,
{
    proof {
        product_bound(a as int, b as int, 0x8000_0000_0000_0000, 0x8000_0000_0000_0000);
        assert(0x8000_0000_0000_0000int * 0x8000_0000_0000_0000int == 0x4000_0000_0000_0000_0000_0000_0000_0000int)
            by (nonlinear_arith);
    }
    a as i128 * b as i128
}

fn magnitude_of(v: i128) -> (r: u128)
    requires
        v > i128::MIN,
    ensures
        r == numbers::magnitude(v as int),
{
    if v < 0 {
        (-v) as u128
    } else {
        v as u128
    }
}

// ---- from DIPs to device pixels ----

/// No product of two fixed-point numbers is further from 0 than this.
pub const MAX_PRODUCT: i128 = 0x4000_0000_0000_0000_0000_0000_0000_0000;

/// A transform of points, as Direct2D and DirectWrite have it.
#[derive(Clone, Copy, Debug, PartialEq, Eq, Structural)]
pub struct Transform {
    pub m11: i64,
    pub m12: i64,
    pub m21: i64,
    pub m22: i64,
    pub dx: i64,
    pub dy: i64,
}

/// A uniform positive scale, up to a ten-thousandth.
pub open spec fn uniform(m: Transform) -> bool {
    &&& numbers::magnitude(m.m12 as int) * 10_000 < ONE
    &&& numbers::magnitude(m.m21 as int) * 10_000 < ONE
    &&& m.m11 > 0
    &&& numbers::magnitude(m.m11 - m.m22) * 10_000 < numbers::most(m.m11 as int, ONE as int)
}

/// DIP to device pixel: a uniform scale and a translation, each counted in
/// `1 / (ONE * ONE)`.
#[derive(Clone, Copy, Debug, PartialEq, Eq, Structural)]
pub struct Mapping {
    pub scale: i128,
    pub dx: i128,
    pub dy: i128,
}

impl Mapping {
    pub open spec fn ok(self) -> bool {
        &&& 0 <= self.scale <= MAX_PRODUCT
        &&& -MAX_PRODUCT <= self.dx <= MAX_PRODUCT
        &&& -MAX_PRODUCT <= self.dy <= MAX_PRODUCT
    }

    /// The device coordinate of the DIP coordinate `n / d`, where the
    /// translation is `by`: the nearest pixel that is in reach.
    pub open spec fn device(self, n: int, d: int, by: int) -> int {
        in_reach(numbers::nearest(self.scale * n + by * (ONE * d), PIXEL * d))
    }

    /// The device pixel of a point.
    pub open spec fn point(self, x: int, y: int) -> (int, int) {
        (self.device(x, 1, self.dx as int), self.device(y, 1, self.dy as int))
    }

    /// The mapping `pixel = ppd * (m * dip)`; `None` where `m` turns, skews,
    /// mirrors or scales unequally.
    pub fn new(m: &Transform, ppd: i64) -> (r: Option<Mapping>)
        ensures
            r is Some <==> uniform(*m) && ppd > 0,
            r matches Some(map) ==> {
                &&& map.scale == ppd * m.m11
                &&& map.dx == ppd * m.dx
                &&& map.dy == ppd * m.dy
                &&& map.ok()
            },
    {
        let larger: u128 = if m.m11 > ONE {
            m.m11 as u128
        } else {
            ONE as u128
        };
        let even: bool = magnitude_of(m.m12 as i128) * 10_000 < ONE as u128 && magnitude_of(m.m21 as i128) * 10_000
            < ONE as u128 && m.m11 > 0 && magnitude_of(m.m11 as i128 - m.m22 as i128) * 10_000 < larger;
        if !even || ppd <= 0 {
            return None;
        }
        proof {
            let (p, s) = (ppd as int, m.m11 as int);
            assert(p * s >= 0) by (nonlinear_arith)
                requires
                    p > 0,
                    s > 0,
            ;
        }
        Some(Mapping { scale: product(ppd, m.m11), dx: product(ppd, m.dx), dy: product(ppd, m.dy) })
    }

    /// The device coordinate of `n / d`.
    fn to_device(&self, n: i128, d: i128, by: i128) -> (r: i32)
        requires
            self.ok(),
            n > i128::MIN,
            0 < d <= 0x2_0000,
            -MAX_PRODUCT <= by <= MAX_PRODUCT,
        ensures
            r == self.device(n as int, d as int, by as int),
    {
        let ghost (s, ni, di, b) = (self.scale as int, n as int, d as int, by as int);
        let scaled: Wide = Wide::product(self.scale as u128, magnitude_of(n));
        let moved: Wide = Wide::product(magnitude_of(by), 0x1_0000_0000 * d as u128);
        let ghost (p, q) = (s * ni, b * (ONE * di));
        proof {
            sizes(s, ni, b, di);
        }
        let (negative, size): (bool, Wide) = if (n < 0) == (by < 0) {
            (n < 0, scaled.plus(moved))
        } else if scaled.is_less(moved) {
            (by < 0, moved.minus(scaled))
        } else {
            (n < 0, scaled.minus(moved))
        };
        assert(size.value() == numbers::magnitude(p + q));
        assert(size.value() > 0 ==> negative == (p + q < 0));
        // Half a pixel more, in whole pixels, rounded down.
        let half: Wide = Wide::product(0x8000_0000_0000_0000_0000_0000, d as u128);
        proof {
            half_up(size.value(), di);
            assert(0x1_0000_0000_0000_0000_0000_0000int * 0x1_0000_0000int
                == 0x1_0000_0000_0000_0000_0000_0000_0000_0000int) by (nonlinear_arith);
        }
        let pixels: i32 = match size.plus(half).quotient(0x1_0000_0000_0000_0000_0000_0000, 0x1_0000_0000) {
            Some(parts) => {
                let whole: u128 = parts / d as u128;
                if whole > 1_000_000 {
                    FAR
                } else {
                    whole as i32
                }
            },
            None => FAR,
        };
        proof {
            assert(numbers::nearest(p + q, PIXEL * di) == (if p + q < 0 {
                -numbers::nearest(size.value(), PIXEL * di)
            } else {
                numbers::nearest(size.value(), PIXEL * di)
            }));
            assert(pixels == in_reach(numbers::nearest(size.value(), PIXEL * di)));
            // Nothing has no sign.
            numbers::nearest_is_no_further(0, PIXEL * di);
        }
        if negative {
            -pixels
        } else {
            pixels
        }
    }
}

/// What the two products of a mapped length are, by their sizes.
proof fn sizes(s: int, n: int, by: int, d: int)
    requires
        0 <= s <= MAX_PRODUCT,
        i128::MIN < n <= i128::MAX,
        -MAX_PRODUCT <= by <= MAX_PRODUCT,
        0 < d <= 0x2_0000,
    ensures
        s * numbers::magnitude(n) == numbers::magnitude(s * n),
        numbers::magnitude(by) * (ONE * d) == numbers::magnitude(by * (ONE * d)),
        n >= 0 ==> s * n >= 0,
        n <= 0 ==> s * n <= 0,
        by >= 0 ==> by * (ONE * d) >= 0,
        by <= 0 ==> by * (ONE * d) <= 0,
        numbers::magnitude(s * n) <= 0x2000_0000_0000_0000_0000_0000_0000_0000_0000_0000_0000_0000_0000_0000_0000_0000int,
        numbers::magnitude(by * (ONE * d)) <= 0x8000_0000_0000_0000_0000_0000_0000_0000_0000_0000_0000int,
{
    let (m, w, c) = (numbers::magnitude(n), numbers::magnitude(by), ONE * d);
    product_bound(s, n, MAX_PRODUCT as int, 0x8000_0000_0000_0000_0000_0000_0000_0000int);
    product_bound(by, c, MAX_PRODUCT as int, 0x2_0000_0000_0000);
    assert(MAX_PRODUCT * 0x8000_0000_0000_0000_0000_0000_0000_0000int
        == 0x2000_0000_0000_0000_0000_0000_0000_0000_0000_0000_0000_0000_0000_0000_0000_0000int) by (nonlinear_arith)
        requires
            MAX_PRODUCT == 0x4000_0000_0000_0000_0000_0000_0000_0000,
    ;
    assert(MAX_PRODUCT * 0x2_0000_0000_0000int == 0x8000_0000_0000_0000_0000_0000_0000_0000_0000_0000_0000int)
        by (nonlinear_arith)
        requires
            MAX_PRODUCT == 0x4000_0000_0000_0000_0000_0000_0000_0000,
    ;
    assert(s * m == (if n < 0 {
        -(s * n)
    } else {
        s * n
    }) && s * m >= 0 && (n == 0 ==> s * n == 0)) by (nonlinear_arith)
        requires
            s >= 0,
            m == (if n < 0 {
                -n
            } else {
                n
            }),
    ;
    assert(w * c == (if by < 0 {
        -(by * c)
    } else {
        by * c
    }) && w * c >= 0 && (by == 0 ==> by * c == 0)) by (nonlinear_arith)
        requires
            c > 0,
            w == (if by < 0 {
                -by
            } else {
                by
            }),
    ;
}

/// Rounding a length of `m / d` to whole pixels.
proof fn half_up(m: int, d: int)
    requires
        m >= 0,
        0 < d <= 0x2_0000,
    ensures
        numbers::nearest(m, PIXEL * d) == (m + 0x8000_0000_0000_0000_0000_0000 * d) / (PIXEL as int) / d,
        (m + 0x8000_0000_0000_0000_0000_0000 * d) / (PIXEL as int)
            >= 0x1_0000_0000_0000_0000_0000_0000_0000_0000int ==> numbers::nearest(m, PIXEL * d) > FAR,
{
    let h = m + 0x8000_0000_0000_0000_0000_0000 * d;
    let c = PIXEL * d;
    assert(c > 0);
    vstd::arithmetic::div_mod::lemma_div_multiples_vanish_quotient(2, h, c);
    assert(2 * m + c == 2 * h);
    vstd::arithmetic::div_mod::lemma_div_denominator(h, PIXEL as int, d);
    let t = h / (PIXEL as int);
    if t >= 0x1_0000_0000_0000_0000_0000_0000_0000_0000int {
        assert(t / d > 1_000_000) by (nonlinear_arith)
            requires
                t >= 0x1_0000_0000_0000_0000_0000_0000_0000_0000int,
                0 < d <= 0x2_0000,
        ;
    }
}

// ---- a run ----

/// A glyph's metrics, in design units.
#[derive(Clone, Copy, Debug, PartialEq, Eq, Structural)]
pub struct Metrics {
    pub advance_width: u32,
    pub advance_height: u32,
    pub vertical_origin_y: i32,
}

/// How far a glyph is moved along the reading direction, and up.
#[derive(Clone, Copy, Debug, PartialEq, Eq, Structural)]
pub struct Offset {
    pub along: i64,
    pub up: i64,
}

/// A glyph run as a program hands it to DirectWrite, with the font's metrics
/// for its glyphs.
#[derive(Clone, Copy)]
pub struct Run<'a> {
    pub glyphs: &'a [u16],
    pub advances: Option<&'a [i64]>,
    pub offsets: Option<&'a [Offset]>,
    pub em: i64,
    pub bidi_level: u32,
    pub sideways: bool,
    /// `DWRITE_FONT_SIMULATIONS`: 1 is bold, 2 is oblique.
    pub simulations: i32,
    pub units_per_em: u16,
    pub design: &'a [Metrics],
    /// What the font's advances are, in a GDI measuring mode.
    pub gdi: Option<&'a [Metrics]>,
}

/// A length in the run is a whole number of parts: `units_per_em` parts are
/// `1 / ONE` of a DIP, so that a design unit is `em` parts.
impl<'a> Run<'a> {
    /// What is given is given for every glyph, and DirectWrite can count them.
    pub open spec fn ok(self) -> bool {
        &&& self.glyphs@.len() <= u32::MAX
        &&& self.design@.len() == self.glyphs@.len()
        &&& self.gdi is Some ==> self.gdi->0@.len() == self.glyphs@.len()
        &&& self.advances is Some ==> self.advances->0@.len() == self.glyphs@.len()
        &&& self.offsets is Some ==> self.offsets->0@.len() == self.glyphs@.len()
    }

    pub open spec fn right_to_left(self) -> bool {
        self.bidi_level % 2 == 1
    }

    /// A length in parts.
    pub open spec fn parts(self, length: int) -> int {
        length * self.units_per_em
    }

    /// The font's own advance of glyph `i`.
    pub open spec fn own_advance(self, i: int) -> int {
        let m = match self.gdi {
            Some(g) => g@[i],
            None => self.design@[i],
        };
        self.em * (if self.sideways {
            m.advance_height
        } else {
            m.advance_width
        })
    }

    /// How far glyph `i` moves the pen.
    pub open spec fn advance(self, i: int) -> int {
        match self.advances {
            Some(a) => self.parts(a@[i] as int),
            None => self.own_advance(i),
        }
    }

    pub open spec fn offset(self, i: int) -> Offset {
        match self.offsets {
            Some(o) => o@[i],
            None => Offset { along: 0, up: 0 },
        }
    }

    /// Where the pen is before glyph `n`, from the baseline's origin.
    pub open spec fn pen(self, n: int) -> int
        decreases n,
    {
        if n <= 0 {
            0
        } else if self.right_to_left() {
            self.pen(n - 1) - self.advance(n - 1)
        } else {
            self.pen(n - 1) + self.advance(n - 1)
        }
    }

    /// How far glyph `i` goes to the right of the baseline's origin.
    pub open spec fn across(self, i: int) -> int {
        let along = self.parts(self.offset(i).along as int);
        let x = if self.right_to_left() {
            self.pen(i) - self.own_advance(i) - along
        } else {
            self.pen(i) + along
        };
        if self.sideways {
            x + self.em * self.design@[i].vertical_origin_y
        } else {
            x
        }
    }

    /// How far glyph `i` goes below the baseline's origin, in half parts.
    pub open spec fn down(self, i: int) -> int {
        (if self.sideways {
            self.em * self.design@[i].advance_width
        } else {
            0
        }) - 2 * self.parts(self.offset(i).up as int)
    }

    /// Glyph `i` of the run drawn at `baseline`, in device pixels.
    pub open spec fn placed(self, baseline: (i64, i64), map: Mapping, i: int) -> Placed {
        let per = self.units_per_em as int;
        Placed {
            gi: self.glyphs@[i],
            x: map.device(self.parts(baseline.0 as int) + self.across(i), per, map.dx as int) as i32,
            y: map.device(2 * self.parts(baseline.1 as int) + self.down(i), 2 * per, map.dy as int) as i32,
        }
    }

    /// How the run's glyphs are to be rendered; a size past 64 bits is the
    /// largest that is not.
    pub open spec fn style(self, map: Mapping) -> GlyphStyle {
        GlyphStyle {
            size_26_6: numbers::least(numbers::nearest(64 * (self.em * map.scale), PIXEL as int), i64::MAX as int) as i64,
            sideways: self.sideways,
            bold: self.simulations & 1 != 0,
            oblique: self.simulations & 2 != 0,
        }
    }
}

/// A run laid out in device pixels.
#[derive(Debug)]
pub struct RunGeometry {
    pub glyphs: Vec<Placed>,
    pub style: GlyphStyle,
    /// The baseline's origin.
    pub origin: (i32, i32),
}

/// The most parts that one glyph moves the pen by.
const STEP: i128 = 0x8000_0000_0000_0000_0000_0000;

impl<'a> Run<'a> {
    fn to_parts(&self, length: i64) -> (r: i128)
        ensures
            r == self.parts(length as int),
            -0x8000_0000_0000_0000_0000 <= r <= 0x8000_0000_0000_0000_0000,
    {
        proof {
            product_bound(length as int, self.units_per_em as int, 0x8000_0000_0000_0000, 0x1_0000);
        }
        product(length, self.units_per_em as i64)
    }

    /// A length in design units.
    fn of_units(&self, units: i64) -> (r: i128)
        requires
            -0x1_0000_0000 <= units <= 0x1_0000_0000,
        ensures
            r == self.em * units,
            -0x8000_0000_0000_0000_0000_0000 <= r <= 0x8000_0000_0000_0000_0000_0000,
            -0x8000_0000 <= units <= 0x8000_0000 ==> -0x4000_0000_0000_0000_0000_0000 <= r
                <= 0x4000_0000_0000_0000_0000_0000,
    {
        proof {
            product_bound(self.em as int, units as int, 0x8000_0000_0000_0000, 0x1_0000_0000);
            if -0x8000_0000 <= units <= 0x8000_0000 {
                product_bound(self.em as int, units as int, 0x8000_0000_0000_0000, 0x8000_0000);
            }
        }
        product(self.em, units)
    }

    fn own_advance_of(&self, i: usize) -> (r: i128)
        requires
            self.ok(),
            i < self.glyphs@.len(),
        ensures
            r == self.own_advance(i as int),
            -0x8000_0000_0000_0000_0000_0000 <= r <= 0x8000_0000_0000_0000_0000_0000,
    {
        let m: Metrics = match self.gdi {
            Some(g) => g[i],
            None => self.design[i],
        };
        let units: u32 = if self.sideways {
            m.advance_height
        } else {
            m.advance_width
        };
        self.of_units(units as i64)
    }

    fn size_of(&self, map: &Mapping) -> (r: i64)
        requires
            map.ok(),
            self.em > 0,
        ensures
            r == self.style(*map).size_26_6,
    {
        let size: Wide = Wide::product(self.em as u128, map.scale as u128);
        let half: Wide = Wide { hi: 0, lo: 0x200_0000_0000_0000_0000_0000 };
        proof {
            let (e, s) = (self.em as int, map.scale as int);
            product_bound(e, s, 0x8000_0000_0000_0000, MAX_PRODUCT as int);
            assert(e * s >= 0) by (nonlinear_arith)
                requires
                    e > 0,
                    s >= 0,
            ;
            assert(0x400_0000_0000_0000_0000_0000int * 0x40_0000_0000int
                == 0x1_0000_0000_0000_0000_0000_0000_0000_0000int) by (nonlinear_arith);
            size_rounds(e * s);
        }
        match size.plus(half).quotient(0x400_0000_0000_0000_0000_0000, 0x40_0000_0000) {
            Some(n) => if n > i64::MAX as u128 {
                i64::MAX
            } else {
                n as i64
            },
            None => i64::MAX,
        }
    }
}

proof fn size_rounds(m: int)
    requires
        m >= 0,
    ensures
        numbers::nearest(64 * m, PIXEL as int) == (m + 0x200_0000_0000_0000_0000_0000) / 0x400_0000_0000_0000_0000_0000,
{
    let h = m + 0x200_0000_0000_0000_0000_0000;
    vstd::arithmetic::div_mod::lemma_div_multiples_vanish_quotient(128, h, 0x400_0000_0000_0000_0000_0000);
}

/// Lay out `run` drawn at `baseline`. A run without an em size is left to
/// DirectWrite.
pub fn lay_out(run: &Run<'_>, baseline: (i64, i64), map: &Mapping) -> (r: Option<RunGeometry>)
    requires
        run.ok(),
        map.ok(),
    ensures
        r is Some <==> run.em > 0 && run.units_per_em > 0,
        r matches Some(g) ==> {
            &&& g.glyphs@ == Seq::new(run.glyphs@.len(), |i: int| run.placed(baseline, *map, i))
            &&& g.style == run.style(*map)
            &&& (g.origin.0 as int, g.origin.1 as int) == map.point(baseline.0 as int, baseline.1 as int)
        },
{
    if run.em <= 0 || run.units_per_em == 0 {
        return None;
    }
    let rtl: bool = run.bidi_level % 2 == 1;
    let per: i128 = run.units_per_em as i128;
    let left: i128 = run.to_parts(baseline.0);
    let top: i128 = run.to_parts(baseline.1);
    let mut glyphs: Vec<Placed> = Vec::new();
    let mut pen: i128 = 0;
    let mut i: usize = 0;
    while i < run.glyphs.len()
        invariant
            run.ok(),
            map.ok(),
            run.units_per_em > 0,
            per == run.units_per_em,
            left == run.parts(baseline.0 as int),
            top == run.parts(baseline.1 as int),
            -0x8000_0000_0000_0000_0000 <= left <= 0x8000_0000_0000_0000_0000,
            -0x8000_0000_0000_0000_0000 <= top <= 0x8000_0000_0000_0000_0000,
            rtl == run.right_to_left(),
            i <= run.glyphs@.len(),
            pen == run.pen(i as int),
            -(i * STEP) <= pen <= i * STEP,
            glyphs@ == Seq::new(i as nat, |j: int| run.placed(baseline, *map, j)),
        decreases run.glyphs@.len() - i,
    {
        let own: i128 = run.own_advance_of(i);
        let advance: i128 = match run.advances {
            Some(a) => run.to_parts(a[i]),
            None => own,
        };
        let o: Offset = match run.offsets {
            Some(o) => o[i],
            None => Offset { along: 0, up: 0 },
        };
        let along: i128 = run.to_parts(o.along);
        let up: i128 = run.to_parts(o.up);
        let x: i128 = if rtl {
            pen - own - along
        } else {
            pen + along
        };
        let (right, down): (i128, i128) = if run.sideways {
            let m: Metrics = run.design[i];
            (run.of_units(m.vertical_origin_y as i64), run.of_units(m.advance_width as i64))
        } else {
            (0, 0)
        };
        assert(x + right == run.across(i as int));
        assert(down - 2 * up == run.down(i as int));
        glyphs.push(
            Placed {
                gi: run.glyphs[i],
                x: map.to_device(left + (x + right), per, map.dx),
                y: map.to_device(2 * top + (down - 2 * up), 2 * per, map.dy),
            },
        );
        assert(glyphs@ =~= Seq::new((i + 1) as nat, |j: int| run.placed(baseline, *map, j)));
        pen = if rtl {
            pen - advance
        } else {
            pen + advance
        };
        i = i + 1;
    }
    let style: GlyphStyle = GlyphStyle {
        size_26_6: run.size_of(map),
        sideways: run.sideways,
        bold: run.simulations & 1 != 0,
        oblique: run.simulations & 2 != 0,
    };
    let origin: (i32, i32) = (
        map.to_device(baseline.0 as i128, 1, map.dx),
        map.to_device(baseline.1 as i128, 1, map.dy),
    );
    Some(RunGeometry { glyphs, style, origin })
}

// ---- what holds of every run ----

/// A pixel is the nearest to `n / d`, and of two equally near the one farther
/// from zero; further away than a million it is the last one.
pub open spec fn pixel_nearest_to(at: int, n: int, d: int) -> bool {
    &&& n > 1_000_000 * d ==> at == 1_000_000
    &&& n < -(1_000_000 * d) ==> at == -1_000_000
    &&& -(1_000_000 * d) <= n <= 1_000_000 * d ==> {
        &&& -d <= 2 * (at * d - n) <= d
        &&& n > 0 ==> 2 * (at * d - n) != -d
        &&& n < 0 ==> 2 * (at * d - n) != d
    }
}

proof fn a_point_has_the_nearest_pixel(map: Mapping, n: int, d: int, by: int)
    requires
        d > 0,
    ensures
        pixel_nearest_to(
            map.device(n, d, by),
            map.scale * n + by * (0x1_0000_0000 * d),
            0x1_0000_0000_0000_0000_0000_0000 * d,
        ),
        -1_000_000 <= map.device(n, d, by) <= 1_000_000,
{
    let v = map.scale * n + by * (0x1_0000_0000 * d);
    let p = 0x1_0000_0000_0000_0000_0000_0000 * d;
    let q = numbers::nearest(v, p);
    numbers::rounding_is_to_the_nearest(v, p);
    assert(ONE * d == 0x1_0000_0000 * d && PIXEL * d == p);
    if v > 1_000_000 * p {
        assert(q >= 1_000_000) by (nonlinear_arith)
            requires
                -p <= 2 * (q * p - v),
                v > 1_000_000 * p,
                p > 0,
        ;
    } else if v < -(1_000_000 * p) {
        assert(q <= -1_000_000) by (nonlinear_arith)
            requires
                2 * (q * p - v) <= p,
                v < -(1_000_000 * p),
                p > 0,
        ;
    } else {
        assert(-1_000_000 <= q <= 1_000_000) by (nonlinear_arith)
            requires
                -p <= 2 * (q * p - v) <= p,
                -(1_000_000 * p) <= v <= 1_000_000 * p,
                p > 0,
        ;
    }
}

/// The baseline's origin goes to the pixel nearest to it, scaled and moved.
pub proof fn the_origin_goes_to_its_pixel(map: Mapping, x: int, y: int)
    ensures
        pixel_nearest_to(map.point(x, y).0, map.scale * x + map.dx * 0x1_0000_0000, 0x1_0000_0000_0000_0000_0000_0000),
        pixel_nearest_to(map.point(x, y).1, map.scale * y + map.dy * 0x1_0000_0000, 0x1_0000_0000_0000_0000_0000_0000),
{
    a_point_has_the_nearest_pixel(map, x, 1, map.dx as int);
    a_point_has_the_nearest_pixel(map, y, 1, map.dy as int);
}

/// Every glyph is placed by the pen. With `own` the font's advances, `advances`
/// those that move the pen and `pens` where the pen is before each glyph, all
/// in parts, a glyph goes to the pixel nearest to the baseline's origin moved
/// by the pen and by the glyph's offset (right to left, also back by its own
/// advance), and sideways by its vertical origin and half its width.
pub proof fn a_glyph_is_placed_by_the_pen(
    run: Run<'_>,
    baseline: (i64, i64),
    map: Mapping,
    own: Seq<int>,
    advances: Seq<int>,
    pens: Seq<int>,
    offset: Offset,
    i: int,
)
    requires
        run.ok(),
        run.units_per_em > 0,
        0 <= i < run.glyphs@.len(),
        own.len() == run.glyphs@.len(),
        advances.len() == run.glyphs@.len(),
        pens.len() == run.glyphs@.len() as int + 1,
        forall|j: int|
            0 <= j < own.len() ==> #[trigger] own[j] == run.em * (match (run.gdi, run.sideways) {
                (Some(g), false) => g@[j].advance_width,
                (Some(g), true) => g@[j].advance_height,
                (None, false) => run.design@[j].advance_width,
                (None, true) => run.design@[j].advance_height,
            }),
        forall|j: int|
            0 <= j < own.len() ==> #[trigger] advances[j] == (match run.advances {
                Some(a) => a@[j] * run.units_per_em,
                None => own[j],
            }),
        pens[0] == 0,
        forall|j: int|
            0 <= j < own.len() ==> pens[j + 1] == pens[j] + (if run.bidi_level % 2 == 1 {
                -(#[trigger] advances[j])
            } else {
                advances[j]
            }),
        offset == (match run.offsets {
            Some(o) => o@[i],
            None => Offset { along: 0, up: 0 },
        }),
    ensures
        ({
            let per = run.units_per_em as int;
            let side = run.sideways;
            let x = baseline.0 * per + pens[i] + (if run.bidi_level % 2 == 1 {
                -own[i] - offset.along * per
            } else {
                offset.along * per
            }) + (if side {
                run.em * run.design@[i].vertical_origin_y
            } else {
                0
            });
            let y = 2 * (baseline.1 * per) - 2 * (offset.up * per) + (if side {
                run.em * run.design@[i].advance_width
            } else {
                0
            });
            let placed = run.placed(baseline, map, i);
            &&& placed.gi == run.glyphs@[i]
            &&& pixel_nearest_to(
                placed.x as int,
                map.scale * x + map.dx * (0x1_0000_0000 * per),
                0x1_0000_0000_0000_0000_0000_0000 * per,
            )
            &&& pixel_nearest_to(
                placed.y as int,
                map.scale * y + map.dy * (0x1_0000_0000 * (2 * per)),
                0x1_0000_0000_0000_0000_0000_0000 * (2 * per),
            )
        }),
{
    let per = run.units_per_em as int;
    the_pen_is_there(run, own, advances, pens, i);
    assert(own[i] == run.own_advance(i));
    a_point_has_the_nearest_pixel(map, run.parts(baseline.0 as int) + run.across(i), per, map.dx as int);
    a_point_has_the_nearest_pixel(map, 2 * run.parts(baseline.1 as int) + run.down(i), 2 * per, map.dy as int);
}

proof fn the_pen_is_there(run: Run<'_>, own: Seq<int>, advances: Seq<int>, pens: Seq<int>, n: int)
    requires
        0 <= n <= own.len(),
        own.len() == advances.len(),
        pens.len() == own.len() as int + 1,
        forall|j: int|
            0 <= j < own.len() ==> #[trigger] own[j] == run.em * (match (run.gdi, run.sideways) {
                (Some(g), false) => g@[j].advance_width,
                (Some(g), true) => g@[j].advance_height,
                (None, false) => run.design@[j].advance_width,
                (None, true) => run.design@[j].advance_height,
            }),
        forall|j: int|
            0 <= j < own.len() ==> #[trigger] advances[j] == (match run.advances {
                Some(a) => a@[j] * run.units_per_em,
                None => own[j],
            }),
        pens[0] == 0,
        forall|j: int|
            0 <= j < own.len() ==> pens[j + 1] == pens[j] + (if run.bidi_level % 2 == 1 {
                -(#[trigger] advances[j])
            } else {
                advances[j]
            }),
    ensures
        run.pen(n) == pens[n],
    decreases n,
{
    if n > 0 {
        the_pen_is_there(run, own, advances, pens, n - 1);
        assert(own[n - 1] == run.own_advance(n - 1));
        assert(advances[n - 1] == run.advance(n - 1));
    }
}

/// A run is rendered at its em size in pixels, in 64ths, to the nearest; bold
/// and oblique are the two lowest bits of its simulations.
pub proof fn a_run_is_rendered_at_its_size(run: Run<'_>, map: Mapping)
    requires
        map.ok(),
        run.em > 0,
        run.em * map.scale < 0x100_0000_0000_0000_0000_0000_0000_0000_0000_0000int,
    ensures
        ({
            let style = run.style(map);
            let off = 2 * (style.size_26_6 * 0x1_0000_0000_0000_0000_0000_0000 - 64 * (run.em * map.scale));
            &&& -0x1_0000_0000_0000_0000_0000_0000 < off <= 0x1_0000_0000_0000_0000_0000_0000
            &&& style.sideways == run.sideways
            &&& style.bold == (run.simulations & 1 != 0)
            &&& style.oblique == (run.simulations & 2 != 0)
        }),
{
    let (e, m) = (run.em as int, map.scale as int);
    assert(e * m >= 0) by (nonlinear_arith)
        requires
            e > 0,
            m >= 0,
    ;
    numbers::rounding_is_to_the_nearest(64 * (e * m), PIXEL as int);
}

/// Which transforms are drawn here: those that scale both ways alike and up,
/// without turning or skewing, as far as a ten-thousandth shows.
pub proof fn only_even_scales_are_drawn(m: Transform)
    ensures
        ({
            let one = 0x1_0000_0000int;
            uniform(m) <==> {
                &&& -one < 10_000 * m.m12 < one
                &&& -one < 10_000 * m.m21 < one
                &&& 0 < m.m11
                &&& {
                    ||| -one < 10_000 * (m.m11 - m.m22) < one
                    ||| -m.m11 < 10_000 * (m.m11 - m.m22) < m.m11
                }
            }
        }),
{
}

/// Left to right a glyph's origin is on the pen. Right to left its right edge
/// is, by its own advance, whatever the run says that it moves the pen by.
pub proof fn a_glyph_sits_on_the_pen(run: Run<'_>, i: int)
    requires
        run.offsets is None,
        !run.sideways,
    ensures
        !run.right_to_left() ==> run.across(i) == run.pen(i),
        run.right_to_left() ==> run.across(i) + run.own_advance(i) == run.pen(i),
        run.down(i) == 0,
{
}

/// A sideways glyph's vertical origin is on the pen: its own origin is to the
/// right of it by the vertical origin's height, and below it by half its
/// width.
pub proof fn a_sideways_glyph_hangs_on_the_pen(run: Run<'_>, i: int)
    requires
        run.offsets is None,
        run.sideways,
        !run.right_to_left(),
    ensures
        run.across(i) == run.pen(i) + run.em * run.design@[i].vertical_origin_y,
        run.down(i) == run.em * run.design@[i].advance_width,
{
    assert(run.parts(0) == 0);
}

/// Offsets move their glyph along the reading direction and up, and no other:
/// the pen does not see them.
pub proof fn offsets_move_one_glyph(run: Run<'_>, i: int)
    ensures
        ({
            let plain = Run { offsets: None, ..run };
            let along = run.parts(run.offset(i).along as int);
            &&& run.across(i) == plain.across(i) + (if run.right_to_left() {
                -along
            } else {
                along
            })
            &&& run.down(i) == plain.down(i) - 2 * run.parts(run.offset(i).up as int)
            &&& run.pen(i) == plain.pen(i)
        }),
{
    same_pen(run, Run { offsets: None, ..run }, i);
}

proof fn same_pen(a: Run<'_>, b: Run<'_>, n: int)
    requires
        b == (Run { offsets: b.offsets, ..a }),
    ensures
        a.pen(n) == b.pen(n),
    decreases n,
{
    if n > 0 {
        same_pen(a, b, n - 1);
    }
}

/// The pen of a right-to-left run goes the other way, by as much.
pub proof fn reading_direction_turns_the_pen(run: Run<'_>, n: int)
    ensures
        (Run { bidi_level: 1, ..run }).pen(n) == -(Run { bidi_level: 0, ..run }).pen(n),
    decreases n,
{
    if n > 0 {
        reading_direction_turns_the_pen(run, n - 1);
        let (there, back) = (Run { bidi_level: 0, ..run }, Run { bidi_level: 1, ..run });
        assert(there.own_advance(n - 1) == back.own_advance(n - 1));
        assert(there.advance(n - 1) == back.advance(n - 1));
    }
}

/// A mapping keeps the order of points.
pub proof fn mapping_keeps_order(map: Mapping, m: int, n: int, d: int, by: int)
    requires
        map.ok(),
        d > 0,
        m <= n,
    ensures
        map.device(m, d, by) <= map.device(n, d, by),
{
    let s = map.scale as int;
    assert(s * m <= s * n) by (nonlinear_arith)
        requires
            0 <= s,
            m <= n,
    ;
    numbers::nearest_grows(s * m + by * (ONE * d), s * n + by * (ONE * d), PIXEL * d);
}

/// However far a point is, its pixel is in reach.
pub proof fn every_point_has_a_pixel(map: Mapping, n: int, d: int, by: int)
    ensures
        -FAR <= map.device(n, d, by) <= FAR,
{
}

/// Without a scale and a translation, whole DIPs are pixels.
pub proof fn whole_dips_are_pixels(map: Mapping, k: int)
    requires
        map.scale == ONE * ONE,
        -FAR <= k <= FAR,
    ensures
        map.device(k * ONE, 1, 0) == k,
{
    assert(ONE * ONE == 0x1_0000_0000_0000_0000int) by (nonlinear_arith)
        requires
            ONE == 0x1_0000_0000,
    ;
    let m = numbers::magnitude(k);
    vstd::arithmetic::div_mod::lemma_fundamental_div_mod_converse(
        2 * (m * 0x1_0000_0000_0000_0000_0000_0000) + 0x1_0000_0000_0000_0000_0000_0000,
        0x2_0000_0000_0000_0000_0000_0000,
        m,
        0x1_0000_0000_0000_0000_0000_0000,
    );
}

} // verus!
