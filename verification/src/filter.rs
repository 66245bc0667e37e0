//! Gamma and coverage lookup tables, and the blend in linear light.
//!
//! A byte is encoded to linear light, foreground and background are mixed by
//! the coverage's alpha, and the mix is decoded to the byte whose encoded
//! value is nearest. Light and alpha are fixed-point numbers in units of
//! 2^-60, fine enough to hold a single-precision table entry down to 2^-37
//! without loss.

use vstd::prelude::*;

use crate::numbers;

verus! {

/// Full light, full alpha.
pub const ONE: u64 = 0x1000_0000_0000_0000;

/// Byte to linear light, and coverage to alpha.
pub struct Tables {
    encode: Vec<u64>,
    curve: Vec<u64>,
}

/// The contents of a pair of tables.
pub struct Curves {
    pub encode: Seq<u64>,
    pub curve: Seq<u64>,
}

impl Curves {
    /// 256 entries each, none above `ONE`; more light for a larger byte.
    pub open spec fn ok(self) -> bool {
        &&& self.encode.len() == 256
        &&& self.curve.len() == 256
        &&& forall|i: int| 0 <= i < 256 ==> #[trigger] self.encode[i] <= ONE
        &&& forall|i: int| 0 <= i < 256 ==> #[trigger] self.curve[i] <= ONE
        &&& forall|i: int, j: int| 0 <= i <= j < 256 ==> #[trigger] self.encode[i] <= #[trigger] self.encode[j]
    }

    /// Strictly more light for a larger byte.
    pub open spec fn strict(self) -> bool {
        forall|i: int, j: int| 0 <= i < j < 256 ==> #[trigger] self.encode[i] < #[trigger] self.encode[j]
    }

    /// The light of `bg` seen through `fg` at alpha `a`, in units of
    /// `ONE * ONE`.
    pub open spec fn mix(self, bg: u8, fg: u8, a: int) -> int {
        self.encode[bg as int] * (ONE - a) + self.encode[fg as int] * a
    }

    /// How many bytes, counted from 0, encode to less than `light` (in units
    /// of `ONE * ONE`).
    pub open spec fn rank(self, light: int, from: int) -> int
        decreases 256 - from,
    {
        if from >= 256 || self.encode[from] * ONE >= light {
            from
        } else {
            self.rank(light, from + 1)
        }
    }

    /// The byte whose encoded value is nearest `light`; of two as near, the
    /// smaller.
    pub open spec fn decoded(self, light: int) -> u8 {
        let hi = self.rank(light, 0);
        if hi == 0 {
            0
        } else if hi >= 256 {
            255
        } else if light - self.encode[hi - 1] * ONE <= self.encode[hi] * ONE - light {
            (hi - 1) as u8
        } else {
            hi as u8
        }
    }

    /// The opacity at which plain source-over compositing shows what `blended`
    /// does: of white ink on black, or of black ink on white.
    pub open spec fn opacity(self, cov: u8, light: bool) -> u8 {
        if light {
            self.blended(0, 255, cov)
        } else {
            (255 - self.blended(255, 0, cov)) as u8
        }
    }

    /// `fg` over `bg` at coverage `cov`.
    pub open spec fn blended(self, bg: u8, fg: u8, cov: u8) -> u8 {
        let a = self.curve[cov as int] as int;
        if a == 0 {
            bg
        } else {
            self.decoded(self.mix(bg, fg, a))
        }
    }
}

impl View for Tables {
    type V = Curves;

    closed spec fn view(&self) -> Curves {
        Curves { encode: self.encode@, curve: self.curve@ }
    }
}

/// `rank` is where the bytes stop encoding to less than `light`.
pub proof fn rank_splits(c: Curves, light: int, from: int)
    requires
        c.ok(),
        0 <= from <= 256,
    ensures
        from <= c.rank(light, from) <= 256,
        forall|i: int| from <= i < c.rank(light, from) ==> #[trigger] c.encode[i] * ONE < light,
        forall|i: int| c.rank(light, from) <= i < 256 ==> #[trigger] c.encode[i] * ONE >= light,
    decreases 256 - from,
{
    if from < 256 {
        if c.encode[from] * ONE >= light {
            assert forall|i: int| from <= i < 256 implies #[trigger] c.encode[i] * ONE >= light by {
                assert(c.encode[from] <= c.encode[i]);
            }
        } else {
            rank_splits(c, light, from + 1);
        }
    }
}

/// A position that splits the table is its rank.
proof fn rank_unique(c: Curves, light: int, at: int)
    requires
        c.ok(),
        0 <= at <= 256,
        forall|i: int| 0 <= i < at ==> #[trigger] c.encode[i] * ONE < light,
        at < 256 ==> c.encode[at] * ONE >= light,
    ensures
        c.rank(light, 0) == at,
{
    rank_splits(c, light, 0);
    let r = c.rank(light, 0);
    if r < at {
        assert(c.encode[r] * ONE >= light);
        assert(c.encode[r] * ONE < light);
    } else if at < r {
        assert(c.encode[at] * ONE < light);
    }
}

proof fn mix_bounds(c: Curves, bg: u8, fg: u8, a: int)
    requires
        c.ok(),
        0 <= a <= ONE,
    ensures
        0 <= c.encode[bg as int] * (ONE - a) <= ONE * ONE,
        0 <= c.encode[fg as int] * a <= ONE * ONE,
        0 <= c.mix(bg, fg, a) <= ONE * ONE,
{
    let b = c.encode[bg as int] as int;
    let f = c.encode[fg as int] as int;
    let one = ONE as int;
    assert(0 <= b <= one && 0 <= f <= one);
    assert(0 <= b * (one - a) <= one * (one - a) && 0 <= f * a <= one * a && one * (one - a) + one * a == one * one
        && 0 <= one * a && 0 <= one * (one - a)) by (nonlinear_arith)
        requires
            0 <= b <= one,
            0 <= f <= one,
            0 <= a <= one,
    ;
}

impl Tables {
    #[verifier::type_invariant]
    spec fn well_formed(self) -> bool {
        self@.ok()
    }

    /// Tables with the given entries; `None` unless there are 256 of each,
    /// none above `ONE`, and the light grows with the byte.
    pub fn new(encode: Vec<u64>, curve: Vec<u64>) -> (r: Option<Tables>)
        ensures
            r is Some <==> (Curves { encode: encode@, curve: curve@ }).ok(),
            r is Some ==> r->0@ == (Curves { encode: encode@, curve: curve@ }),
    {
        let ghost c = Curves { encode: encode@, curve: curve@ };
        if encode.len() != 256 || curve.len() != 256 {
            return None;
        }
        let mut i: usize = 0;
        while i < 256
            invariant
                i <= 256,
                encode@.len() == 256,
                curve@.len() == 256,
                c == (Curves { encode: encode@, curve: curve@ }),
                forall|j: int| 0 <= j < i ==> #[trigger] encode@[j] <= ONE,
                forall|j: int| 0 <= j < i ==> #[trigger] curve@[j] <= ONE,
                forall|j: int, k: int| 0 <= j <= k < i ==> #[trigger] encode@[j] <= #[trigger] encode@[k],
            decreases 256 - i,
        {
            if encode[i] > ONE || curve[i] > ONE {
                proof {
                    assert(c.encode[i as int] > ONE || c.curve[i as int] > ONE);
                }
                return None;
            }
            if i > 0 && encode[i - 1] > encode[i] {
                proof {
                    assert(c.encode[i - 1] > c.encode[i as int]);
                }
                return None;
            }
            i = i + 1;
        }
        Some(Tables { encode, curve })
    }

    /// The byte whose encoded value is nearest `light`.
    fn decode(&self, light: u128) -> (r: u8)
        requires
            light <= ONE * ONE,
        ensures
            r == self@.decoded(light as int),
    {
        proof {
            use_type_invariant(self);
        }
        let one: u128 = ONE as u128;
        let mut lo: usize = 0;
        let mut hi: usize = 256;
        while lo < hi
            invariant
                self@.ok(),
                one == ONE,
                0 <= lo <= hi <= 256,
                forall|i: int| 0 <= i < lo ==> #[trigger] self@.encode[i] * ONE < light,
                hi < 256 ==> self@.encode[hi as int] * ONE >= light,
            decreases hi - lo,
        {
            let mid: usize = lo + (hi - lo) / 2;
            let e: u64 = self.encode[mid];
            proof {
                assert(self@.encode[mid as int] == e);
            }
            if (e as u128) * one < light {
                proof {
                    assert forall|i: int| 0 <= i < mid + 1 implies #[trigger] self@.encode[i] * ONE < light by {
                        assert(self@.encode[i] <= self@.encode[mid as int]);
                    }
                }
                lo = mid + 1;
            } else {
                hi = mid;
            }
        }
        proof {
            rank_unique(self@, light as int, lo as int);
        }
        if lo == 0 {
            0
        } else if lo >= 256 {
            255
        } else {
            let below: u64 = self.encode[lo - 1];
            let above: u64 = self.encode[lo];
            proof {
                rank_splits(self@, light as int, 0);
                assert(self@.encode[lo - 1] * ONE < light);
                assert(self@.encode[lo as int] == above);
                assert(self@.encode[lo - 1] == below);
            }
            if light - (below as u128) * one <= (above as u128) * one - light {
                (lo - 1) as u8
            } else {
                lo as u8
            }
        }
    }

    /// One channel of `fg` over `bg` at coverage `cov`, mixed in linear light.
    pub fn blend(&self, bg: u8, fg: u8, cov: u8) -> (r: u8)
        ensures
            self@.ok(),
            r == self@.blended(bg, fg, cov),
    {
        proof {
            use_type_invariant(self);
        }
        let a: u64 = self.curve[cov as usize];
        if a == 0 {
            return bg;
        }
        proof {
            assert(self@.curve[cov as int] == a);
            assert(self@.encode[bg as int] <= ONE);
            assert(self@.encode[fg as int] <= ONE);
            mix_bounds(self@, bg, fg, a as int);
        }
        let b: u128 = (self.encode[bg as usize] as u128) * ((ONE - a) as u128);
        let f: u128 = (self.encode[fg as usize] as u128) * (a as u128);
        self.decode(b + f)
    }

    /// The opacity for coverage `cov` in a mask that somebody else composites,
    /// for light or for dark ink.
    pub fn mask_alpha(&self, cov: u8, light: bool) -> (r: u8)
        ensures
            self@.ok(),
            r == self@.opacity(cov, light),
    {
        if light {
            self.blend(0, 255, cov)
        } else {
            255 - self.blend(255, 0, cov)
        }
    }
}

// ---- laws ----

/// How far the light of byte `b` is from `light`.
pub open spec fn distance(c: Curves, b: u8, light: int) -> int {
    let e = c.encode[b as int] * ONE;
    if e <= light {
        light - e
    } else {
        e - light
    }
}

/// No byte is nearer to a light than the one it decodes to.
pub proof fn decoded_is_nearest(c: Curves, light: int, b: u8)
    requires
        c.ok(),
    ensures
        distance(c, c.decoded(light), light) <= distance(c, b, light),
{
    rank_splits(c, light, 0);
    let hi = c.rank(light, 0);
    let i = b as int;
    if hi > 0 {
        assert(c.encode[hi - 1] * ONE < light);
        if i < hi {
            assert(c.encode[i] <= c.encode[hi - 1]);
        }
    }
    if hi < 256 {
        assert(c.encode[hi] * ONE >= light);
        if i >= hi {
            assert(c.encode[hi] <= c.encode[i]);
        }
    }
}

/// More light never decodes to a smaller byte.
pub proof fn decoded_grows(c: Curves, x: int, y: int)
    requires
        c.ok(),
        x <= y,
    ensures
        c.decoded(x) <= c.decoded(y),
{
    rank_splits(c, x, 0);
    rank_splits(c, y, 0);
    let a = c.rank(x, 0);
    let b = c.rank(y, 0);
    if b < a {
        assert(c.encode[b] * ONE >= y);
        assert(c.encode[b] * ONE < x);
    }
}

/// The light of a byte decodes to a byte of that same light, not above it.
pub proof fn decoded_inverts(c: Curves, b: u8)
    requires
        c.ok(),
    ensures
        c.encode[c.decoded(c.encode[b as int] * ONE) as int] == c.encode[b as int],
        c.decoded(c.encode[b as int] * ONE) <= b,
        c.strict() ==> c.decoded(c.encode[b as int] * ONE) == b,
{
    let light = c.encode[b as int] * ONE;
    rank_splits(c, light, 0);
    let hi = c.rank(light, 0);
    if hi > b {
        assert(c.encode[b as int] * ONE < light);
    }
    assert(c.encode[hi] * ONE >= light);
    assert(c.encode[hi] <= c.encode[b as int]);
    if hi > 0 {
        assert(c.encode[hi - 1] * ONE < light);
    }
}

/// Tables are taken that have 256 entries each, none above one, and whose
/// light never falls from a byte to the next.
pub proof fn which_tables_are_taken(c: Curves)
    requires
        c.encode.len() == 256,
        c.curve.len() == 256,
        forall|i: int| 0 <= i < 256 ==> #[trigger] c.encode[i] <= 0x1000_0000_0000_0000,
        forall|i: int| 0 <= i < 256 ==> #[trigger] c.curve[i] <= 0x1000_0000_0000_0000,
        forall|i: int, j: int| 0 <= i <= j < 256 ==> #[trigger] c.encode[i] <= #[trigger] c.encode[j],
    ensures
        c.ok(),
{
}

/// A blend is linear in the alpha: between the light of the background and
/// that of the ink it goes as far as the coverage's alpha is of `ONE`, and
/// shows a byte whose light is nearest to that; where every byte has a light
/// of its own, the smallest such byte. Without alpha the background stays.
pub proof fn a_blend_is_nearest_to_the_mixed_light(c: Curves, bg: u8, fg: u8, cov: u8, b: u8)
    requires
        c.ok(),
    ensures
        ({
            let r = c.blended(bg, fg, cov);
            let one = 0x1000_0000_0000_0000int;
            let (back, ink, alpha) = (c.encode[bg as int] as int, c.encode[fg as int] as int, c.curve[cov as int] as int);
            let light = back * one + (ink - back) * alpha;
            let off = numbers::magnitude(c.encode[r as int] * one - light);
            let other = numbers::magnitude(c.encode[b as int] * one - light);
            &&& alpha == 0 ==> r == bg
            &&& alpha > 0 ==> off <= other
            &&& alpha > 0 && c.strict() && b < r ==> off < other
        }),
{
    let (e, f, a) = (c.encode[bg as int] as int, c.encode[fg as int] as int, c.curve[cov as int] as int);
    let one = ONE as int;
    assert(e * (one - a) + f * a == e * one + (f - e) * a) by (nonlinear_arith);
    let light = e * one + (f - e) * a;
    if a > 0 {
        decoded_is_nearest(c, light, b);
        rank_splits(c, light, 0);
        let hi = c.rank(light, 0);
        let r = c.decoded(light);
        if c.strict() && b < r {
            assert(c.encode[b as int] < c.encode[r as int]);
            if r == hi {
                assert(c.encode[hi - 1] * ONE < light);
                if b < hi - 1 {
                    assert(c.encode[b as int] < c.encode[hi - 1]);
                }
            } else {
                assert(c.encode[r as int] * ONE < light);
            }
        }
    }
}

/// Equal steps of alpha are equal steps of light, whatever the background and
/// the ink: where a byte's light is `s` for each of its steps, the blended
/// byte is as far from the background to the ink as the alpha is of `ONE`, to
/// the nearest byte.
pub proof fn equal_steps_of_light_give_equal_steps_of_bytes(c: Curves, bg: u8, fg: u8, cov: u8, s: int)
    requires
        c.ok(),
        s > 0,
        forall|i: int| 0 <= i < 256 ==> #[trigger] c.encode[i] == i * s,
    ensures
        ({
            let r = c.blended(bg, fg, cov) as int;
            let one = 0x1000_0000_0000_0000int;
            let at = one * bg + (fg - bg) * c.curve[cov as int];
            -one <= 2 * (one * r - at) <= one
        }),
{
    let r = c.blended(bg, fg, cov) as int;
    let one = ONE as int;
    let (b, f, a) = (bg as int, fg as int, c.curve[cov as int] as int);
    let at = one * b + (f - b) * a;
    if a > 0 {
        assert(0 <= at <= 255 * one) by (nonlinear_arith)
            requires
                at == one * b + (f - b) * a,
                0 <= b <= 255,
                0 <= f <= 255,
                0 < a <= one,
        ;
        let near = numbers::nearest(at, one);
        numbers::rounding_is_to_the_nearest(at, one);
        assert(near * one == one * near) by (nonlinear_arith);
        assert(0 <= near <= 255) by (nonlinear_arith)
            requires
                -one <= 2 * (near * one - at) <= one,
                0 <= at <= 255 * one,
                one > 0,
        ;
        a_blend_is_nearest_to_the_mixed_light(c, bg, fg, cov, near as u8);
        assert(c.encode[b] == b * s && c.encode[f] == f * s && c.encode[r] == r * s && c.encode[near] == near * s);
        assert((b * s) * one + (f * s - b * s) * a == at * s) by (nonlinear_arith)
            requires
                at == one * b + (f - b) * a,
        ;
        assert((r * s) * one == (one * r) * s && (near * s) * one == (one * near) * s) by (nonlinear_arith);
        let (x, y) = (one * r - at, one * near - at);
        assert((one * r) * s - at * s == x * s && (one * near) * s - at * s == y * s) by (nonlinear_arith)
            requires
                x == one * r - at,
                y == one * near - at,
        ;
        assert(-one <= 2 * x <= one) by (nonlinear_arith)
            requires
                numbers::magnitude(x * s) <= numbers::magnitude(y * s),
                -one <= 2 * y <= one,
                s > 0,
        ;
    } else {
        assert((f - b) * 0 == 0);
    }
}

/// A mask's opacity is how far white text on black is from black, or black
/// text on white from white.
pub proof fn opacity_is_what_the_blend_shows(c: Curves, cov: u8)
    ensures
        c.opacity(cov, true) == c.blended(0, 255, cov),
        c.opacity(cov, false) == 255 - c.blended(255, 0, cov),
{
}

/// Where the coverage's alpha is nothing, the background stays.
pub proof fn no_alpha_keeps_the_background(c: Curves, bg: u8, fg: u8, cov: u8)
    requires
        c.ok(),
        c.curve[cov as int] == 0,
    ensures
        c.blended(bg, fg, cov) == bg,
{
}

/// At full alpha the ink shows, whatever is behind it: exactly where every
/// byte has a light of its own, else as a byte of the same light. Black ink
/// is black in any case.
pub proof fn full_alpha_shows_the_ink(c: Curves, bg: u8, fg: u8, cov: u8)
    requires
        c.ok(),
        c.curve[cov as int] == ONE,
    ensures
        c.encode[c.blended(bg, fg, cov) as int] == c.encode[fg as int],
        c.strict() ==> c.blended(bg, fg, cov) == fg,
        fg == 0 ==> c.blended(bg, fg, cov) == 0,
{
    assert(c.encode[bg as int] * 0 == 0);
    assert(c.mix(bg, fg, ONE as int) == c.encode[fg as int] * ONE);
    decoded_inverts(c, fg);
}

proof fn mix_order(c: Curves, bg: u8, fg: u8, a: int, b: int)
    requires
        c.ok(),
        0 <= a <= b <= ONE,
    ensures
        c.encode[fg as int] <= c.encode[bg as int] ==> c.mix(bg, fg, b) <= c.mix(bg, fg, a),
        c.encode[fg as int] >= c.encode[bg as int] ==> c.mix(bg, fg, b) >= c.mix(bg, fg, a),
{
    let e = c.encode[bg as int] as int;
    let f = c.encode[fg as int] as int;
    let one = ONE as int;
    assert((e * (one - a) + f * a) - (e * (one - b) + f * b) == (e - f) * (b - a)) by (nonlinear_arith);
    assert((e - f >= 0 ==> (e - f) * (b - a) >= 0) && (e - f <= 0 ==> (e - f) * (b - a) <= 0)) by (nonlinear_arith)
        requires
            a <= b,
    ;
}

/// Ink darker than the background only darkens, and more of it darkens more.
pub proof fn dark_ink_darkens(c: Curves, bg: u8, fg: u8, less: u8, more: u8)
    requires
        c.ok(),
        fg <= bg,
        c.curve[less as int] <= c.curve[more as int],
    ensures
        c.blended(bg, fg, more) <= c.blended(bg, fg, less) <= bg,
{
    let a = c.curve[less as int] as int;
    let b = c.curve[more as int] as int;
    assert(c.encode[fg as int] <= c.encode[bg as int]);
    mix_order(c, bg, fg, a, b);
    mix_order(c, bg, fg, 0, a);
    mix_order(c, bg, fg, 0, b);
    assert(c.encode[fg as int] * 0 == 0);
    assert(c.mix(bg, fg, 0) == c.encode[bg as int] * ONE);
    decoded_inverts(c, bg);
    decoded_grows(c, c.mix(bg, fg, b), c.mix(bg, fg, a));
    decoded_grows(c, c.mix(bg, fg, a), c.mix(bg, fg, 0));
    decoded_grows(c, c.mix(bg, fg, b), c.mix(bg, fg, 0));
}

/// Ink lighter than the background only lightens, and more of it lightens
/// more, where every byte has a light of its own.
pub proof fn light_ink_lightens(c: Curves, bg: u8, fg: u8, less: u8, more: u8)
    requires
        c.ok(),
        c.strict(),
        fg >= bg,
        c.curve[less as int] <= c.curve[more as int],
    ensures
        bg <= c.blended(bg, fg, less) <= c.blended(bg, fg, more),
{
    let a = c.curve[less as int] as int;
    let b = c.curve[more as int] as int;
    assert(c.encode[fg as int] >= c.encode[bg as int]);
    mix_order(c, bg, fg, a, b);
    mix_order(c, bg, fg, 0, a);
    mix_order(c, bg, fg, 0, b);
    assert(c.encode[fg as int] * 0 == 0);
    assert(c.mix(bg, fg, 0) == c.encode[bg as int] * ONE);
    decoded_inverts(c, bg);
    decoded_grows(c, c.mix(bg, fg, a), c.mix(bg, fg, b));
    decoded_grows(c, c.mix(bg, fg, 0), c.mix(bg, fg, a));
    decoded_grows(c, c.mix(bg, fg, 0), c.mix(bg, fg, b));
}

/// A blend never leaves the range between background and ink, where every
/// byte has a light of its own.
pub proof fn blend_stays_between(c: Curves, bg: u8, fg: u8, cov: u8)
    requires
        c.ok(),
        c.strict(),
    ensures
        fg <= bg ==> fg <= c.blended(bg, fg, cov) <= bg,
        bg <= fg ==> bg <= c.blended(bg, fg, cov) <= fg,
{
    let a = c.curve[cov as int] as int;
    assert(c.encode[bg as int] * 0 == 0);
    assert(c.mix(bg, fg, ONE as int) == c.encode[fg as int] * ONE);
    mix_order(c, bg, fg, a, ONE as int);
    decoded_inverts(c, fg);
    if fg <= bg {
        assert(c.encode[fg as int] <= c.encode[bg as int]);
        dark_ink_darkens(c, bg, fg, cov, cov);
        decoded_grows(c, c.mix(bg, fg, ONE as int), c.mix(bg, fg, a));
    }
    if bg <= fg {
        assert(c.encode[fg as int] >= c.encode[bg as int]);
        light_ink_lightens(c, bg, fg, cov, cov);
        decoded_grows(c, c.mix(bg, fg, a), c.mix(bg, fg, ONE as int));
    }
}

/// A mask is clear where nothing is covered, opaque where all is, and no less
/// opaque where more is covered.
pub proof fn opacity_follows_coverage(c: Curves, light: bool, less: u8, more: u8)
    requires
        c.ok(),
        c.strict(),
        c.curve[less as int] <= c.curve[more as int],
    ensures
        c.opacity(less, light) <= c.opacity(more, light),
        c.curve[less as int] == 0 ==> c.opacity(less, light) == 0,
        c.curve[more as int] == ONE ==> c.opacity(more, light) == 255,
{
    if light {
        light_ink_lightens(c, 0, 255, less, more);
        if c.curve[more as int] == ONE {
            full_alpha_shows_the_ink(c, 0, 255, more);
        }
    } else {
        dark_ink_darkens(c, 255, 0, less, more);
        if c.curve[more as int] == ONE {
            full_alpha_shows_the_ink(c, 255, 0, more);
        }
    }
}

} // verus!
