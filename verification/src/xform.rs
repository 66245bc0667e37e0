//! The logical-to-device mapping of a device context.
//!
//! `ExtTextOutW` takes logical coordinates; glyphs are rasterised in device
//! pixels. Only a positive axis-aligned scale (with any translation) is drawn
//! here; rotation, shear and mirroring are left to GDI.

use vstd::prelude::*;

use crate::layout;

verus! {

/// The logical length that the mapping is probed with, and the denominator of
/// its scale factors.
pub const PROBE: i32 = 1024;

/// A positive, axis-aligned mapping: the scale factors in units of
/// `1 / PROBE`. The translation is not kept, because points are converted
/// through the device context itself.
#[derive(Clone, Copy, Debug, PartialEq, Eq, Structural)]
pub struct Mapping {
    pub sx: i64,
    pub sy: i64,
}

pub open spec fn saturated(n: int) -> int {
    if n < i32::MIN {
        i32::MIN as int
    } else if n > i32::MAX {
        i32::MAX as int
    } else {
        n
    }
}

/// `v * by / PROBE`, rounded to the nearest integer with halves away from
/// zero, and kept within 32 bits.
pub open spec fn scaled(v: int, by: int) -> int {
    saturated(
        if v >= 0 {
            (2 * (v * by) + 1024) / 2048
        } else {
            -((2 * ((-v) * by) + 1024) / 2048)
        },
    )
}

fn scale(v: i64, by: i64) -> (r: i32)
    requires
        by > 0,
        by <= 0x1_0000_0000,
        -0x8000_0000 <= v <= 0x8000_0000,
    ensures
        r == scaled(v as int, by as int),
{
    let m: i128 = if v >= 0 {
        v as i128
    } else {
        -(v as i128)
    };
    assert(0 <= m * by <= 0x8000_0000 * 0x1_0000_0000) by (nonlinear_arith)
        requires
            0 <= m <= 0x8000_0000,
            0 < by <= 0x1_0000_0000,
    ;
    let q: i128 = (2 * (m * by as i128) + 1024) / 2048;
    let n: i128 = if v >= 0 {
        q
    } else {
        -q
    };
    if n < i32::MIN as i128 {
        i32::MIN
    } else if n > i32::MAX as i128 {
        i32::MAX
    } else {
        n as i32
    }
}

/// The axis that entry `i` of a `dx` array moves along: with pairs, every
/// other entry is vertical.
pub open spec fn vertical(i: int, pdy: bool) -> bool {
    pdy && i % 2 == 1
}

/// Where the pen is along an axis after the first `n` entries.
pub open spec fn position(dx: Seq<i32>, pdy: bool, down: bool, n: int) -> int
    decreases n,
{
    if n <= 0 {
        0
    } else if vertical(n - 1, pdy) == down {
        position(dx, pdy, down, n - 1) + dx[n - 1]
    } else {
        position(dx, pdy, down, n - 1)
    }
}

impl Mapping {
    /// Both factors are positive, and no larger than a probe can show.
    pub open spec fn ok(self) -> bool {
        0 < self.sx <= 0x1_0000_0000 && 0 < self.sy <= 0x1_0000_0000
    }

    /// The factor along an axis.
    pub open spec fn factor(self, down: bool) -> int {
        if down {
            self.sy as int
        } else {
            self.sx as int
        }
    }

    /// The device step that entry `i` of `dx` becomes: how far the scaled
    /// position moves.
    pub open spec fn device_step(self, dx: Seq<i32>, pdy: bool, i: int) -> int {
        let down = vertical(i, pdy);
        scaled(position(dx, pdy, down, i + 1), self.factor(down)) - scaled(
            position(dx, pdy, down, i),
            self.factor(down),
        )
    }

    /// The position after entry `i` and its device step are 32-bit numbers.
    pub open spec fn step_fits(self, dx: Seq<i32>, pdy: bool, i: int) -> bool {
        &&& layout::fits_i32(position(dx, pdy, vertical(i, pdy), i + 1))
        &&& layout::fits_i32(self.device_step(dx, pdy, i))
    }

    /// Every position along `dx` and every device step is a 32-bit number.
    pub open spec fn steps_fit(self, dx: Seq<i32>, pdy: bool) -> bool {
        forall|i: int| 0 <= i < dx.len() ==> #[trigger] self.step_fits(dx, pdy, i)
    }

    /// The mapping that takes the logical points (0, 0), (`PROBE`, 0) and
    /// (0, `PROBE`) to `origin`, `right` and `down`; `None` where it is not a
    /// positive axis-aligned scale.
    pub fn probed(origin: (i32, i32), right: (i32, i32), down: (i32, i32)) -> (r: Option<Mapping>)
        ensures
            match r {
                Some(m) => {
                    &&& m.ok()
                    &&& m.sx == right.0 - origin.0
                    &&& m.sy == down.1 - origin.1
                    &&& right.1 == origin.1
                    &&& down.0 == origin.0
                },
                None => right.1 != origin.1 || down.0 != origin.0 || right.0 <= origin.0 || down.1 <= origin.1,
            },
    {
        if right.1 != origin.1 || down.0 != origin.0 || right.0 <= origin.0 || down.1 <= origin.1 {
            return None;
        }
        Some(Mapping { sx: right.0 as i64 - origin.0 as i64, sy: down.1 as i64 - origin.1 as i64 })
    }

    /// Device units are logical units.
    pub fn is_identity(&self) -> (r: bool)
        ensures
            r == (self.sx == PROBE && self.sy == PROBE),
    {
        self.sx == 1024 && self.sy == 1024
    }

    /// Scale a logical length along x (advances, widths).
    pub fn len_x(&self, v: i32) -> (r: i32)
        requires
            self.ok(),
        ensures
            r == scaled(v as int, self.sx as int),
    {
        scale(v as i64, self.sx)
    }

    /// Scale a logical length along y (ascent, height).
    pub fn len_y(&self, v: i32) -> (r: i32)
        requires
            self.ok(),
        ensures
            r == scaled(v as int, self.sy as int),
    {
        scale(v as i64, self.sy)
    }

    /// An explicit `lpDx` in device units, if every position and every step
    /// is a 32-bit number. Stepping through the cumulative position, rather
    /// than scaling each entry on its own, keeps the rounding error from
    /// adding up along the run. With `pdy` the array is `(dx, dy)` pairs, and
    /// the two axes are stepped separately with their own factors.
    pub fn device_dx(&self, dx: &[i32], pdy: bool) -> (r: Option<Vec<i32>>)
        requires
            self.ok(),
        ensures
            match r {
                Some(v) => {
                    &&& self.steps_fit(dx@, pdy)
                    &&& v@.len() == dx@.len()
                    &&& forall|i: int| 0 <= i < v@.len() ==> #[trigger] v@[i] == self.device_step(dx@, pdy, i)
                },
                None => !self.steps_fit(dx@, pdy),
            },
    {
        let mut out: Vec<i32> = Vec::with_capacity(dx.len());
        let mut logical_x: i64 = 0;
        let mut logical_y: i64 = 0;
        let mut device_x: i64 = 0;
        let mut device_y: i64 = 0;
        proof {
            assert(0 * self.sx == 0 && 0 * self.sy == 0);
        }
        let mut i: usize = 0;
        while i < dx.len()
            invariant
                i <= dx@.len(),
                self.ok(),
                out@.len() == i,
                logical_x == position(dx@, pdy, false, i as int),
                logical_y == position(dx@, pdy, true, i as int),
                layout::fits_i32(logical_x as int),
                layout::fits_i32(logical_y as int),
                device_x == scaled(logical_x as int, self.sx as int),
                device_y == scaled(logical_y as int, self.sy as int),
                layout::fits_i32(device_x as int),
                layout::fits_i32(device_y as int),
                forall|j: int| 0 <= j < i ==> #[trigger] out@[j] == self.device_step(dx@, pdy, j),
                forall|j: int| 0 <= j < i ==> #[trigger] self.step_fits(dx@, pdy, j),
            decreases dx@.len() - i,
        {
            let down: bool = pdy && i % 2 == 1;
            assert(down == vertical(i as int, pdy));
            let step: i64 = dx[i] as i64;
            let at: i64 = if down {
                logical_y + step
            } else {
                logical_x + step
            };
            if at < i32::MIN as i64 || at > i32::MAX as i64 {
                proof {
                    assert(position(dx@, pdy, down, i + 1) == at);
                    assert(!self.step_fits(dx@, pdy, i as int));
                }
                return None;
            }
            assert(position(dx@, pdy, vertical(i as int, pdy), i + 1) == at);
            let to: i64 = if down {
                scale(at, self.sy) as i64
            } else {
                scale(at, self.sx) as i64
            };
            let moved: i64 = if down {
                to - device_y
            } else {
                to - device_x
            };
            assert(moved == self.device_step(dx@, pdy, i as int));
            if moved < i32::MIN as i64 || moved > i32::MAX as i64 {
                proof {
                    assert(!self.step_fits(dx@, pdy, i as int));
                }
                return None;
            }
            assert(self.step_fits(dx@, pdy, i as int));
            out.push(moved as i32);
            if down {
                logical_y = at;
                device_y = to;
            } else {
                logical_x = at;
                device_x = to;
            }
            i = i + 1;
        }
        Some(out)
    }
}

// ---- laws ----

/// Scaling gives the integer nearest to `v * by / 1024`, and of two equally
/// near the one farther from zero, kept within 32 bits.
pub proof fn a_scaled_length_is_the_nearest(v: int, by: int)
    requires
        by > 0,
    ensures
        ({
            let s = scaled(v, by);
            let off = 2 * (1024 * s - v * by);
            &&& i32::MIN <= s <= i32::MAX
            &&& v * by > 1024 * i32::MAX ==> s == i32::MAX
            &&& v * by < 1024 * i32::MIN ==> s == i32::MIN
            &&& 1024 * i32::MIN <= v * by <= 1024 * i32::MAX ==> {
                &&& -1024 <= off <= 1024
                &&& v > 0 ==> off != -1024
                &&& v < 0 ==> off != 1024
            }
        }),
{
    assert((-v) * by == -(v * by)) by (nonlinear_arith);
    assert(v >= 0 ==> v * by >= 0) by (nonlinear_arith)
        requires
            by > 0,
    ;
    assert(v < 0 ==> v * by < 0) by (nonlinear_arith)
        requires
            by > 0,
    ;
}

/// Advances are converted by position: with `at` the places along the run, in
/// logical units, entry `i` becomes the distance between the scaled places on
/// its two sides.
pub proof fn advances_are_scaled_by_position(m: Mapping, dx: Seq<i32>, at: Seq<int>, i: int)
    requires
        at.len() == dx.len() as int + 1,
        at[0] == 0,
        forall|j: int| #![trigger dx[j]] 0 <= j < dx.len() ==> at[j + 1] == at[j] + dx[j],
        0 <= i < dx.len(),
    ensures
        m.device_step(dx, false, i) == scaled(at[i + 1], m.sx as int) - scaled(at[i], m.sx as int),
        m.steps_fit(dx, false) ==> i32::MIN <= at[i + 1] <= i32::MAX,
{
    plain_place(dx, at, i);
    plain_place(dx, at, i + 1);
    assert(m.steps_fit(dx, false) ==> m.step_fits(dx, false, i));
}

/// Advances can be converted as long as every place along the run, and every
/// distance that becomes of them, is a 32-bit number.
pub proof fn advances_within_32_bits_fit(m: Mapping, dx: Seq<i32>, at: Seq<int>)
    requires
        at.len() == dx.len() as int + 1,
        at[0] == 0,
        forall|j: int| #![trigger dx[j]] 0 <= j < dx.len() ==> at[j + 1] == at[j] + dx[j],
        forall|j: int|
            0 <= j < dx.len() ==> i32::MIN <= #[trigger] m.device_step(dx, false, j) <= i32::MAX,
        forall|j: int| 0 <= j < at.len() ==> i32::MIN <= #[trigger] at[j] <= i32::MAX,
    ensures
        m.steps_fit(dx, false),
{
    assert forall|j: int| 0 <= j < dx.len() implies #[trigger] m.step_fits(dx, false, j) by {
        plain_place(dx, at, j + 1);
        assert(i32::MIN <= m.device_step(dx, false, j) <= i32::MAX);
    }
}

proof fn plain_place(dx: Seq<i32>, at: Seq<int>, n: int)
    requires
        at.len() == dx.len() as int + 1,
        at[0] == 0,
        forall|i: int| #![trigger dx[i]] 0 <= i < dx.len() ==> at[i + 1] == at[i] + dx[i],
        0 <= n <= dx.len(),
    ensures
        position(dx, false, false, n) == at[n],
    decreases n,
{
    if n > 0 {
        plain_place(dx, at, n - 1);
        assert(dx[n - 1] == dx[n - 1]);
    }
}

/// Pairs are converted one axis at a time: with `across` and `up` the places
/// along the two axes, the first entry of pair `i` becomes the distance
/// between places scaled by the horizontal factor, and the second that between
/// places scaled by the vertical one.
pub proof fn pairs_are_scaled_axis_by_axis(m: Mapping, dx: Seq<i32>, across: Seq<int>, up: Seq<int>, i: int)
    requires
        dx.len() == 2 * (across.len() - 1),
        up.len() == across.len(),
        across[0] == 0,
        up[0] == 0,
        forall|j: int| #![trigger across[j]] 0 <= j < across.len() - 1 ==> across[j + 1] == across[j] + dx[2 * j],
        forall|j: int| #![trigger up[j]] 0 <= j < up.len() - 1 ==> up[j + 1] == up[j] + dx[2 * j + 1],
        0 <= i < across.len() - 1,
    ensures
        m.device_step(dx, true, 2 * i) == scaled(across[i + 1], m.sx as int) - scaled(across[i], m.sx as int),
        m.device_step(dx, true, 2 * i + 1) == scaled(up[i + 1], m.sy as int) - scaled(up[i], m.sy as int),
{
    paired_place(dx, across, up, i);
    paired_place(dx, across, up, i + 1);
    assert(!vertical(2 * i, true) && vertical(2 * i + 1, true));
    assert(position(dx, true, true, 2 * i + 1) == position(dx, true, true, 2 * i));
    assert(position(dx, true, false, 2 * i + 2) == position(dx, true, false, 2 * i + 1));
}

proof fn paired_place(dx: Seq<i32>, across: Seq<int>, up: Seq<int>, n: int)
    requires
        dx.len() == 2 * (across.len() - 1),
        up.len() == across.len(),
        across[0] == 0,
        up[0] == 0,
        forall|j: int| #![trigger across[j]] 0 <= j < across.len() - 1 ==> across[j + 1] == across[j] + dx[2 * j],
        forall|j: int| #![trigger up[j]] 0 <= j < up.len() - 1 ==> up[j + 1] == up[j] + dx[2 * j + 1],
        0 <= n < across.len(),
    ensures
        position(dx, true, false, 2 * n) == across[n],
        position(dx, true, true, 2 * n) == up[n],
    decreases n,
{
    if n > 0 {
        paired_place(dx, across, up, n - 1);
        assert(across[n - 1] + dx[2 * (n - 1)] == across[n]);
        assert(up[n - 1] + dx[2 * (n - 1) + 1] == up[n]);
        assert(!vertical(2 * n - 2, true) && vertical(2 * n - 1, true));
        assert(position(dx, true, false, 2 * n) == position(dx, true, false, 2 * n - 1));
        assert(position(dx, true, false, 2 * n - 1) == position(dx, true, false, 2 * n - 2) + dx[2 * n - 2]);
        assert(position(dx, true, true, 2 * n) == position(dx, true, true, 2 * n - 1) + dx[2 * n - 1]);
        assert(position(dx, true, true, 2 * n - 1) == position(dx, true, true, 2 * n - 2));
    }
}

/// The sum of the device steps along an axis.
pub open spec fn device_position(m: Mapping, dx: Seq<i32>, pdy: bool, down: bool, n: int) -> int
    decreases n,
{
    if n <= 0 {
        0
    } else if vertical(n - 1, pdy) == down {
        device_position(m, dx, pdy, down, n - 1) + m.device_step(dx, pdy, n - 1)
    } else {
        device_position(m, dx, pdy, down, n - 1)
    }
}

/// There is no drift: along each axis the device steps add up to the scaled
/// logical position, wherever in the run one stops.
pub proof fn device_steps_do_not_drift(m: Mapping, dx: Seq<i32>, pdy: bool, down: bool, n: int)
    requires
        0 <= n <= dx.len(),
    ensures
        device_position(m, dx, pdy, down, n) == scaled(position(dx, pdy, down, n), m.factor(down)),
    decreases n,
{
    if n > 0 {
        device_steps_do_not_drift(m, dx, pdy, down, n - 1);
    } else {
        assert(0 * m.factor(down) == 0);
    }
}

/// An identity mapping changes no length.
pub proof fn identity_keeps_lengths(v: int)
    requires
        layout::fits_i32(v),
    ensures
        scaled(v, PROBE as int) == v,
{
    let p = PROBE as int;
    assert(v * p == 1024 * v && (-v) * p == 1024 * (-v)) by (nonlinear_arith)
        requires
            p == 1024,
    ;
}

/// Mirroring a length mirrors what it scales to.
pub proof fn scaling_is_symmetric(v: int, by: int)
    requires
        by > 0,
        -i32::MAX <= v <= i32::MAX,
        layout::fits_i32(v),
        -i32::MAX <= scaled(v, by) < i32::MAX,
    ensures
        scaled(-v, by) == -scaled(v, by),
{
    assert((-(-v)) * by == v * by);
    assert(0 * by == 0);
    assert(v >= 0 ==> v * by >= 0) by (nonlinear_arith)
        requires
            by > 0,
    ;
    assert(v < 0 ==> (-v) * by >= 0) by (nonlinear_arith)
        requires
            by > 0,
    ;
}

/// A longer length never scales to a shorter one.
pub proof fn scaling_keeps_order(v: int, w: int, by: int)
    requires
        by > 0,
        v <= w,
    ensures
        scaled(v, by) <= scaled(w, by),
{
    assert(v >= 0 ==> 0 <= v * by <= w * by) by (nonlinear_arith)
        requires
            by > 0,
            v <= w,
    ;
    assert(w < 0 ==> 0 <= (-w) * by <= (-v) * by) by (nonlinear_arith)
        requires
            by > 0,
            v <= w,
    ;
    assert(v < 0 ==> 0 <= (-v) * by) by (nonlinear_arith)
        requires
            by > 0,
    ;
    assert(w >= 0 ==> 0 <= w * by) by (nonlinear_arith)
        requires
            by > 0,
    ;
}

} // verus!
