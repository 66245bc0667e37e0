//! Where the pen goes between the glyphs of a run.

use vstd::prelude::*;

verus! {

/// How the caller's device overrides a run's layout.
///
/// `dx` is `lpDx` of `ExtTextOutW`: one advance per character, replacing the
/// font's own. With `pdy` it holds `(dx, dy)` pairs instead (`ETO_PDY`), and
/// a positive `dy` moves the pen up. `extra` is `SetTextCharacterExtra`,
/// added to every horizontal advance.
#[derive(Clone, Copy)]
pub struct Layout<'a> {
    pub dx: Option<&'a [i32]>,
    pub extra: i32,
    /// `dx` holds `(dx, dy)` pairs rather than plain advances.
    pub pdy: bool,
}

impl<'a> Default for Layout<'a> {
    fn default() -> (r: Layout<'a>)
        ensures
            r == (Layout::<'a> { dx: None, extra: 0, pdy: false }),
    {
        Layout { dx: None, extra: 0, pdy: false }
    }
}

/// What a layout holds.
pub struct Steps {
    pub dx: Option<Seq<i32>>,
    pub extra: int,
    pub pdy: bool,
}

impl<'a> View for Layout<'a> {
    type V = Steps;

    open spec fn view(&self) -> Steps {
        Steps {
            dx: match self.dx {
                Some(d) => Some(d@),
                None => None,
            },
            extra: self.extra as int,
            pdy: self.pdy,
        }
    }
}

/// The font's own advances, nothing added.
pub open spec fn plain() -> Steps {
    Steps { dx: None, extra: 0, pdy: false }
}

/// Entry `i` of `dx`, if there is one.
pub open spec fn entry(dx: Option<Seq<i32>>, i: int) -> Option<int> {
    match dx {
        Some(d) => if 0 <= i < d.len() {
            Some(d[i] as int)
        } else {
            None
        },
        None => None,
    }
}

pub open spec fn or_default(v: Option<int>, default: int) -> int {
    match v {
        Some(n) => n,
        None => default,
    }
}

fn get_entry(dx: Option<&[i32]>, i: u128) -> (r: Option<i32>)
    ensures
        match r {
            Some(v) => dx is Some && entry(Some(dx->0@), i as int) == Some(v as int),
            None => dx is None || entry(Some(dx->0@), i as int) is None,
        },
{
    match dx {
        Some(d) => if i < d.len() as u128 {
            Some(d[i as usize])
        } else {
            None
        },
        None => None,
    }
}

pub open spec fn fits_i32(n: int) -> bool {
    i32::MIN <= n <= i32::MAX
}

/// How many of `count` glyphs `dx` has an advance for.
pub open spec fn given(dx: Seq<i32>, pdy: bool, count: int) -> int {
    let all = if pdy {
        ((dx.len() + 1) / 2) as int
    } else {
        dx.len() as int
    };
    if count < all {
        count
    } else {
        all
    }
}

/// The sum of the first `n` horizontal advances in `dx`, `step` entries apart.
pub open spec fn dx_sum(dx: Seq<i32>, step: int, n: int) -> int
    decreases n,
{
    if n <= 0 {
        0
    } else {
        dx_sum(dx, step, n - 1) + dx[(n - 1) * step]
    }
}

/// The width of a `count`-glyph run laid out with `dx`, as far as that goes.
pub open spec fn dx_width(dx: Seq<i32>, extra: int, pdy: bool, count: int) -> int {
    dx_sum(
        dx,
        if pdy {
            2
        } else {
            1
        },
        given(dx, pdy, count),
    ) + extra * given(dx, pdy, count)
}

/// How far down the pen is after `n` pairs.
pub open spec fn dy_at(dx: Seq<i32>, n: int) -> int
    decreases n,
{
    if n <= 0 {
        0
    } else {
        dy_at(dx, n - 1) - dx[(n - 1) * 2 + 1]
    }
}

/// The highest and the lowest place the pen has been at after `n` pairs.
pub open spec fn dy_range(dx: Seq<i32>, n: int) -> (int, int)
    decreases n,
{
    if n <= 0 {
        (0, 0)
    } else {
        let (lo, hi) = dy_range(dx, n - 1);
        let at = dy_at(dx, n);
        (if at < lo {
            at
        } else {
            lo
        }, if at > hi {
            at
        } else {
            hi
        })
    }
}

/// How many of `count` glyphs `dx` has a vertical movement for.
pub open spec fn given_dy(dx: Seq<i32>, count: int) -> int {
    if count < dx.len() / 2 {
        count
    } else {
        (dx.len() / 2) as int
    }
}

/// The vertical travel of a `count`-glyph run laid out with `dx`.
pub open spec fn dy_extent(dx: Seq<i32>, count: int) -> (int, int) {
    dy_range(dx, given_dy(dx, count))
}

impl Steps {
    /// Entries per character in `dx`.
    pub open spec fn step(self) -> int {
        if self.pdy {
            2
        } else {
            1
        }
    }

    /// The pen movement to the right after glyph `i`.
    pub open spec fn advance_x(self, i: int, default: int) -> int {
        or_default(entry(self.dx, i * self.step()), default) + self.extra
    }

    /// The pen movement downwards after glyph `i`.
    pub open spec fn advance_y(self, i: int) -> int {
        if self.pdy {
            -or_default(entry(self.dx, i * 2 + 1), 0)
        } else {
            0
        }
    }

    /// The width of a `count`-glyph run laid out with `dx`.
    pub open spec fn width(self, count: int) -> int {
        match self.dx {
            Some(d) => dx_width(d, self.extra, self.pdy, count),
            None => 0,
        }
    }

    /// The vertical travel of a `count`-glyph run laid out with `dx`.
    pub open spec fn travel(self, count: int) -> (int, int) {
        match self.dx {
            Some(d) => if self.pdy {
                dy_extent(d, count)
            } else {
                (0, 0)
            },
            None => (0, 0),
        }
    }
}

impl<'a> Layout<'a> {
    /// Just an `lpDx` array of plain advances.
    pub fn from_dx(dx: Option<&'a [i32]>) -> (r: Layout<'a>)
        ensures
            r == (Layout { dx, extra: 0, pdy: false }),
    {
        Layout { dx, extra: 0, pdy: false }
    }

    fn stride(&self) -> (r: usize)
        ensures
            r == self@.step(),
            1 <= r <= 2,
    {
        if self.pdy {
            2
        } else {
            1
        }
    }

    /// `advance`, wide enough for every movement.
    pub(crate) fn advance_wide(&self, i: usize, default: i32) -> (r: (i64, i64))
        ensures
            r.0 == self@.advance_x(i as int, default as int),
            r.1 == self@.advance_y(i as int),
            -0x1_0000_0000 <= r.0 <= 0x1_0000_0000,
            -0x1_0000_0000 <= r.1 <= 0x1_0000_0000,
    {
        let at: u128 = if self.pdy {
            2 * i as u128
        } else {
            i as u128
        };
        let x: i32 = match get_entry(self.dx, at) {
            Some(v) => v,
            None => default,
        };
        let y: i64 = if self.pdy {
            match get_entry(self.dx, at + 1) {
                Some(v) => -(v as i64),
                None => 0,
            }
        } else {
            0
        };
        (x as i64 + self.extra as i64, y)
    }

    /// The pen movement after glyph `i`, whose own advance is `default`. `y`
    /// is positive downwards, so a positive `dy` (which moves up) comes back
    /// negated.
    pub fn advance(&self, i: usize, default: i32) -> (r: (i32, i32))
        requires
            fits_i32(self@.advance_x(i as int, default as int)),
            fits_i32(self@.advance_y(i as int)),
        ensures
            r.0 == self@.advance_x(i as int, default as int),
            r.1 == self@.advance_y(i as int),
    {
        let (x, y): (i64, i64) = self.advance_wide(i, default);
        (x as i32, y as i32)
    }

    fn given_count(&self, dx: &[i32], count: usize) -> (r: usize)
        ensures
            r == given(dx@, self.pdy, count as int),
    {
        let len: usize = dx.len();
        let all: usize = if self.pdy {
            len / 2 + len % 2
        } else {
            len
        };
        if count < all {
            count
        } else {
            all
        }
    }

    /// `dx_width`, wide enough for every width.
    pub(crate) fn dx_width_wide(&self, count: usize) -> (r: Option<i128>)
        ensures
            match r {
                Some(v) => self.dx is Some && v == self@.width(count as int),
                None => self.dx is None,
            },
    {
        let dx: &[i32] = match self.dx {
            Some(d) => d,
            None => {
                return None;
            },
        };
        let stride: usize = self.stride();
        let n: usize = self.given_count(dx, count);
        let mut sum: i128 = 0;
        let mut i: usize = 0;
        while i < n
            invariant
                i <= n,
                self.dx == Some(dx),
                n == given(dx@, self.pdy, count as int),
                stride == self@.step(),
                1 <= stride <= 2,
                sum == dx_sum(dx@, self@.step(), i as int),
                -0x8000_0000 * i <= sum <= 0x8000_0000 * i,
            decreases n - i,
        {
            let len: usize = dx.len();
            assert(i * stride < len) by {
                if self.pdy {
                    assert(i * 2 < len);
                }
            }
            sum = sum + dx[i * stride] as i128;
            i = i + 1;
        }
        assert(-0x8000_0000 * n <= self.extra * n <= 0x8000_0000 * n) by (nonlinear_arith)
            requires
                -0x8000_0000 <= self.extra <= 0x8000_0000,
                n >= 0,
        ;
        Some(sum + self.extra as i128 * n as i128)
    }

    /// Width of a `count`-glyph run laid out with an explicit `dx` (as far as
    /// that goes), or `None` when there is none.
    pub fn dx_width(&self, count: usize) -> (r: Option<i32>)
        requires
            fits_i32(self@.width(count as int)),
        ensures
            match r {
                Some(v) => self.dx is Some && v == self@.width(count as int),
                None => self.dx is None,
            },
    {
        match self.dx_width_wide(count) {
            Some(v) => Some(v as i32),
            None => None,
        }
    }
}

impl<'a> Layout<'a> {
    /// `dy_travel`, wide enough for every travel.
    pub(crate) fn dy_travel_wide(&self, count: usize) -> (r: Option<(i128, i128)>)
        ensures
            match r {
                Some(v) => self.pdy && self.dx is Some && (v.0 as int, v.1 as int) == self@.travel(count as int),
                None => !self.pdy || self.dx is None,
            },
    {
        if !self.pdy {
            return None;
        }
        let dx: &[i32] = match self.dx {
            Some(d) => d,
            None => {
                return None;
            },
        };
        let pairs: usize = dx.len() / 2;
        let n: usize = if count < pairs {
            count
        } else {
            pairs
        };
        let mut at: i128 = 0;
        let mut lo: i128 = 0;
        let mut hi: i128 = 0;
        let mut i: usize = 0;
        while i < n
            invariant
                i <= n,
                n <= dx@.len() / 2,
                self.dx == Some(dx),
                at == dy_at(dx@, i as int),
                (lo as int, hi as int) == dy_range(dx@, i as int),
                -0x8000_0000 * i <= at <= 0x8000_0000 * i,
            decreases n - i,
        {
            let len: usize = dx.len();
            at = at - dx[i * 2 + 1] as i128;
            if at < lo {
                lo = at;
            }
            if at > hi {
                hi = at;
            }
            i = i + 1;
        }
        Some((lo, hi))
    }

    /// How far the run travels vertically, up and down, for sizing the
    /// canvas; positive means downwards. `None` without an `ETO_PDY` array.
    pub fn dy_travel(&self, count: usize) -> (r: Option<(i32, i32)>)
        requires
            fits_i32(self@.travel(count as int).0),
            fits_i32(self@.travel(count as int).1),
        ensures
            match r {
                Some(v) => self.pdy && self.dx is Some && (v.0 as int, v.1 as int) == self@.travel(count as int),
                None => !self.pdy || self.dx is None,
            },
    {
        match self.dy_travel_wide(count) {
            Some((lo, hi)) => Some((lo as i32, hi as i32)),
            None => None,
        }
    }
}

// ---- laws ----

/// The advance after a glyph is its entry of `dx`, or the font's own where
/// there is none, and the spacing on top; of a pair the first number is the
/// advance and the second moves the pen up.
pub proof fn entries_are_the_advances(d: Seq<i32>, extra: int, i: int, default: int)
    requires
        0 <= i,
    ensures
        ({
            let plain = Steps { dx: Some(d), extra, pdy: false };
            let pairs = Steps { dx: Some(d), extra, pdy: true };
            let none = Steps { dx: None, extra, pdy: true };
            &&& i < d.len() ==> plain.advance_x(i, default) == d[i] + extra
            &&& i >= d.len() ==> plain.advance_x(i, default) == default + extra
            &&& plain.advance_y(i) == 0
            &&& 2 * i < d.len() ==> pairs.advance_x(i, default) == d[2 * i] + extra
            &&& 2 * i >= d.len() ==> pairs.advance_x(i, default) == default + extra
            &&& 2 * i + 1 < d.len() ==> pairs.advance_y(i) == -d[2 * i + 1]
            &&& 2 * i + 1 >= d.len() ==> pairs.advance_y(i) == 0
            &&& none.advance_x(i, default) == default + extra
            &&& none.advance_y(i) == 0
        }),
{
    let plain = Steps { dx: Some(d), extra, pdy: false };
    let pairs = Steps { dx: Some(d), extra, pdy: true };
    assert(i * plain.step() == i && i * pairs.step() == 2 * i);
}

/// The width of a run is the last of the places `at` that its glyphs end at,
/// of as many as `dx` has an advance for.
pub proof fn a_width_ends_with_the_last_glyph(d: Seq<i32>, extra: int, count: int, at: Seq<int>)
    requires
        at.len() > 0,
        at.len() <= count + 1,
        at.len() <= d.len() as int + 1,
        at.len() == count + 1 || at.len() == d.len() as int + 1,
        at[0] == 0,
        forall|i: int| #![trigger at[i]] 0 <= i < at.len() - 1 ==> at[i + 1] == at[i] + d[i] + extra,
    ensures
        (Steps { dx: Some(d), extra, pdy: false }).width(count) == at.last(),
        (Steps { dx: None, extra, pdy: false }).width(count) == 0,
{
    last_place(d, extra, 1, at, at.len() - 1);
}

/// With pairs, the width of a run counts the first number of each.
pub proof fn a_width_of_pairs_ends_with_the_last_glyph(d: Seq<i32>, extra: int, count: int, at: Seq<int>)
    requires
        at.len() > 0,
        at.len() <= count + 1,
        2 * (at.len() - 1) <= d.len() as int + 1,
        at.len() == count + 1 || 2 * at.len() > d.len() as int + 1,
        at[0] == 0,
        forall|i: int| #![trigger at[i]] 0 <= i < at.len() - 1 ==> at[i + 1] == at[i] + d[2 * i] + extra,
    ensures
        (Steps { dx: Some(d), extra, pdy: true }).width(count) == at.last(),
{
    last_place(d, extra, 2, at, at.len() - 1);
}

proof fn last_place(d: Seq<i32>, extra: int, step: int, at: Seq<int>, n: int)
    requires
        0 <= n < at.len(),
        at[0] == 0,
        forall|i: int| #![trigger at[i]] 0 <= i < at.len() - 1 ==> at[i + 1] == at[i] + d[i * step] + extra,
    ensures
        dx_sum(d, step, n) + extra * n == at[n],
    decreases n,
{
    if n > 0 {
        last_place(d, extra, step, at, n - 1);
        assert(at[n - 1] + d[(n - 1) * step] + extra == at[n]);
        assert(extra * n == extra * (n - 1) + extra) by (nonlinear_arith);
    } else {
        assert(extra * 0 == 0);
    }
}

/// The vertical travel of a run reaches from the highest to the lowest of the
/// places `at` that its pen comes to, its start among them.
pub proof fn travel_reaches_the_outermost_places(d: Seq<i32>, extra: int, count: int, at: Seq<int>)
    requires
        at.len() > 0,
        at.len() <= count + 1,
        2 * (at.len() - 1) <= d.len(),
        at.len() == count + 1 || 2 * at.len() > d.len(),
        at[0] == 0,
        forall|i: int| #![trigger at[i]] 0 <= i < at.len() - 1 ==> at[i + 1] == at[i] - d[2 * i + 1],
    ensures
        ({
            let (up, down) = (Steps { dx: Some(d), extra, pdy: true }).travel(count);
            &&& forall|k: int| 0 <= k < at.len() ==> up <= #[trigger] at[k] <= down
            &&& at.contains(up)
            &&& at.contains(down)
        }),
        (Steps { dx: Some(d), extra, pdy: false }).travel(count) == (0int, 0int),
        (Steps { dx: None, extra, pdy: true }).travel(count) == (0int, 0int),
{
    assert(given_dy(d, count) == at.len() - 1);
    reached(d, at, at.len() - 1);
}

proof fn reached(d: Seq<i32>, at: Seq<int>, n: int)
    requires
        0 <= n < at.len(),
        at[0] == 0,
        forall|i: int| #![trigger at[i]] 0 <= i < at.len() - 1 ==> at[i + 1] == at[i] - d[2 * i + 1],
    ensures
        dy_at(d, n) == at[n],
        forall|k: int| 0 <= k <= n ==> dy_range(d, n).0 <= #[trigger] at[k] <= dy_range(d, n).1,
        at.contains(dy_range(d, n).0),
        at.contains(dy_range(d, n).1),
    decreases n,
{
    if n > 0 {
        reached(d, at, n - 1);
        assert(at[n - 1] - d[2 * (n - 1) + 1] == at[n]);
        assert((n - 1) * 2 + 1 == 2 * (n - 1) + 1);
    }
}

/// The horizontal movement after the first `n` glyphs, whose own advances are
/// all `default`.
pub open spec fn travelled(layout: Steps, n: int, default: int) -> int
    decreases n,
{
    if n <= 0 {
        0
    } else {
        travelled(layout, n - 1, default) + layout.advance_x(n - 1, default)
    }
}

/// The width of a run is how far its pen moves, as long as `dx` has an
/// advance for every glyph; what the font says of its glyphs has no part.
pub proof fn width_is_the_pen_movement(layout: Steps, n: int, default: int)
    requires
        layout.dx is Some,
        0 <= n,
        given(layout.dx->0, layout.pdy, n) == n,
    ensures
        layout.width(n) == travelled(layout, n, default),
    decreases n,
{
    if n > 0 {
        let d = layout.dx->0;
        assert(given(d, layout.pdy, n - 1) == n - 1);
        width_is_the_pen_movement(layout, n - 1, default);
        assert((n - 1) * layout.step() < d.len()) by {
            if layout.pdy {
                assert((n - 1) * 2 < d.len());
            }
        }
        assert(0 <= (n - 1) * layout.step()) by (nonlinear_arith)
            requires
                n > 0,
                layout.step() > 0,
        ;
        assert(layout.extra * n == layout.extra * (n - 1) + layout.extra) by (nonlinear_arith);
    } else {
        assert(layout.extra * 0 == 0);
    }
}

/// Character spacing widens every advance by the same amount, on top of `dx`,
/// and moves nothing vertically.
pub proof fn extra_widens_every_advance(layout: Steps, extra: int, i: int, default: int)
    ensures
        (Steps { extra, ..layout }).advance_x(i, default) - extra == layout.advance_x(i, default) - layout.extra,
        (Steps { extra, ..layout }).advance_y(i) == layout.advance_y(i),
{
}

/// The travel of a run holds every place its pen has been at, and its start.
pub proof fn travel_holds_every_place(dx: Seq<i32>, n: int, k: int)
    requires
        0 <= k <= n,
    ensures
        dy_range(dx, n).0 <= dy_at(dx, k) <= dy_range(dx, n).1,
        dy_range(dx, n).0 <= 0 <= dy_range(dx, n).1,
    decreases n,
{
    if n > 0 {
        travel_holds_every_place(dx, n - 1, if k < n {
            k
        } else {
            0
        });
    }
}

/// The steps of a layout are what it holds.
pub proof fn the_steps_are_what_the_layout_holds(l: Layout<'_>)
    ensures
        l@.extra == l.extra,
        l@.pdy == l.pdy,
        l.dx is None ==> l@.dx is None,
        l.dx matches Some(d) ==> l@.dx == Some(d@),
{
}

} // verus!
