//! What DirectWrite is told for the text that it draws itself, and the glyph
//! run analyses whose textures are rendered here.

use vstd::prelude::*;

use crate::canvas::Rect;
use crate::config::{Aa, Profile, Settings};
use crate::ft::GlyphStyle;
use crate::numbers;
use crate::render::{Placed, RenderedRun};

verus! {

// ---- rendering parameters ----

/// `DWRITE_PIXEL_GEOMETRY`.
pub const GEOMETRY_FLAT: i32 = 0;

pub const GEOMETRY_RGB: i32 = 1;

pub const GEOMETRY_BGR: i32 = 2;

/// `DWRITE_GRID_FIT_MODE`.
pub const GRID_FIT_DEFAULT: i32 = 0;

pub const GRID_FIT_DISABLED: i32 = 1;

pub const GRID_FIT_ENABLED: i32 = 2;

/// `DWRITE_TEXT_ANTIALIAS_MODE`.
pub const AA_CLEARTYPE: i32 = 0;

pub const AA_GREYSCALE: i32 = 1;

/// `D2D1_TEXT_ANTIALIAS_MODE`.
pub const D2D_AA_DEFAULT: i32 = 0;

pub const D2D_AA_GREYSCALE: i32 = 2;

/// `DWRITE_RENDERING_MODE` (and `DWRITE_RENDERING_MODE1`).
pub const MODE_ALIASED: i32 = 1;

pub const MODE_NATURAL_SYMMETRIC: i32 = 5;

pub const MODE_OUTLINE: i32 = 6;

/// What DirectWrite and Direct2D are told for the text that they draw
/// themselves, as a profile has it.
#[derive(Clone, Copy, Debug, PartialEq, Eq, Structural)]
pub struct Modes {
    pub geometry: i32,
    /// The rendering mode for Direct2D.
    pub mode: i32,
    /// The rendering mode for DirectWrite, whose outline mode looks bad.
    pub dw_mode: i32,
    pub grid_fit: i32,
    /// `DWRITE_TEXT_ANTIALIAS_MODE` for new analyses.
    pub dw_aa: i32,
    /// `D2D1_TEXT_ANTIALIAS_MODE`.
    pub aa_mode: i32,
    /// The transform is tilted a little, so that DirectWrite does not snap
    /// glyphs to the pixel grid.
    pub grid_fit_disabled: bool,
}

pub open spec fn modes_of(s: Settings) -> Modes {
    Modes {
        geometry: match s.aa {
            Aa::Grey => GEOMETRY_FLAT,
            Aa::LcdRgb => GEOMETRY_RGB,
            Aa::LightLcdRgb => GEOMETRY_RGB,
            Aa::LcdBgr => GEOMETRY_BGR,
            Aa::LightLcdBgr => GEOMETRY_BGR,
        },
        mode: s.dw_rendering_mode as i32,
        dw_mode: if s.dw_rendering_mode == MODE_OUTLINE {
            MODE_NATURAL_SYMMETRIC
        } else {
            s.dw_rendering_mode as i32
        },
        grid_fit: if s.hinting == 0 {
            GRID_FIT_DEFAULT
        } else if s.hinting == 1 {
            GRID_FIT_DISABLED
        } else {
            GRID_FIT_ENABLED
        },
        dw_aa: if s.aa.lcd() {
            AA_CLEARTYPE
        } else {
            AA_GREYSCALE
        },
        aa_mode: if s.aa.lcd() {
            D2D_AA_DEFAULT
        } else {
            D2D_AA_GREYSCALE
        },
        grid_fit_disabled: s.hinting == 1,
    }
}

/// What DirectWrite and Direct2D are told for profile `p`.
pub fn modes(p: &Profile) -> (r: Modes)
    ensures
        r == modes_of(p@),
{
    let (geometry, aa_mode): (i32, i32) = match p.aa.mode() {
        2 | 4 => (GEOMETRY_RGB, D2D_AA_DEFAULT),
        3 | 5 => (GEOMETRY_BGR, D2D_AA_DEFAULT),
        _ => (GEOMETRY_FLAT, D2D_AA_GREYSCALE),
    };
    let grid_fit: i32 = match p.hinting {
        0 => GRID_FIT_DEFAULT,
        1 => GRID_FIT_DISABLED,
        _ => GRID_FIT_ENABLED,
    };
    let mode: i32 = p.dw.rendering_mode;
    Modes {
        geometry,
        mode,
        dw_mode: if mode == MODE_OUTLINE {
            MODE_NATURAL_SYMMETRIC
        } else {
            mode
        },
        grid_fit,
        dw_aa: if p.aa.is_lcd() {
            AA_CLEARTYPE
        } else {
            AA_GREYSCALE
        },
        aa_mode,
        grid_fit_disabled: grid_fit == GRID_FIT_DISABLED,
    }
}

// ---- calls that DirectWrite may refuse ----

/// One way to make a call. The ways are tried in turn until one succeeds.
#[derive(Clone, Copy, Debug, PartialEq, Eq, Structural)]
pub struct Attempt {
    /// Through the overload of the next generation's factory.
    pub newer: bool,
    /// With the transform tilted.
    pub tilted: bool,
    pub mode: i32,
    pub grid: i32,
    pub aa: i32,
}

pub open spec fn app_call(mode: i32, grid: i32, aa: i32) -> Attempt {
    Attempt { newer: false, tilted: false, mode, grid, aa }
}

/// What an analysis is antialiased with: as the profile says, else as the
/// program asks.
pub open spec fn wanted_aa(modes: Option<Modes>, aa: i32) -> i32 {
    match modes {
        Some(d) => d.dw_aa,
        None => aa,
    }
}

/// The ways to create an analysis through the first factory generation. An
/// aliased run stays as the program asks for it.
pub open spec fn first_attempts(mode: i32, newer: bool, modes: Option<Modes>) -> Seq<Attempt> {
    (if mode != MODE_ALIASED && newer {
        seq![
            Attempt {
                newer: true,
                tilted: false,
                mode,
                grid: GRID_FIT_DEFAULT,
                aa: wanted_aa(modes, AA_CLEARTYPE),
            },
        ]
    } else {
        seq![]
    }) + (match modes {
        Some(d) if mode != MODE_ALIASED => seq![
            Attempt {
                newer: false,
                tilted: d.grid_fit_disabled,
                mode: d.dw_mode,
                grid: GRID_FIT_DEFAULT,
                aa: AA_CLEARTYPE,
            },
        ],
        _ => seq![],
    }) + seq![app_call(mode, GRID_FIT_DEFAULT, AA_CLEARTYPE)]
}

/// The ways to create an analysis through the profile's modes, then through
/// the program's with the profile's antialiasing.
pub open spec fn profile_attempts(mode: i32, grid: i32, modes: Option<Modes>) -> Seq<Attempt> {
    match modes {
        Some(d) => (if mode != MODE_ALIASED {
            seq![Attempt { newer: false, tilted: false, mode: d.dw_mode, grid: d.grid_fit, aa: d.dw_aa }]
        } else {
            seq![]
        }) + seq![Attempt { newer: false, tilted: d.grid_fit_disabled, mode, grid, aa: d.dw_aa }],
        None => seq![],
    }
}

/// The ways to create an analysis through a later factory generation; `newer`
/// where there is a generation after it.
pub open spec fn later_attempts(mode: i32, grid: i32, aa: i32, newer: bool, modes: Option<Modes>) -> Seq<Attempt> {
    (if mode != MODE_ALIASED && newer {
        seq![Attempt { newer: true, tilted: false, mode, grid, aa: wanted_aa(modes, aa) }]
    } else {
        seq![]
    }) + profile_attempts(mode, grid, modes) + seq![app_call(mode, grid, aa)]
}

/// The ways to create an analysis that a program asks the first factory
/// generation for (which has no grid fit and no antialiasing to ask for).
pub fn create_first(mode: i32, newer: bool, modes: Option<Modes>) -> (r: Vec<Attempt>)
    ensures
        r@ == first_attempts(mode, newer, modes),
{
    let mut r: Vec<Attempt> = Vec::new();
    if mode != MODE_ALIASED && newer {
        let aa: i32 = match modes {
            Some(d) => d.dw_aa,
            None => AA_CLEARTYPE,
        };
        r.push(Attempt { newer: true, tilted: false, mode, grid: GRID_FIT_DEFAULT, aa });
    }
    match modes {
        Some(d) => {
            if mode != MODE_ALIASED {
                r.push(
                    Attempt {
                        newer: false,
                        tilted: d.grid_fit_disabled,
                        mode: d.dw_mode,
                        grid: GRID_FIT_DEFAULT,
                        aa: AA_CLEARTYPE,
                    },
                );
            }
        },
        None => {},
    }
    r.push(Attempt { newer: false, tilted: false, mode, grid: GRID_FIT_DEFAULT, aa: AA_CLEARTYPE });
    proof {
        assert(r@ =~= first_attempts(mode, newer, modes));
    }
    r
}

/// The ways to create an analysis that a program asks a later factory
/// generation for.
pub fn create_later(mode: i32, grid: i32, aa: i32, newer: bool, modes: Option<Modes>) -> (r: Vec<Attempt>)
    ensures
        r@ == later_attempts(mode, grid, aa, newer, modes),
{
    let mut r: Vec<Attempt> = Vec::new();
    if mode != MODE_ALIASED && newer {
        let wanted: i32 = match modes {
            Some(d) => d.dw_aa,
            None => aa,
        };
        r.push(Attempt { newer: true, tilted: false, mode, grid, aa: wanted });
    }
    match modes {
        Some(d) => {
            if mode != MODE_ALIASED {
                r.push(Attempt { newer: false, tilted: false, mode: d.dw_mode, grid: d.grid_fit, aa: d.dw_aa });
            }
            r.push(Attempt { newer: false, tilted: d.grid_fit_disabled, mode, grid, aa: d.dw_aa });
        },
        None => {},
    }
    r.push(Attempt { newer: false, tilted: false, mode, grid, aa });
    proof {
        assert(r@ =~= later_attempts(mode, grid, aa, newer, modes));
    }
    r
}

/// A way to hand a run back to DirectWrite.
#[derive(Clone, Copy, Debug, PartialEq, Eq, Structural)]
pub struct Handing {
    /// With the transform tilted.
    pub tilted: bool,
    /// With the profile's parameters in place of the program's.
    pub profile: bool,
}

/// The ways to hand a run back: tilted where the profile turns grid fitting
/// off, with the profile's parameters, as it came.
pub open spec fn handings(modes: Option<Modes>) -> Seq<Handing> {
    let profile = modes is Some;
    (match modes {
        Some(d) if d.grid_fit_disabled => seq![Handing { tilted: true, profile }],
        _ => seq![],
    }) + seq![Handing { tilted: false, profile }, Handing { tilted: false, profile: false }]
}

pub fn hand_back(modes: Option<Modes>) -> (r: Vec<Handing>)
    ensures
        r@ == handings(modes),
{
    let mut r: Vec<Handing> = Vec::new();
    let profile: bool = modes.is_some();
    match modes {
        Some(d) => {
            if d.grid_fit_disabled {
                r.push(Handing { tilted: true, profile });
            }
        },
        None => {},
    }
    r.push(Handing { tilted: false, profile });
    r.push(Handing { tilted: false, profile: false });
    proof {
        assert(r@ =~= handings(modes));
    }
    r
}

/// Whatever DirectWrite refuses, the last way is the program's call as it was
/// made.
pub proof fn the_last_way_is_the_programs_own(mode: i32, grid: i32, aa: i32, newer: bool, modes: Option<Modes>)
    ensures
        first_attempts(mode, newer, modes).last() == app_call(mode, GRID_FIT_DEFAULT, AA_CLEARTYPE),
        later_attempts(mode, grid, aa, newer, modes).last() == app_call(mode, grid, aa),
        handings(modes).last() == (Handing { tilted: false, profile: false }),
{
}

/// An aliased run keeps its mode, whatever the profile says.
pub proof fn aliased_runs_stay_aliased(grid: i32, aa: i32, newer: bool, modes: Option<Modes>, i: int)
    ensures
        0 <= i < first_attempts(MODE_ALIASED, newer, modes).len() ==> first_attempts(MODE_ALIASED, newer, modes)[i].mode
            == MODE_ALIASED,
        0 <= i < later_attempts(MODE_ALIASED, grid, aa, newer, modes).len() ==> later_attempts(
            MODE_ALIASED,
            grid,
            aa,
            newer,
            modes,
        )[i].mode == MODE_ALIASED,
{
}

// ---- bitmap render targets ----

/// The part of `ink` inside a bitmap of this size.
pub open spec fn inside_bitmap(ink: Rect, w: i32, h: i32) -> Rect {
    (numbers::greater(ink.0, 0), numbers::greater(ink.1, 0), numbers::lesser(ink.2, w), numbers::lesser(ink.3, h))
}

/// The part of `ink` to be read back from a bitmap of this size and written,
/// if there is any.
pub fn part_in_bitmap(ink: Rect, w: i32, h: i32) -> (r: Option<Rect>)
    ensures
        ({
            let p = inside_bitmap(ink, w, h);
            r == (if p.0 < p.2 && p.1 < p.3 {
                Some(p)
            } else {
                None
            })
        }),
{
    let left: i32 = if ink.0 > 0 {
        ink.0
    } else {
        0
    };
    let top: i32 = if ink.1 > 0 {
        ink.1
    } else {
        0
    };
    let right: i32 = if ink.2 < w {
        ink.2
    } else {
        w
    };
    let bottom: i32 = if ink.3 < h {
        ink.3
    } else {
        h
    };
    if left < right && top < bottom {
        Some((left, top, right, bottom))
    } else {
        None
    }
}

/// The black box that a draw reports: the ink, not cut off at the bitmap's
/// edges; without ink (spaces) an empty rectangle at the baseline's origin.
pub fn black_box(bounds: Option<Rect>, origin: (i32, i32)) -> (r: Rect)
    ensures
        r == (match bounds {
            Some(ink) => ink,
            None => (origin.0, origin.1, origin.0, origin.1),
        }),
{
    match bounds {
        Some(ink) => ink,
        None => (origin.0, origin.1, origin.0, origin.1),
    }
}

// ---- analyses ----

/// `DWRITE_TEXTURE_ALIASED_1x1` has one byte for each pixel,
/// `DWRITE_TEXTURE_CLEARTYPE_3x1` three.
pub const TEXTURE_ALIASED_1X1: i32 = 0;

pub const TEXTURE_CLEARTYPE_3X1: i32 = 1;

/// So many analyses are remembered.
pub const ANALYSES_CAP: usize = 256;

/// How many bytes a texture has for each pixel; 0 for one that is not known.
pub fn channels(texture: i32) -> (r: usize)
    ensures
        r == (if texture == TEXTURE_CLEARTYPE_3X1 {
            3int
        } else if texture == TEXTURE_ALIASED_1X1 {
            1
        } else {
            0
        }),
{
    match texture {
        TEXTURE_CLEARTYPE_3X1 => 3,
        TEXTURE_ALIASED_1X1 => 1,
        _ => 0,
    }
}

pub open spec fn span(from: i32, to: i32) -> int {
    if from < to {
        to - from
    } else {
        0
    }
}

/// A buffer of `len` bytes is what a texture with these bounds fills.
pub fn fills_buffer(bounds: Rect, channels: usize, len: usize) -> (r: bool)
    requires
        channels <= 3,
    ensures
        r == (channels > 0 && span(bounds.0, bounds.2) * span(bounds.1, bounds.3) * channels == len),
{
    let w: u128 = if bounds.0 < bounds.2 {
        (bounds.2 as i64 - bounds.0 as i64) as u128
    } else {
        0
    };
    let h: u128 = if bounds.1 < bounds.3 {
        (bounds.3 as i64 - bounds.1 as i64) as u128
    } else {
        0
    };
    proof {
        assert(0 <= w * h <= 0x1_0000_0000 * 0x1_0000_0000) by (nonlinear_arith)
            requires
                0 <= w <= 0x1_0000_0000,
                0 <= h <= 0x1_0000_0000,
        ;
        assert(0 <= (w * h) * channels <= 0x1_0000_0000 * 0x1_0000_0000 * 3) by (nonlinear_arith)
            requires
                0 <= w * h <= 0x1_0000_0000 * 0x1_0000_0000,
                0 <= channels <= 3,
        ;
    }
    channels > 0 && w * h * channels as u128 == len as u128
}

/// How the run behind an analysis is antialiased for a texture: greyscale for
/// the 1x1 texture, subpixels for the 3x1 one, whose three values are the
/// coverage at three positions.
pub open spec fn texture_aa(texture: i32, aa: Aa) -> Aa {
    if texture == TEXTURE_ALIASED_1X1 {
        Aa::Grey
    } else if aa.lcd() {
        aa
    } else {
        Aa::LcdRgb
    }
}

pub fn aa_for_texture(texture: i32, aa: Aa) -> (r: Aa)
    ensures
        r == texture_aa(texture, aa),
{
    if texture == TEXTURE_ALIASED_1X1 {
        Aa::Grey
    } else if aa.is_lcd() {
        aa
    } else {
        Aa::LcdRgb
    }
}

/// There are no pixels in the rectangle.
pub open spec fn is_empty_rect(r: Rect) -> bool {
    !(r.2 > r.0 && r.3 > r.1)
}

pub fn is_empty(rect: Rect) -> (r: bool)
    ensures
        r == is_empty_rect(rect),
{
    !(rect.2 > rect.0 && rect.3 > rect.1)
}

/// The bounds to report for an analysis: DirectWrite's where it failed, or
/// answered an empty rectangle (the texture is not this analysis's, or there
/// is no ink), or where the analysis is not one of ours (`ours` is `None`).
pub fn texture_bounds(theirs: Rect, ok: bool, ours: Option<Option<Rect>>) -> (r: Rect)
    ensures
        r == (if !ok || is_empty_rect(theirs) {
            theirs
        } else {
            match ours {
                Some(Some(b)) => b,
                Some(None) => (0, 0, 0, 0),
                None => theirs,
            }
        }),
{
    if !ok || is_empty(theirs) {
        return theirs;
    }
    match ours {
        Some(Some(b)) => b,
        Some(None) => (0, 0, 0, 0),
        None => theirs,
    }
}

/// What an analysis was made from, and the run once rendered (for a greyscale
/// texture or not).
pub struct Analysis {
    /// The face's object.
    pub face: u64,
    pub glyphs: Vec<Placed>,
    pub style: GlyphStyle,
    pub rendered: Option<(bool, RenderedRun)>,
}

pub struct Entry {
    /// The analysis's address.
    pub key: u64,
    pub analysis: Analysis,
}

/// The analyses that are rendered here, the oldest first. An address is used
/// again only after the analysis there is gone, and every creation overwrites
/// or removes what was there; nothing tells when an analysis goes, so the
/// oldest are dropped.
pub struct Analyses {
    pub entries: Vec<Entry>,
}

pub open spec fn place_of(entries: Seq<Entry>, key: u64) -> int
    decreases entries.len(),
{
    if entries.len() == 0 || entries[0].key == key {
        0
    } else {
        1 + place_of(entries.skip(1), key)
    }
}

pub open spec fn is_ours(entries: Seq<Entry>, key: u64) -> bool {
    place_of(entries, key) < entries.len()
}

pub open spec fn distinct(entries: Seq<Entry>) -> bool {
    forall|i: int, j: int| 0 <= i < j < entries.len() ==> (#[trigger] entries[i]).key != (#[trigger] entries[j]).key
}

/// The entries with `key` forgotten.
pub open spec fn forgotten(entries: Seq<Entry>, key: u64) -> Seq<Entry> {
    if is_ours(entries, key) {
        entries.remove(place_of(entries, key))
    } else {
        entries
    }
}

/// The entries with a new analysis at `key`.
pub open spec fn adopted(entries: Seq<Entry>, key: u64, a: Analysis) -> Seq<Entry> {
    if is_ours(entries, key) {
        entries.update(place_of(entries, key), Entry { key, analysis: a })
    } else if entries.len() >= ANALYSES_CAP {
        entries.push(Entry { key, analysis: a }).skip(1)
    } else {
        entries.push(Entry { key, analysis: a })
    }
}

proof fn place_found(entries: Seq<Entry>, key: u64)
    ensures
        0 <= place_of(entries, key) <= entries.len(),
        is_ours(entries, key) ==> entries[place_of(entries, key)].key == key,
        forall|i: int| 0 <= i < place_of(entries, key) ==> (#[trigger] entries[i]).key != key,
    decreases entries.len(),
{
    if entries.len() > 0 && entries[0].key != key {
        place_found(entries.skip(1), key);
        assert forall|i: int| 0 <= i < place_of(entries, key) implies (#[trigger] entries[i]).key != key by {
            if i > 0 {
                assert(entries.skip(1)[i - 1] == entries[i]);
            }
        }
    }
}

/// Whether a run has to be rendered before a texture can be had.
#[derive(Clone, Copy, Debug, PartialEq, Eq, Structural)]
pub enum Need {
    /// The analysis is DirectWrite's.
    NotOurs,
    /// It is rendered for this kind of texture.
    Ready,
    /// It has to be rendered (again).
    Render,
}

pub open spec fn need_of(entries: Seq<Entry>, key: u64, grey: bool) -> Need {
    if !is_ours(entries, key) {
        Need::NotOurs
    } else {
        match entries[place_of(entries, key)].analysis.rendered {
            Some((g, _)) if g == grey => Need::Ready,
            _ => Need::Render,
        }
    }
}

impl Analyses {
    pub open spec fn ok(self) -> bool {
        distinct(self.entries@) && self.entries@.len() <= ANALYSES_CAP
    }

    pub fn new() -> (r: Analyses)
        ensures
            r.ok(),
            r.entries@.len() == 0,
    {
        Analyses { entries: Vec::new() }
    }

    /// Where the analysis at `key` stands, if it is one of ours.
    pub fn place(&self, key: u64) -> (r: Option<usize>)
        ensures
            match r {
                Some(i) => is_ours(self.entries@, key) && i == place_of(self.entries@, key) && i < self.entries@.len(),
                None => !is_ours(self.entries@, key),
            },
    {
        let mut i: usize = 0;
        while i < self.entries.len()
            invariant
                i <= self.entries@.len(),
                forall|j: int| 0 <= j < i ==> (#[trigger] self.entries@[j]).key != key,
            decreases self.entries@.len() - i,
        {
            if self.entries[i].key == key {
                proof {
                    place_found(self.entries@, key);
                    let p = place_of(self.entries@, key);
                    if p < i {
                        assert(self.entries@[p].key != key);
                    }
                }
                return Some(i);
            }
            i = i + 1;
        }
        proof {
            place_found(self.entries@, key);
            if is_ours(self.entries@, key) {
                assert(self.entries@[place_of(self.entries@, key)].key != key);
            }
        }
        None
    }

    /// A new analysis was created at `key`: remember what it was made from, or
    /// (`None`) that it is DirectWrite's.
    pub fn adopt(&mut self, key: u64, a: Option<Analysis>)
        requires
            old(self).ok(),
        ensures
            final(self).ok(),
            final(self).entries@ == (match a {
                Some(a) => adopted(old(self).entries@, key, a),
                None => forgotten(old(self).entries@, key),
            }),
    {
        let ghost was = self.entries@;
        match a {
            Some(a) => {
                proof {
                    place_found(was, key);
                }
                let entry: Entry = Entry { key, analysis: a };
                match self.place(key) {
                    Some(i) => {
                        self.entries[i] = entry;
                        assert forall|x: int, y: int| 0 <= x < y < self.entries@.len() implies (
                        #[trigger] self.entries@[x]).key != (#[trigger] self.entries@[y]).key by {
                            assert(was[x].key != was[y].key);
                        }
                    },
                    None => {
                        self.entries.push(entry);
                        proof {
                            assert forall|x: int, y: int| 0 <= x < y < self.entries@.len() implies (
                            #[trigger] self.entries@[x]).key != (#[trigger] self.entries@[y]).key by {
                                if y < was.len() {
                                    assert(was[x].key != was[y].key);
                                } else {
                                    assert(was[x].key != key);
                                }
                            }
                        }
                        if self.entries.len() > ANALYSES_CAP {
                            let ghost all = self.entries@;
                            let _gone: Entry = self.entries.remove(0);
                            proof {
                                assert(self.entries@ =~= all.skip(1));
                                assert forall|x: int, y: int| 0 <= x < y < self.entries@.len() implies (
                                #[trigger] self.entries@[x]).key != (#[trigger] self.entries@[y]).key by {
                                    assert(all[x + 1].key != all[y + 1].key);
                                }
                            }
                        }
                    },
                }
            },
            None => {
                self.forget(key);
            },
        }
    }

    /// The analysis at `key` is DirectWrite's from now on, for its bounds and
    /// for its texture.
    pub fn forget(&mut self, key: u64)
        requires
            old(self).ok(),
        ensures
            final(self).ok(),
            final(self).entries@ == forgotten(old(self).entries@, key),
    {
        let ghost was = self.entries@;
        match self.place(key) {
            Some(i) => {
                let _gone: Entry = self.entries.remove(i);
                proof {
                    assert forall|x: int, y: int| 0 <= x < y < self.entries@.len() implies (
                    #[trigger] self.entries@[x]).key != (#[trigger] self.entries@[y]).key by {
                        let p = if x < i {
                            x
                        } else {
                            x + 1
                        };
                        let q = if y < i {
                            y
                        } else {
                            y + 1
                        };
                        assert(self.entries@[x] == was[p] && self.entries@[y] == was[q]);
                    }
                }
            },
            None => {},
        }
    }

    /// Whether the run at `key` has to be rendered for a texture of this kind.
    pub fn need(&self, key: u64, grey: bool) -> (r: Need)
        ensures
            r == need_of(self.entries@, key, grey),
    {
        match self.place(key) {
            Some(i) => match &self.entries[i].analysis.rendered {
                Some(done) => if done.0 == grey {
                    Need::Ready
                } else {
                    Need::Render
                },
                None => Need::Render,
            },
            None => Need::NotOurs,
        }
    }

    /// The run at `key` was rendered for textures of this kind.
    pub fn store(&mut self, key: u64, grey: bool, run: RenderedRun)
        requires
            old(self).ok(),
        ensures
            final(self).ok(),
            final(self).entries@ == (if is_ours(old(self).entries@, key) {
                let i = place_of(old(self).entries@, key);
                let e = old(self).entries@[i];
                old(self).entries@.update(
                    i,
                    Entry { key, analysis: Analysis { rendered: Some((grey, run)), ..e.analysis } },
                )
            } else {
                old(self).entries@
            }),
    {
        let ghost was = self.entries@;
        proof {
            place_found(was, key);
        }
        match self.place(key) {
            Some(i) => {
                self.entries[i].analysis.rendered = Some((grey, run));
                proof {
                    assert forall|x: int, y: int| 0 <= x < y < self.entries@.len() implies (
                    #[trigger] self.entries@[x]).key != (#[trigger] self.entries@[y]).key by {
                        assert(was[x].key != was[y].key);
                    }
                }
            },
            None => {},
        }
    }
}

// ---- laws ----

/// What DirectWrite and Direct2D are told, by the numbers of the profile's
/// mode and hinting: a flat pixel geometry (0) and greyscale for mode 0, the
/// RGB one (1) for 2 and 4 and the BGR one (2) for 3 and 5; the rendering mode
/// as it is, but for DirectWrite 5 in place of 6; grid fitting off (1) where
/// hinting is 1, as it comes (0) where it is 0, and on (2) otherwise.
pub proof fn modes_by_number(s: Settings)
    requires
        i32::MIN <= s.dw_rendering_mode <= i32::MAX,
    ensures
        ({
            let m = modes_of(s);
            let aa = s.aa.number();
            &&& aa == 0 ==> m.geometry == 0 && m.dw_aa == 1 && m.aa_mode == 2
            &&& aa == 2 || aa == 4 ==> m.geometry == 1 && m.dw_aa == 0 && m.aa_mode == 0
            &&& aa == 3 || aa == 5 ==> m.geometry == 2 && m.dw_aa == 0 && m.aa_mode == 0
            &&& m.mode == s.dw_rendering_mode
            &&& s.dw_rendering_mode == 6 ==> m.dw_mode == 5
            &&& s.dw_rendering_mode != 6 ==> m.dw_mode == s.dw_rendering_mode
            &&& s.hinting == 0 ==> m.grid_fit == 0
            &&& s.hinting == 1 ==> m.grid_fit == 1
            &&& s.hinting != 0 && s.hinting != 1 ==> m.grid_fit == 2
            &&& m.grid_fit_disabled <==> s.hinting == 1
        }),
{
}

/// The ways to create an analysis through the first factory generation, in
/// their order. A run that is not aliased (mode 1) is tried through the next
/// generation, where there is one, then with the profile's mode, where there
/// is a profile, tilted where that turns grid fitting off; then any run as the
/// program asks for it.
pub proof fn the_first_generation_is_tried_in_this_order(mode: i32, newer: bool, modes: Option<Modes>)
    ensures
        ({
            let all = first_attempts(mode, newer, modes);
            let own = Attempt { newer: false, tilted: false, mode, grid: 0, aa: 0 };
            let by_profile = match modes {
                Some(d) => Attempt {
                    newer: false,
                    tilted: d.grid_fit_disabled,
                    mode: d.dw_mode,
                    grid: 0,
                    aa: 0,
                },
                None => own,
            };
            let through_next = Attempt {
                newer: true,
                tilted: false,
                mode,
                grid: 0,
                aa: match modes {
                    Some(d) => d.dw_aa,
                    None => 0,
                },
            };
            &&& mode == 1 ==> all == seq![own]
            &&& mode != 1 && !newer && modes is None ==> all == seq![own]
            &&& mode != 1 && !newer && modes is Some ==> all == seq![by_profile, own]
            &&& mode != 1 && newer && modes is None ==> all == seq![through_next, own]
            &&& mode != 1 && newer && modes is Some ==> all == seq![through_next, by_profile, own]
        }),
{
}

/// The ways to create an analysis through a later factory generation, in their
/// order: through the next one, where there is one, with the profile's mode
/// and grid fit (both only for a run that is not aliased), then with the
/// profile's antialiasing, then as the program asks for it.
pub proof fn later_generations_are_tried_in_this_order(mode: i32, grid: i32, aa: i32, newer: bool, d: Modes)
    ensures
        ({
            let own = Attempt { newer: false, tilted: false, mode, grid, aa };
            let by_profile = Attempt { newer: false, tilted: false, mode: d.dw_mode, grid: d.grid_fit, aa: d.dw_aa };
            let smoothed = Attempt { newer: false, tilted: d.grid_fit_disabled, mode, grid, aa: d.dw_aa };
            let with = later_attempts(mode, grid, aa, newer, Some(d));
            let without = later_attempts(mode, grid, aa, newer, None);
            &&& mode == 1 ==> with == seq![smoothed, own] && without == seq![own]
            &&& mode != 1 && !newer ==> with == seq![by_profile, smoothed, own] && without == seq![own]
            &&& mode != 1 && newer ==> {
                &&& with == seq![
                    Attempt { newer: true, tilted: false, mode, grid, aa: d.dw_aa },
                    by_profile,
                    smoothed,
                    own,
                ]
                &&& without == seq![Attempt { newer: true, tilted: false, mode, grid, aa }, own]
            }
        }),
{
}

/// The ways to hand a run back, in their order.
pub proof fn runs_are_handed_back_in_this_order(d: Modes)
    ensures
        ({
            let plain = Handing { tilted: false, profile: false };
            let own = Handing { tilted: false, profile: true };
            &&& handings(None) == seq![plain, plain]
            &&& !d.grid_fit_disabled ==> handings(Some(d)) == seq![own, plain]
            &&& d.grid_fit_disabled ==> handings(Some(d)) == seq![Handing { tilted: true, profile: true }, own, plain]
        }),
{
}

/// The part of some ink in a bitmap is the pixels that are in both.
pub proof fn the_part_in_a_bitmap_is_in_both(ink: Rect, w: i32, h: i32, x: int, y: int)
    ensures
        ({
            let p = inside_bitmap(ink, w, h);
            p.0 <= x < p.2 && p.1 <= y < p.3 <==> {
                &&& ink.0 <= x < ink.2 && ink.1 <= y < ink.3
                &&& 0 <= x < w && 0 <= y < h
            }
        }),
{
}

/// A texture of one byte per pixel (0) takes greyscale coverage; another takes
/// subpixels, in the profile's order, or in RGB order where that has none.
pub proof fn a_texture_takes_its_antialiasing(texture: i32, aa: Aa)
    ensures
        texture == 0 ==> texture_aa(texture, aa).number() == 0,
        texture != 0 && aa.number() != 0 ==> texture_aa(texture, aa) == aa,
        texture != 0 && aa.number() == 0 ==> texture_aa(texture, aa).number() == 2,
{
}

/// A texture's bytes are its pixels', and a rectangle has pixels exactly if
/// both its sides have a length.
pub proof fn a_rectangle_has_pixels(r: Rect)
    ensures
        is_empty_rect(r) <==> span(r.0, r.2) == 0 || span(r.1, r.3) == 0,
        r.0 <= r.2 ==> r.0 + span(r.0, r.2) == r.2,
        r.0 > r.2 ==> span(r.0, r.2) == 0,
{
}

/// An analysis is found by its address, and it is rendered exactly if that was
/// not done for textures of the same kind.
pub proof fn an_analysis_is_found_by_its_address(entries: Seq<Entry>, key: u64, i: int, grey: bool)
    requires
        0 <= i <= entries.len(),
        i < entries.len() ==> entries[i].key == key,
        forall|j: int| 0 <= j < i ==> (#[trigger] entries[j]).key != key,
    ensures
        place_of(entries, key) == i,
        is_ours(entries, key) <==> i < entries.len(),
        i == entries.len() ==> need_of(entries, key, grey) == Need::NotOurs && forgotten(entries, key) == entries,
        i < entries.len() ==> {
            let done = entries[i].analysis.rendered;
            &&& need_of(entries, key, grey) == Need::Ready <==> done is Some && (done->0).0 == grey
            &&& need_of(entries, key, grey) == Need::Render <==> done is None || (done->0).0 != grey
            &&& forgotten(entries, key) == entries.take(i) + entries.skip(i + 1)
        },
{
    place_found(entries, key);
    let p = place_of(entries, key);
    if p < i {
        assert(entries[p].key != key);
    }
    if i < entries.len() {
        assert(entries.remove(i) =~= entries.take(i) + entries.skip(i + 1));
    }
}

/// A new analysis takes the place of one at its address, or comes last; the
/// 257th sends off the oldest.
pub proof fn up_to_256_analyses_are_known(entries: Seq<Entry>, key: u64, a: Analysis)
    requires
        entries.len() <= 256,
    ensures
        ({
            let e = Entry { key, analysis: a };
            let now = adopted(entries, key, a);
            if is_ours(entries, key) {
                now == entries.take(place_of(entries, key)) + seq![e] + entries.skip(place_of(entries, key) + 1)
            } else if entries.len() < 256 {
                now == entries + seq![e]
            } else {
                now == entries.skip(1) + seq![e]
            }
        }),
{
    let e = Entry { key, analysis: a };
    place_found(entries, key);
    let i = place_of(entries, key);
    if is_ours(entries, key) {
        assert(entries.update(i, e) =~= entries.take(i) + seq![e] + entries.skip(i + 1));
    } else {
        assert(entries.push(e) =~= entries + seq![e]);
        if entries.len() == 256 {
            assert(entries.push(e).skip(1) =~= entries.skip(1) + seq![e]);
        }
    }
}

/// The analysis created last is known, until something is created again at its
/// address or it is the oldest one too many.
pub proof fn a_new_analysis_is_known(entries: Seq<Entry>, key: u64, a: Analysis)
    requires
        distinct(entries),
        entries.len() <= ANALYSES_CAP,
    ensures
        is_ours(adopted(entries, key, a), key),
        adopted(entries, key, a)[place_of(adopted(entries, key, a), key)].analysis == a,
{
    let now = adopted(entries, key, a);
    place_found(entries, key);
    place_found(now, key);
    let at = if is_ours(entries, key) {
        place_of(entries, key)
    } else {
        now.len() - 1
    };
    assert(now[at].key == key && now[at].analysis == a);
    if place_of(now, key) < at {
        let p = place_of(now, key);
        assert(now[p].key == key);
        if is_ours(entries, key) {
            assert(now[p] == entries[p]);
        } else if entries.len() >= ANALYSES_CAP {
            assert(now[p] == entries[p + 1]);
            assert(entries[p + 1].key != key);
        } else {
            assert(now[p] == entries[p]);
            assert(entries[p].key != key);
        }
    }
}

/// What was at an address before is never used for what is there now: after a
/// creation that is DirectWrite's the address is not known.
pub proof fn a_stale_analysis_is_never_used(entries: Seq<Entry>, key: u64)
    requires
        distinct(entries),
    ensures
        !is_ours(forgotten(entries, key), key),
{
    place_found(entries, key);
    let now = forgotten(entries, key);
    place_found(now, key);
    if is_ours(now, key) {
        let p = place_of(now, key);
        let at = place_of(entries, key);
        if is_ours(entries, key) {
            if p < at {
                assert(now[p] == entries[p]);
            } else {
                assert(now[p] == entries[p + 1]);
                assert(entries[at].key != entries[p + 1].key);
            }
        }
    }
}

} // verus!
