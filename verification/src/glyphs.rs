//! Rendered glyphs, kept up to a number of bytes.

use std::sync::Arc;

use vstd::prelude::*;

use crate::ft::Glyph;

verus! {

/// Rendered glyphs are kept up to this many bytes, then dropped wholesale.
pub const MAX_GLYPH_BYTES: usize = 0x80_0000;

/// What a glyph takes besides its bitmap.
pub const GLYPH_BYTES: usize = 56;

const BUCKETS: usize = 1024;

/// What a cached glyph was rendered from: the face, the glyph, its size and
/// style, and every FreeType setting that changes the bitmap.
#[derive(Clone, Copy, PartialEq, Eq, Structural, Debug)]
pub struct GlyphKey {
    pub face: u64,
    pub gi: u32,
    /// 26.6 em size for styled glyphs; whole pixels (negated) otherwise.
    pub size: i64,
    pub style: u8,
    pub load_flags: i32,
    pub render_mode: i32,
    pub lcd_filter: i32,
    pub embolden: i32,
}

/// A glyph and what it was rendered from.
struct Kept {
    key: GlyphKey,
    glyph: Arc<Glyph>,
}

/// The cache. A glyph stands in the bucket that its index and size pick.
pub struct Glyphs {
    buckets: Vec<Vec<Kept>>,
    bytes: usize,
}

/// What keeping `g` costs.
pub open spec fn cost(g: Glyph) -> int {
    if g.buffer@.len() + GLYPH_BYTES > usize::MAX {
        usize::MAX as int
    } else {
        g.buffer@.len() + GLYPH_BYTES
    }
}

fn cost_of(g: &Glyph) -> (r: usize)
    ensures
        r == cost(*g),
{
    g.buffer.len().saturating_add(GLYPH_BYTES)
}

spec fn bucket_of(k: GlyphKey) -> int {
    (k.gi as int + (if k.size < 0 {
        -(k.size as int)
    } else {
        k.size as int
    })) % (BUCKETS as int)
}

fn bucket(k: &GlyphKey) -> (r: usize)
    ensures
        r == bucket_of(*k),
        r < BUCKETS,
{
    let size: u128 = if k.size < 0 {
        (-(k.size as i128)) as u128
    } else {
        k.size as u128
    };
    ((k.gi as u128 + size) % (BUCKETS as u128)) as usize
}

/// The glyph for `k` in a bucket, if it is there.
spec fn in_bucket(b: Seq<Kept>, k: GlyphKey) -> Option<Arc<Glyph>>
    decreases b.len(),
{
    if b.len() == 0 {
        None
    } else if b.last().key == k {
        Some(b.last().glyph)
    } else {
        in_bucket(b.drop_last(), k)
    }
}

/// What the glyphs in `m` cost together.
pub open spec fn cost_sum(m: Map<GlyphKey, Arc<Glyph>>) -> int
    decreases m.dom().len(),
    when m.dom().finite()
{
    if m.dom().len() == 0 {
        0
    } else {
        let k = m.dom().choose();
        cost(*m[k]) + cost_sum(m.remove(k))
    }
}

/// No key twice in a bucket, and every key in its own.
spec fn bucket_ok(b: Seq<Kept>, n: int) -> bool {
    &&& forall|i: int| 0 <= i < b.len() ==> bucket_of((#[trigger] b[i]).key) == n
    &&& forall|i: int, j: int| 0 <= i < j < b.len() ==> (#[trigger] b[i]).key != (#[trigger] b[j]).key
}

proof fn in_bucket_found(b: Seq<Kept>, k: GlyphKey)
    ensures
        in_bucket(b, k) is Some <==> exists|i: int| 0 <= i < b.len() && (#[trigger] b[i]).key == k,
    decreases b.len(),
{
    if b.len() > 0 {
        in_bucket_found(b.drop_last(), k);
        if b.last().key == k {
            assert(b[b.len() - 1].key == k);
        } else {
            if in_bucket(b.drop_last(), k) is Some {
                let i = choose|i: int| 0 <= i < b.drop_last().len() && (#[trigger] b.drop_last()[i]).key == k;
                assert(b[i].key == k);
            }
            if exists|i: int| 0 <= i < b.len() && (#[trigger] b[i]).key == k {
                let i = choose|i: int| 0 <= i < b.len() && (#[trigger] b[i]).key == k;
                assert(b.drop_last()[i].key == k);
            }
        }
    }
}

proof fn in_bucket_at(b: Seq<Kept>, n: int, i: int)
    requires
        bucket_ok(b, n),
        0 <= i < b.len(),
    ensures
        in_bucket(b, b[i].key) == Some(b[i].glyph),
    decreases b.len(),
{
    if i < b.len() - 1 {
        assert(b[i].key != b[b.len() - 1].key);
        assert(bucket_ok(b.drop_last(), n)) by {
            assert forall|x: int| 0 <= x < b.drop_last().len() implies bucket_of(
                (#[trigger] b.drop_last()[x]).key,
            ) == n by {
                assert(b[x] == b.drop_last()[x]);
            }
        }
        in_bucket_at(b.drop_last(), n, i);
        assert(b.drop_last()[i] == b[i]);
    }
}

/// Any glyph of `m` may be the first to be counted.
proof fn cost_sum_any(m: Map<GlyphKey, Arc<Glyph>>, k: GlyphKey)
    requires
        m.dom().finite(),
        m.dom().contains(k),
    ensures
        cost_sum(m) == cost(*m[k]) + cost_sum(m.remove(k)),
    decreases m.dom().len(),
{
    let c = m.dom().choose();
    assert(m.dom().len() > 0) by {
        if m.dom().len() == 0 {
            assert(m.dom() =~= Set::empty());
        }
    }
    assert(m.dom().contains(c));
    if c != k {
        cost_sum_any(m.remove(c), k);
        cost_sum_any(m.remove(k), c);
        assert(m.remove(c).remove(k) =~= m.remove(k).remove(c));
    }
}

proof fn cost_sum_positive(m: Map<GlyphKey, Arc<Glyph>>)
    requires
        m.dom().finite(),
    ensures
        cost_sum(m) >= 0,
    decreases m.dom().len(),
{
    if m.dom().len() > 0 {
        let c = m.dom().choose();
        assert(m.dom().contains(c));
        cost_sum_positive(m.remove(c));
    }
}

impl View for Glyphs {
    type V = Map<GlyphKey, Arc<Glyph>>;

    closed spec fn view(&self) -> Map<GlyphKey, Arc<Glyph>> {
        Map::new(
            |k: GlyphKey| in_bucket(self.buckets@[bucket_of(k)]@, k) is Some,
            |k: GlyphKey| in_bucket(self.buckets@[bucket_of(k)]@, k)->0,
        )
    }
}

fn empty_buckets() -> (r: Vec<Vec<Kept>>)
    ensures
        r@.len() == BUCKETS,
        forall|i: int| 0 <= i < BUCKETS ==> (#[trigger] r@[i])@.len() == 0,
{
    let mut r: Vec<Vec<Kept>> = Vec::new();
    let mut i: usize = 0;
    while i < BUCKETS
        invariant
            i <= BUCKETS,
            r@.len() == i,
            forall|j: int| 0 <= j < i ==> (#[trigger] r@[j])@.len() == 0,
        decreases BUCKETS - i,
    {
        r.push(Vec::new());
        i = i + 1;
    }
    r
}

/// `Arc::clone` gives another handle on the same glyph.
#[verifier::external_body]
fn share(g: &Arc<Glyph>) -> (r: Arc<Glyph>)
    ensures
        r == *g,
{
    Arc::clone(g)
}

impl Glyphs {
    /// Every glyph stands in its bucket, once, and the bytes are counted.
    pub closed spec fn ok(self) -> bool {
        &&& self.buckets@.len() == BUCKETS
        &&& forall|n: int| 0 <= n < BUCKETS ==> bucket_ok((#[trigger] self.buckets@[n])@, n)
        &&& self@.dom().finite()
        &&& self.bytes == cost_sum(self@)
    }

    /// No glyphs yet.
    pub fn new() -> (r: Glyphs)
        ensures
            r.ok(),
            r@ == Map::<GlyphKey, Arc<Glyph>>::empty(),
    {
        let buckets: Vec<Vec<Kept>> = empty_buckets();
        let r: Glyphs = Glyphs { buckets, bytes: 0 };
        assert(r@ =~= Map::<GlyphKey, Arc<Glyph>>::empty());
        r
    }

    /// The glyph kept for `key`, if there is one.
    pub fn get(&self, key: &GlyphKey) -> (r: Option<Arc<Glyph>>)
        requires
            self.ok(),
        ensures
            r == (if self@.dom().contains(*key) {
                Some(self@[*key])
            } else {
                None
            }),
    {
        let n: usize = bucket(key);
        let b: &Vec<Kept> = &self.buckets[n];
        let mut i: usize = 0;
        while i < b.len()
            invariant
                i <= b@.len(),
                bucket_ok(b@, n as int),
                b@ == self.buckets@[n as int]@,
                n == bucket_of(*key),
                forall|j: int| 0 <= j < i ==> (#[trigger] b@[j]).key != *key,
            decreases b@.len() - i,
        {
            if b[i].key == *key {
                proof {
                    in_bucket_at(b@, n as int, i as int);
                }
                return Some(share(&b[i].glyph));
            }
            i = i + 1;
        }
        proof {
            in_bucket_found(b@, *key);
        }
        None
    }
}

/// What the cache holds once `g` is kept for `key`: past the limit, what was
/// there before goes.
pub open spec fn with_kept(m: Map<GlyphKey, Arc<Glyph>>, key: GlyphKey, g: Arc<Glyph>) -> Map<GlyphKey, Arc<Glyph>> {
    if cost_sum(m) + cost(*g) > MAX_GLYPH_BYTES {
        Map::<GlyphKey, Arc<Glyph>>::empty().insert(key, g)
    } else {
        m.insert(key, g)
    }
}

/// What the cache holds once the glyphs of `face` are dropped.
pub open spec fn without_face(m: Map<GlyphKey, Arc<Glyph>>, face: u64) -> Map<GlyphKey, Arc<Glyph>> {
    m.restrict(m.dom().filter(|k: GlyphKey| k.face != face))
}

/// Taking entry `j` out of a bucket takes out its key and no other.
proof fn in_bucket_removed(b: Seq<Kept>, n: int, j: int, k: GlyphKey)
    requires
        bucket_ok(b, n),
        0 <= j < b.len(),
    ensures
        bucket_ok(b.remove(j), n),
        in_bucket(b.remove(j), k) == (if k == b[j].key {
            None
        } else {
            in_bucket(b, k)
        }),
    decreases b.len(),
{
    let c = b.remove(j);
    assert forall|x: int, y: int| 0 <= x < y < c.len() implies (#[trigger] c[x]).key != (#[trigger] c[y]).key by {
        let x1 = if x < j {
            x
        } else {
            x + 1
        };
        let y1 = if y < j {
            y
        } else {
            y + 1
        };
        assert(b[x1].key != b[y1].key);
    }
    assert forall|x: int| 0 <= x < c.len() implies bucket_of((#[trigger] c[x]).key) == n by {
        let x1 = if x < j {
            x
        } else {
            x + 1
        };
        assert(bucket_of(b[x1].key) == n);
    }
    if j == b.len() - 1 {
        assert(c =~= b.drop_last());
        if k == b[j].key {
            in_bucket_found(c, k);
        }
    } else {
        let d = b.drop_last();
        assert(bucket_ok(d, n)) by {
            assert forall|x: int| 0 <= x < d.len() implies bucket_of((#[trigger] d[x]).key) == n by {
                assert(b[x] == d[x]);
            }
        }
        in_bucket_removed(d, n, j, k);
        assert(c.drop_last() =~= d.remove(j));
        assert(c.last() == b.last());
        assert(b[j].key != b[b.len() - 1].key);
    }
}

impl Glyphs {
    /// Keep `g` for `key`, which has no glyph yet.
    fn keep(&mut self, key: GlyphKey, g: Arc<Glyph>)
        requires
            old(self).ok(),
            !old(self)@.dom().contains(key),
        ensures
            final(self).ok(),
            final(self)@ == with_kept(old(self)@, key, g),
    {
        let size: usize = cost_of(&g);
        if self.bytes > MAX_GLYPH_BYTES || size > MAX_GLYPH_BYTES - self.bytes {
            self.buckets = empty_buckets();
            self.bytes = 0;
            proof {
                assert(self@ =~= Map::<GlyphKey, Arc<Glyph>>::empty());
            }
        }
        let ghost mid = self@;
        let ghost bs = self.buckets@;
        let n: usize = bucket(&key);
        let ghost b = self.buckets@[n as int]@;
        proof {
            assert(!mid.dom().contains(key));
            in_bucket_found(b, key);
            assert(bucket_ok(b, n as int));
        }
        self.buckets[n].push(Kept { key, glyph: g });
        self.bytes = self.bytes + size;
        proof {
            let c = self.buckets@[n as int];
            assert(c@ =~= b.push(Kept { key, glyph: g }));
            assert(c@.drop_last() =~= b);
            assert(self.buckets@ =~= bs.update(n as int, c));
            assert(bucket_ok(c@, n as int));
            assert forall|x: int| 0 <= x < BUCKETS implies bucket_ok((#[trigger] self.buckets@[x])@, x) by {
                assert(bucket_ok(bs[x]@, x));
            }
            assert forall|k: GlyphKey| in_bucket(self.buckets@[bucket_of(k)]@, k) == (if k == key {
                Some(g)
            } else {
                #[trigger] in_bucket(bs[bucket_of(k)]@, k)
            }) by {}
            assert(self@ =~= mid.insert(key, g));
            cost_sum_any(self@, key);
            assert(self@.remove(key) =~= mid);
        }
    }

    /// The glyph for `key`, rendering it with `render` on a miss.
    pub fn cached<F: FnOnce() -> Option<Glyph>>(&mut self, key: GlyphKey, render: F) -> (r: Option<Arc<Glyph>>)
        requires
            old(self).ok(),
            render.requires(()),
        ensures
            final(self).ok(),
            old(self)@.dom().contains(key) ==> r == Some(old(self)@[key]) && *final(self) == *old(self),
            !old(self)@.dom().contains(key) ==> match r {
                Some(g) => render.ensures((), Some(*g)) && final(self)@ == with_kept(old(self)@, key, g),
                None => render.ensures((), None) && *final(self) == *old(self),
            },
    {
        match self.get(&key) {
            Some(g) => {
                return Some(g);
            },
            None => {},
        }
        match render() {
            Some(g) => {
                let g: Arc<Glyph> = Arc::new(g);
                self.keep(key, share(&g));
                Some(g)
            },
            None => None,
        }
    }

    /// Drop the kept glyphs rendered from the face under `face`.
    pub fn forget(&mut self, face: u64)
        requires
            old(self).ok(),
        ensures
            final(self).ok(),
            final(self)@ == without_face(old(self)@, face),
    {
        let mut i: usize = 0;
        while i < BUCKETS
            invariant
                i <= BUCKETS,
                self.ok(),
                forall|k: GlyphKey| #[trigger]
                    self@.dom().contains(k) ==> old(self)@.dom().contains(k) && self@[k] == old(self)@[k],
                forall|k: GlyphKey|
                    k.face != face && old(self)@.dom().contains(k) ==> #[trigger] self@.dom().contains(k),
                forall|n: int, x: int|
                    0 <= n < i && 0 <= x < self.buckets@[n]@.len() ==> (#[trigger] self.buckets@[n]@[x]).key.face != face,
            decreases BUCKETS - i,
        {
            let mut j: usize = 0;
            while j < self.buckets[i].len()
                invariant
                    i < BUCKETS,
                    self.ok(),
                    j <= self.buckets@[i as int]@.len(),
                    forall|k: GlyphKey| #[trigger]
                        self@.dom().contains(k) ==> old(self)@.dom().contains(k) && self@[k] == old(self)@[k],
                    forall|k: GlyphKey|
                        k.face != face && old(self)@.dom().contains(k) ==> #[trigger] self@.dom().contains(k),
                    forall|n: int, x: int|
                        0 <= n < i && 0 <= x < self.buckets@[n]@.len() ==> (
                        #[trigger] self.buckets@[n]@[x]).key.face != face,
                    forall|x: int| 0 <= x < j ==> (#[trigger] self.buckets@[i as int]@[x]).key.face != face,
                decreases self.buckets@[i as int]@.len() - j,
            {
                if self.buckets[i][j].key.face == face {
                    self.drop_entry(i, j);
                } else {
                    j = j + 1;
                }
            }
            i = i + 1;
        }
        proof {
            let m = without_face(old(self)@, face);
            assert forall|k: GlyphKey| #[trigger] self@.dom().contains(k) implies k.face != face by {
                let n = bucket_of(k);
                in_bucket_found(self.buckets@[n]@, k);
                let x = choose|x: int| 0 <= x < self.buckets@[n]@.len() && (#[trigger] self.buckets@[n]@[x]).key == k;
                assert(self.buckets@[n]@[x].key.face != face);
            }
            assert(self@ =~= m);
        }
    }

    /// Take entry `j` out of bucket `i`.
    fn drop_entry(&mut self, i: usize, j: usize)
        requires
            old(self).ok(),
            i < BUCKETS,
            j < old(self).buckets@[i as int]@.len(),
        ensures
            final(self).ok(),
            final(self)@ == old(self)@.remove(old(self).buckets@[i as int]@[j as int].key),
            final(self).buckets@ == old(self).buckets@.update(i as int, final(self).buckets@[i as int]),
            final(self).buckets@[i as int]@ == old(self).buckets@[i as int]@.remove(j as int),
    {
        let ghost m = self@;
        let ghost bs = self.buckets@;
        let ghost b = self.buckets@[i as int]@;
        let ghost key = b[j as int].key;
        proof {
            assert(bucket_ok(b, i as int));
            in_bucket_at(b, i as int, j as int);
            cost_sum_any(m, key);
            cost_sum_positive(m.remove(key));
        }
        let size: usize = cost_of(&self.buckets[i][j].glyph);
        let gone: Kept = self.buckets[i].remove(j);
        self.bytes = self.bytes - size;
        proof {
            let c = self.buckets@[i as int];
            assert(self.buckets@ =~= bs.update(i as int, c));
            in_bucket_removed(b, i as int, j as int, key);
            assert forall|x: int| 0 <= x < BUCKETS implies bucket_ok((#[trigger] self.buckets@[x])@, x) by {
                assert(bucket_ok(bs[x]@, x));
            }
            assert forall|k: GlyphKey| in_bucket(self.buckets@[bucket_of(k)]@, k) == (if k == key {
                None
            } else {
                #[trigger] in_bucket(bs[bucket_of(k)]@, k)
            }) by {
                if bucket_of(k) == i {
                    in_bucket_removed(b, i as int, j as int, k);
                }
            }
            assert(self@ =~= m.remove(key));
        }
    }
}

// ---- laws ----

/// A glyph counts as its bitmap's bytes and 56 more; up to eight mebibytes
/// glyphs are added to those that are kept, and the one that would go past
/// that takes the place of all of them.
pub proof fn glyphs_are_kept_up_to_eight_mebibytes(m: Map<GlyphKey, Arc<Glyph>>, key: GlyphKey, g: Arc<Glyph>)
    requires
        m.dom().finite(),
        !m.dom().contains(key),
        g.buffer@.len() as int + 56 <= usize::MAX,
    ensures
        ({
            let none = Map::<GlyphKey, Arc<Glyph>>::empty();
            let all = cost_sum(m) + g.buffer@.len() + 56;
            &&& cost_sum(none) == 0
            &&& cost_sum(m.insert(key, g)) == all
            &&& all <= 8_388_608 ==> with_kept(m, key, g) == m.insert(key, g)
            &&& all > 8_388_608 ==> with_kept(m, key, g) == none.insert(key, g)
        }),
{
    let k = m.insert(key, g);
    cost_sum_any(k, key);
    assert(k.remove(key) =~= m);
}

/// The cache stays within its limit, unless one glyph alone is past it.
pub proof fn cache_is_bounded(m: Map<GlyphKey, Arc<Glyph>>, key: GlyphKey, g: Arc<Glyph>)
    requires
        m.dom().finite(),
        !m.dom().contains(key),
    ensures
        cost_sum(with_kept(m, key, g)) <= MAX_GLYPH_BYTES || cost_sum(with_kept(m, key, g)) == cost(*g),
{
    let k = with_kept(m, key, g);
    cost_sum_any(k, key);
    let none = Map::<GlyphKey, Arc<Glyph>>::empty();
    assert(none.insert(key, g).remove(key) =~= none);
    assert(m.insert(key, g).remove(key) =~= m);
    assert(cost_sum(none) == 0);
}

/// A glyph that was kept is the one that is found; the glyphs kept for other
/// keys stay what they were, and all of them stay below the limit.
pub proof fn kept_glyphs_are_found(m: Map<GlyphKey, Arc<Glyph>>, key: GlyphKey, g: Arc<Glyph>, other: GlyphKey)
    requires
        other != key,
    ensures
        with_kept(m, key, g).dom().contains(key),
        with_kept(m, key, g)[key] == g,
        with_kept(m, key, g).dom().contains(other) ==> m.dom().contains(other) && with_kept(m, key, g)[other]
            == m[other],
        cost_sum(m) + cost(*g) <= MAX_GLYPH_BYTES && m.dom().contains(other) ==> with_kept(m, key, g).dom().contains(
            other,
        ),
{
}

/// Once a face's glyphs are forgotten none of them is found, and no other
/// glyph is lost.
pub proof fn forgotten_glyphs_are_gone(m: Map<GlyphKey, Arc<Glyph>>, face: u64, key: GlyphKey)
    ensures
        key.face == face ==> !without_face(m, face).dom().contains(key),
        key.face != face ==> without_face(m, face).dom().contains(key) == m.dom().contains(key),
        key.face != face && m.dom().contains(key) ==> without_face(m, face)[key] == m[key],
{
}

} // verus!
