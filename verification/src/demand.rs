//! Tile demand tracking: the authoritative set of materialized tiles, the
//! diff against a covering range that yields the tiles still to request,
//! and the distance-weighted eviction pass that bounds how many non-visible
//! tiles stay loaded.
use vstd::prelude::*;

use crate::coords::MercatorAabb2d;
use crate::tiles::{spec_in_bounds, tiles_in_bounds, TileBounds, TileIndex};

verus! {

/// How many non-visible tiles may stay materialized before an eviction
/// pass removes the farthest ones.
pub const KEEP_UNUSED_TILES: usize = 1000;

/// Weight of a zoom-level step in the eviction distance metric: tiles one
/// zoom level away count as this many grid steps, so same-zoom neighbours
/// are kept in preference to other zoom levels.
pub const ZOOM_DISTANCE_FACTOR: u32 = 10;

/// One currently loaded tile: its index, its Mercator bounding box, and
/// whether it was visible on screen at the last update.
#[derive(Clone, Copy, Debug, PartialEq, Eq, Structural)]
pub struct MaterializedTile {
    pub index: TileIndex,
    pub bounds: MercatorAabb2d,
    pub last_visible: bool,
}

/// The absolute difference of two integers.
pub open spec fn spec_abs_diff(a: int, b: int) -> int {
    if a >= b {
        a - b
    } else {
        b - a
    }
}

/// The eviction distance of a tile from the viewport center: the Manhattan
/// distance on the tile grid plus the weighted zoom-level difference.
pub open spec fn spec_tile_distance(t: TileIndex, cx: int, cy: int, czoom: int) -> int {
    spec_abs_diff(t.x as int, cx) + spec_abs_diff(t.y as int, cy) + spec_abs_diff(
        t.zoom as int * ZOOM_DISTANCE_FACTOR as int,
        czoom * ZOOM_DISTANCE_FACTOR as int,
    )
}

/// The eviction distance metric, computed exactly.
pub fn tile_distance(t: TileIndex, cx: u32, cy: u32, czoom: u8) -> (d: u64)
    ensures
        d as int == spec_tile_distance(t, cx as int, cy as int, czoom as int),
{
    let dx: u64 = if t.x >= cx {
        (t.x - cx) as u64
    } else {
        (cx - t.x) as u64
    };
    let dy: u64 = if t.y >= cy {
        (t.y - cy) as u64
    } else {
        (cy - t.y) as u64
    };
    let tz: u32 = (t.zoom as u32) * ZOOM_DISTANCE_FACTOR;
    let cz: u32 = (czoom as u32) * ZOOM_DISTANCE_FACTOR;
    let dz: u64 = if tz >= cz {
        (tz - cz) as u64
    } else {
        (cz - tz) as u64
    };
    dx + dy + dz
}

/// The number of entries in a sequence of materialized tiles whose
/// visibility flag is off.
pub open spec fn spec_nonvisible_count(s: Seq<MaterializedTile>) -> int
    decreases s.len(),
{
    if s.len() == 0 {
        0int
    } else {
        spec_nonvisible_count(s.drop_last()) + if s.last().last_visible {
            0int
        } else {
            1int
        }
    }
}

/// The authoritative set of materialized tiles, keyed by tile index.
///
/// Membership here is the single source of truth for what is currently
/// loaded: insertion and removal go through [`MaterializedSet::add_tile`]
/// and [`MaterializedSet::remove_tile`] synchronously, so the set can never
/// drift from the loaded collection it mirrors.
#[derive(Clone, Debug)]
pub struct MaterializedSet {
    tiles: Vec<MaterializedTile>,
}

impl MaterializedSet {
    /// The entries, in insertion order, visible to specifications.
    pub closed spec fn entries(self) -> Seq<MaterializedTile> {
        self.tiles@
    }

    /// Entries are keyed by index: no two hold the same tile index.
    pub open spec fn wf(self) -> bool {
        forall|i: int, j: int|
            0 <= i < j < self.entries().len() ==> (#[trigger] self.entries()[i]).index != (
            #[trigger] self.entries()[j]).index
    }

    /// True when some entry holds the given tile index.
    pub open spec fn spec_contains(self, t: TileIndex) -> bool {
        exists|i: int| 0 <= i < self.entries().len() && (#[trigger] self.entries()[i]).index == t
    }

    /// True when some entry holds the given tile index and is not visible.
    pub open spec fn spec_has_nonvisible(self, t: TileIndex) -> bool {
        exists|i: int|
            0 <= i < self.entries().len() && (#[trigger] self.entries()[i]).index == t && !self.entries()[i].last_visible
    }

    /// An empty set.
    pub fn new() -> (r: MaterializedSet)
        ensures
            r.wf(),
            r.entries().len() == 0,
    {
        MaterializedSet { tiles: Vec::new() }
    }

    /// The number of materialized tiles.
    pub fn len(&self) -> (r: usize)
        ensures
            r == self.entries().len(),
    {
        self.tiles.len()
    }

    /// The entry at a position, for walking the set.
    pub fn entry_at(&self, i: usize) -> (r: MaterializedTile)
        requires
            i < self.entries().len(),
        ensures
            r == self.entries()[i as int],
    {
        self.tiles[i]
    }

    /// The position of the entry holding the given index, if any.
    fn index_of(&self, t: TileIndex) -> (r: Option<usize>)
        ensures
            match r {
                Some(i) => i < self.entries().len() && self.entries()[i as int].index == t,
                None => !self.spec_contains(t),
            },
    {
        let mut i: usize = 0;
        while i < self.tiles.len()
            invariant
                i <= self.entries().len(),
                forall|k: int| 0 <= k < i ==> (#[trigger] self.entries()[k]).index != t,
            decreases self.entries().len() - i,
        {
            if self.tiles[i].index == t {
                return Some(i);
            }
            i = i + 1;
        }
        None
    }

    /// True when the tile is materialized.
    pub fn contains(&self, t: TileIndex) -> (r: bool)
        ensures
            r == self.spec_contains(t),
    {
        self.index_of(t).is_some()
    }

    /// The entry for the tile, if it is materialized.
    pub fn get(&self, t: TileIndex) -> (r: Option<MaterializedTile>)
        ensures
            r is Some <==> self.spec_contains(t),
            r is Some ==> r->Some_0.index == t && self.entries().contains(r->Some_0),
    {
        match self.index_of(t) {
            Some(i) => {
                let m = self.tiles[i];
                proof {
                    assert(self.entries()[i as int] == m);
                }
                Some(m)
            },
            None => None,
        }
    }

    /// Inserts a tile that is not yet materialized. Returns false and leaves
    /// the set unchanged when the index is already present.
    pub fn add_tile(&mut self, m: MaterializedTile) -> (r: bool)
        requires
            old(self).wf(),
        ensures
            final(self).wf(),
            r == !old(self).spec_contains(m.index),
            r ==> final(self).entries() == old(self).entries().push(m),
            !r ==> *final(self) == *old(self),
            final(self).spec_contains(m.index),
    {
        match self.index_of(m.index) {
            Some(i) => {
                proof {
                    assert(self.entries()[i as int].index == m.index);
                }
                false
            },
            None => {
                let ghost pre = self.entries();
                self.tiles.push(m);
                proof {
                    let s = self.entries();
                    assert(s == pre.push(m));
                    assert forall|i: int, j: int| 0 <= i < j < s.len() implies (
                    #[trigger] s[i]).index != (#[trigger] s[j]).index by {
                        if j < s.len() - 1 {
                            assert(s[i] == pre[i] && s[j] == pre[j]);
                        } else {
                            assert(s[j] == m && s[i] == pre[i]);
                        }
                    }
                    assert(s[s.len() - 1] == m);
                }
                true
            },
        }
    }

    /// Removes the tile from the set, synchronously: from the moment this
    /// returns, the tile no longer exists for the tracker. Returns whether
    /// the tile had been present.
    pub fn remove_tile(&mut self, t: TileIndex) -> (r: bool)
        requires
            old(self).wf(),
        ensures
            final(self).wf(),
            r == old(self).spec_contains(t),
            !final(self).spec_contains(t),
            forall|m: MaterializedTile| #[trigger]
                final(self).entries().contains(m) <==> (old(self).entries().contains(m) && m.index
                    != t),
            final(self).entries().len() == if r {
                old(self).entries().len() - 1
            } else {
                old(self).entries().len() as int
            },
            !r ==> *final(self) == *old(self),
    {
        match self.index_of(t) {
            Some(i) => {
                let ghost pre = self.entries();
                let _ = self.tiles.swap_remove(i);
                proof {
                    lemma_swap_remove_entries(pre, i as int);
                    assert forall|m: MaterializedTile| #[trigger]
                        final(self).entries().contains(m) <==> (pre.contains(m) && m.index != t) by {
                        lemma_swap_remove_entries(pre, i as int);
                    }
                    assert(!final(self).spec_contains(t)) by {
                        if final(self).spec_contains(t) {
                            let k = choose|k: int|
                                0 <= k < final(self).entries().len() && final(self).entries()[
                                k].index == t;
                            assert(final(self).entries().contains(final(self).entries()[k]));
                        }
                    }
                }
                true
            },
            None => {
                proof {
                    assert forall|m: MaterializedTile| #[trigger]
                        self.entries().contains(m) <==> (self.entries().contains(m) && m.index != t)
                        by {
                        if self.entries().contains(m) && m.index == t {
                            let k = choose|k: int|
                                0 <= k < self.entries().len() && self.entries()[k] == m;
                            assert(self.entries()[k].index == t);
                        }
                    }
                }
                false
            },
        }
    }

    /// Updates the visibility flag of a materialized tile. Returns whether
    /// the tile was present.
    pub fn set_last_visible(&mut self, t: TileIndex, visible: bool) -> (r: bool)
        requires
            old(self).wf(),
        ensures
            final(self).wf(),
            r == old(self).spec_contains(t),
            !r ==> *final(self) == *old(self),
            r ==> exists|i: int|
                {
                    &&& 0 <= i < old(self).entries().len()
                    &&& (#[trigger] old(self).entries()[i]).index == t
                    &&& final(self).entries() == old(self).entries().update(
                        i,
                        MaterializedTile {
                            index: old(self).entries()[i].index,
                            bounds: old(self).entries()[i].bounds,
                            last_visible: visible,
                        },
                    )
                },
    {
        match self.index_of(t) {
            Some(i) => {
                let old_m = self.tiles[i];
                self.tiles[i] = MaterializedTile {
                    index: old_m.index,
                    bounds: old_m.bounds,
                    last_visible: visible,
                };
                proof {
                    let s = final(self).entries();
                    assert(forall|a: int| 0 <= a < s.len() && a != i ==> s[a] == old(
                        self,
                    ).entries()[a]);
                    assert(s[i as int].index == old(self).entries()[i as int].index);
                }
                true
            },
            None => false,
        }
    }
}

/// What `swap_remove` does to a sequence with pairwise distinct indices:
/// the entry at the removed position is gone, every other entry stays, and
/// the indices stay pairwise distinct.
proof fn lemma_swap_remove_entries(s: Seq<MaterializedTile>, i: int)
    requires
        0 <= i < s.len(),
        forall|a: int, b: int| 0 <= a < b < s.len() ==> (#[trigger] s[a]).index != (
        #[trigger] s[b]).index,
    ensures
        ({
            let n = s.update(i, s.last()).drop_last();
            &&& n.len() == s.len() - 1
            &&& forall|m: MaterializedTile| #[trigger]
                n.contains(m) <==> (s.contains(m) && m.index != s[i].index)
            &&& forall|a: int, b: int| 0 <= a < b < n.len() ==> (#[trigger] n[a]).index != (
            #[trigger] n[b]).index
        }),
{
    let n = s.update(i, s.last()).drop_last();
    assert forall|m: MaterializedTile| #[trigger]
        n.contains(m) <==> (s.contains(m) && m.index != s[i].index) by {
        if n.contains(m) {
            let k = choose|k: int| 0 <= k < n.len() && n[k] == m;
            if k == i {
                assert(s[s.len() - 1] == m);
                assert(s.contains(m));
            } else {
                assert(s[k] == m);
                assert(s.contains(m));
            }
        }
        if s.contains(m) && m.index != s[i].index {
            let k = choose|k: int| 0 <= k < s.len() && s[k] == m;
            if k == s.len() - 1 {
                if i < s.len() - 1 {
                    assert(n[i] == m);
                } else {
                    assert(false);
                }
            } else {
                assert(n[k] == m);
            }
        }
    }
    assert forall|a: int, b: int| 0 <= a < b < n.len() implies (#[trigger] n[a]).index != (
    #[trigger] n[b]).index by {
        let sa = if a == i {
            s.len() - 1
        } else {
            a
        };
        let sb = if b == i {
            s.len() - 1
        } else {
            b
        };
        assert(n[a] == s[sa] && n[b] == s[sb]);
    }
}

/// What `swap_remove` does to a sequence of pairwise distinct tile indices:
/// the element at the removed position is gone, every other element stays,
/// and the elements stay pairwise distinct.
proof fn lemma_swap_remove_distinct(s: Seq<TileIndex>, i: int)
    requires
        0 <= i < s.len(),
        forall|a: int, b: int| 0 <= a < b < s.len() ==> s[a] != s[b],
    ensures
        ({
            let n = s.update(i, s.last()).drop_last();
            &&& n.len() == s.len() - 1
            &&& forall|t: TileIndex| #[trigger] n.contains(t) <==> (s.contains(t) && t != s[i])
            &&& forall|a: int, b: int| 0 <= a < b < n.len() ==> n[a] != n[b]
        }),
{
    let n = s.update(i, s.last()).drop_last();
    assert forall|t: TileIndex| #[trigger] n.contains(t) <==> (s.contains(t) && t != s[i]) by {
        if n.contains(t) {
            let k = choose|k: int| 0 <= k < n.len() && n[k] == t;
            if k == i {
                assert(s[s.len() - 1] == t);
                assert(s.contains(t));
            } else {
                assert(s[k] == t);
                assert(s.contains(t));
            }
        }
        if s.contains(t) && t != s[i] {
            let k = choose|k: int| 0 <= k < s.len() && s[k] == t;
            if k == s.len() - 1 {
                if i < s.len() - 1 {
                    assert(n[i] == t);
                } else {
                    assert(false);
                }
            } else {
                assert(n[k] == t);
            }
        }
    }
    assert forall|a: int, b: int| 0 <= a < b < n.len() implies n[a] != n[b] by {
        let sa = if a == i {
            s.len() - 1
        } else {
            a
        };
        let sb = if b == i {
            s.len() - 1
        } else {
            b
        };
        assert(n[a] == s[sa] && n[b] == s[sb]);
    }
}

/// The position of a farthest element of a nonempty pool under the eviction
/// distance metric.
fn find_farthest(pool: &Vec<TileIndex>, cx: u32, cy: u32, czoom: u8) -> (best: usize)
    requires
        pool@.len() > 0,
    ensures
        best < pool@.len(),
        forall|j: int|
            0 <= j < pool@.len() ==> spec_tile_distance(#[trigger] pool@[j], cx as int, cy as int,
                czoom as int) <= spec_tile_distance(pool@[best as int], cx as int, cy as int,
                czoom as int),
{
    let mut best: usize = 0;
    let mut best_d: u64 = tile_distance(pool[0], cx, cy, czoom);
    let mut j: usize = 1;
    while j < pool.len()
        invariant
            best < j <= pool@.len(),
            best_d as int == spec_tile_distance(pool@[best as int], cx as int, cy as int,
                czoom as int),
            forall|a: int|
                0 <= a < j ==> spec_tile_distance(#[trigger] pool@[a], cx as int, cy as int,
                    czoom as int) <= best_d as int,
        decreases pool@.len() - j,
    {
        let d = tile_distance(pool[j], cx, cy, czoom);
        if d > best_d {
            best = j;
            best_d = d;
        }
        j = j + 1;
    }
    best
}

impl MaterializedSet {
    /// The eviction pass: when more than `cap` materialized tiles are not
    /// visible, selects exactly the excess, choosing the tiles farthest from
    /// the viewport center tile by the combined grid/zoom distance metric.
    /// Ties break arbitrarily, but every selected tile is at least as far as
    /// every non-visible tile that stays. Visible tiles are never selected.
    ///
    /// The caller removes each returned tile with
    /// [`MaterializedSet::remove_tile`] together with its render
    /// representation, keeping the set authoritative.
    pub fn select_evictions(&self, center_x: u32, center_y: u32, center_zoom: u8, cap: usize) -> (r:
        Vec<TileIndex>)
        requires
            self.wf(),
        ensures
            r@.len() == if spec_nonvisible_count(self.entries()) > cap {
                spec_nonvisible_count(self.entries()) - cap
            } else {
                0int
            },
            forall|i: int| 0 <= i < r@.len() ==> self.spec_has_nonvisible(#[trigger] r@[i]),
            forall|i: int, j: int| 0 <= i < j < r@.len() ==> r@[i] != r@[j],
            forall|i: int, j: int|
                0 <= i < r@.len() && 0 <= j < self.entries().len() && !(
                #[trigger] self.entries()[j]).last_visible && !r@.contains(self.entries()[j].index)
                    ==> spec_tile_distance(self.entries()[j].index, center_x as int,
                    center_y as int, center_zoom as int) <= spec_tile_distance(#[trigger] r@[i],
                    center_x as int, center_y as int, center_zoom as int),
    {
        let ghost whole = self.entries();
        // gather the indices of every non-visible materialized tile
        let mut pool: Vec<TileIndex> = Vec::new();
        let mut idx: usize = 0;
        while idx < self.tiles.len()
            invariant
                self.wf(),
                idx <= self.entries().len(),
                pool@.len() == spec_nonvisible_count(self.entries().take(idx as int)),
                forall|t: TileIndex| #[trigger]
                    pool@.contains(t) <==> exists|k: int|
                        0 <= k < idx && (#[trigger] self.entries()[k]).index == t
                            && !self.entries()[k].last_visible,
                forall|a: int, b: int| 0 <= a < b < pool@.len() ==> pool@[a] != pool@[b],
            decreases self.entries().len() - idx,
        {
            let m = self.tiles[idx];
            let ghost pre = pool@;
            if !m.last_visible {
                proof {
                    assert(!pre.contains(m.index)) by {
                        if pre.contains(m.index) {
                            let k = choose|k: int|
                                0 <= k < idx && (#[trigger] self.entries()[k]).index == m.index
                                    && !self.entries()[k].last_visible;
                            assert(self.entries()[k].index == self.entries()[idx as int].index);
                        }
                    }
                }
                pool.push(m.index);
            }
            proof {
                assert(self.entries().take(idx as int + 1).drop_last() =~= self.entries().take(
                    idx as int));
                assert(self.entries().take(idx as int + 1).last() == self.entries()[idx as int]);
                assert forall|t: TileIndex| #[trigger]
                    pool@.contains(t) <==> exists|k: int|
                        0 <= k < idx + 1 && (#[trigger] self.entries()[k]).index == t
                            && !self.entries()[k].last_visible by {
                    if pool@.contains(t) {
                        if pre.contains(t) {
                            let k = choose|k: int|
                                0 <= k < idx && (#[trigger] self.entries()[k]).index == t
                                    && !self.entries()[k].last_visible;
                            assert(0 <= k < idx + 1 && self.entries()[k].index == t
                                && !self.entries()[k].last_visible);
                        } else {
                            assert(!m.last_visible && t == m.index);
                            assert(0 <= idx < idx + 1 && self.entries()[idx as int].index == t
                                && !self.entries()[idx as int].last_visible);
                        }
                    } else {
                        if exists|k: int|
                            0 <= k < idx + 1 && (#[trigger] self.entries()[k]).index == t
                                && !self.entries()[k].last_visible {
                            let k = choose|k: int|
                                0 <= k < idx + 1 && (#[trigger] self.entries()[k]).index == t
                                    && !self.entries()[k].last_visible;
                            if k < idx {
                                assert(pre.contains(t));
                                if !m.last_visible {
                                    assert(pool@ == pre.push(m.index));
                                    let kk = choose|kk: int| 0 <= kk < pre.len() && pre[kk] == t;
                                    assert(pool@[kk] == t);
                                }
                                assert(pool@.contains(t));
                            } else {
                                assert(!m.last_visible && t == m.index);
                                assert(pool@[pool@.len() - 1] == t);
                            }
                        }
                    }
                }
            }
            idx = idx + 1;
        }
        proof {
            assert(self.entries().take(self.entries().len() as int) =~= self.entries());
        }
        if pool.len() <= cap {
            let r: Vec<TileIndex> = Vec::new();
            return r;
        }
        let excess: usize = pool.len() - cap;
        let ghost m_total = pool@.len() as int;
        let mut result: Vec<TileIndex> = Vec::new();
        let mut step: usize = 0;
        while step < excess
            invariant
                self.wf(),
                step <= excess,
                excess == m_total - cap,
                result@.len() == step,
                pool@.len() + result@.len() == m_total,
                forall|t: TileIndex| #[trigger]
                    pool@.contains(t) ==> self.spec_has_nonvisible(t) && !result@.contains(t),
                forall|t: TileIndex| #[trigger] result@.contains(t) ==> self.spec_has_nonvisible(t),
                forall|t: TileIndex|
                    self.spec_has_nonvisible(t) ==> pool@.contains(t) || result@.contains(t),
                forall|a: int, b: int| 0 <= a < b < pool@.len() ==> pool@[a] != pool@[b],
                forall|a: int, b: int| 0 <= a < b < result@.len() ==> result@[a] != result@[b],
                forall|i: int, j: int|
                    0 <= i < result@.len() && 0 <= j < pool@.len() ==> spec_tile_distance(
                        #[trigger] pool@[j], center_x as int, center_y as int, center_zoom as int)
                        <= spec_tile_distance(#[trigger] result@[i], center_x as int,
                        center_y as int, center_zoom as int),
            decreases excess - step,
        {
            let imax = find_farthest(&pool, center_x, center_y, center_zoom);
            let ghost pre_pool = pool@;
            let ghost pre_result = result@;
            let e = pool.swap_remove(imax);
            proof {
                lemma_swap_remove_distinct(pre_pool, imax as int);
            }
            result.push(e);
            proof {
                assert(pre_pool.contains(e)) by {
                    assert(pre_pool[imax as int] == e);
                }
                assert(result@ == pre_result.push(e));
                assert forall|t: TileIndex| #[trigger] result@.contains(t) implies
                    self.spec_has_nonvisible(t) by {
                    if pre_result.contains(t) {
                    } else {
                        assert(t == e);
                    }
                }
                assert forall|t: TileIndex| #[trigger]
                    pool@.contains(t) implies self.spec_has_nonvisible(t) && !result@.contains(t)
                    by {
                    assert(pre_pool.contains(t) && t != e);
                    if result@.contains(t) {
                        if pre_result.contains(t) {
                            assert(!pre_pool.contains(t));
                        } else {
                            assert(t == e);
                        }
                    }
                }
                assert forall|t: TileIndex|
                    self.spec_has_nonvisible(t) implies pool@.contains(t) || result@.contains(t)
                    by {
                    if pre_pool.contains(t) {
                        if t == e {
                            assert(result@[result@.len() - 1] == e);
                        } else {
                            assert(pool@.contains(t));
                        }
                    } else {
                        assert(pre_result.contains(t));
                        let k = choose|k: int| 0 <= k < pre_result.len() && pre_result[k] == t;
                        assert(result@[k] == t);
                    }
                }
                assert forall|a: int, b: int| 0 <= a < b < result@.len() implies result@[a]
                    != result@[b] by {
                    if b < result@.len() - 1 {
                        assert(pre_result[a] != pre_result[b]);
                    } else {
                        assert(result@[b] == e && result@[a] == pre_result[a]);
                        assert(pre_result.contains(pre_result[a]));
                        assert(!pre_pool.contains(pre_result[a]));
                    }
                }
                assert forall|i: int, j: int|
                    0 <= i < result@.len() && 0 <= j < pool@.len() implies spec_tile_distance(
                        #[trigger] pool@[j], center_x as int, center_y as int, center_zoom as int)
                        <= spec_tile_distance(#[trigger] result@[i], center_x as int,
                        center_y as int, center_zoom as int) by {
                    assert(pool@.contains(pool@[j]));
                    assert(pre_pool.contains(pool@[j]));
                    let k = choose|k: int| 0 <= k < pre_pool.len() && pre_pool[k] == pool@[j];
                    if i < result@.len() - 1 {
                        assert(result@[i] == pre_result[i]);
                    } else {
                        assert(result@[i] == e && e == pre_pool[imax as int]);
                    }
                }
            }
            step = step + 1;
        }
        proof {
            assert forall|i: int| 0 <= i < result@.len() implies self.spec_has_nonvisible(
                #[trigger] result@[i],
            ) by {
                assert(result@.contains(result@[i]));
            }
            assert forall|i: int, j: int|
                0 <= i < result@.len() && 0 <= j < self.entries().len() && !(
                #[trigger] self.entries()[j]).last_visible && !result@.contains(
                self.entries()[j].index) implies spec_tile_distance(self.entries()[j].index,
                center_x as int, center_y as int, center_zoom as int) <= spec_tile_distance(
                #[trigger] result@[i], center_x as int, center_y as int, center_zoom as int) by {
                let t = self.entries()[j].index;
                assert(self.spec_has_nonvisible(t)) by {
                    assert(0 <= j < self.entries().len() && self.entries()[j].index == t
                        && !self.entries()[j].last_visible);
                }
                assert(pool@.contains(t));
                let k = choose|k: int| 0 <= k < pool@.len() && pool@[k] == t;
            }
        }
        result
    }
}

/// The tiles that must still be requested to cover the bounds: the covering
/// set minus the tiles already materialized, each exactly once, in grid
/// order.
pub fn tiles_to_request(b: &TileBounds, existing: &MaterializedSet) -> (r: Vec<TileIndex>)
    requires
        b.wf(),
        existing.wf(),
    ensures
        forall|t: TileIndex| #[trigger]
            r@.contains(t) <==> (spec_in_bounds(t, *b) && !existing.spec_contains(t)),
        forall|i: int, j: int| 0 <= i < j < r@.len() ==> r@[i] != r@[j],
{
    let all = tiles_in_bounds(b);
    let mut out: Vec<TileIndex> = Vec::new();
    let mut i: usize = 0;
    while i < all.len()
        invariant
            existing.wf(),
            i <= all@.len(),
            forall|t: TileIndex| #[trigger] all@.contains(t) <==> spec_in_bounds(t, *b),
            forall|a: int, bb: int| 0 <= a < bb < all@.len() ==> all@[a] != all@[bb],
            forall|t: TileIndex| #[trigger]
                out@.contains(t) <==> (all@.take(i as int).contains(t) && !existing.spec_contains(
                t)),
            forall|a: int, bb: int| 0 <= a < bb < out@.len() ==> out@[a] != out@[bb],
        decreases all@.len() - i,
    {
        let t = all[i];
        let ghost pre = out@;
        if !existing.contains(t) {
            proof {
                assert(!pre.contains(t)) by {
                    if pre.contains(t) {
                        assert(all@.take(i as int).contains(t));
                        let k = choose|k: int| 0 <= k < i && all@.take(i as int)[k] == t;
                        assert(all@[k] == t && all@[i as int] == t);
                    }
                }
            }
            out.push(t);
        }
        proof {
            assert forall|u: TileIndex| #[trigger]
                out@.contains(u) <==> (all@.take(i as int + 1).contains(u)
                    && !existing.spec_contains(u)) by {
                let taken = all@.take(i as int + 1);
                assert(taken.drop_last() =~= all@.take(i as int));
                assert(taken.last() == t);
                if out@.contains(u) {
                    if pre.contains(u) {
                        let k = choose|k: int| 0 <= k < i && all@.take(i as int)[k] == u;
                        assert(taken[k] == u);
                    } else {
                        assert(u == t);
                        assert(taken[i as int] == u);
                    }
                } else {
                    if taken.contains(u) && !existing.spec_contains(u) {
                        let k = choose|k: int| 0 <= k <= i && taken[k] == u;
                        if k < i {
                            assert(all@.take(i as int)[k] == u);
                            assert(pre.contains(u));
                            let kk = choose|kk: int| 0 <= kk < pre.len() && pre[kk] == u;
                            assert(out@[kk] == u);
                            assert(out@.contains(u));
                        } else {
                            assert(u == t);
                            assert(out@[out@.len() - 1] == t);
                        }
                    }
                }
            }
        }
        i = i + 1;
    }
    proof {
        assert(all@.take(all@.len() as int) =~= all@);
    }
    out
}

} // verus!
