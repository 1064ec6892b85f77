//! Shortest paths on the tile map, with a least-recently-used result cache.
use vstd::prelude::*;
use crate::world::{GameMap, TileKind};
use lru::LruCache;
use std::num::NonZeroUsize;

verus! {

/// A path from start to goal, both included, with its cost; `None` when no
/// path was found.
pub type PathResult = Option<(Vec<(i32, i32)>, i32)>;

/// Cache key: `(start_x, start_y, goal_x, goal_y)`.
pub type CacheKey = (i32, i32, i32, i32);

/// Least-recently-used cache of path results.
pub type PathCache = LruCache<CacheKey, PathResult, std::collections::hash_map::RandomState>;

/// A path result with its cells as a sequence.
pub type PathView = Option<(Seq<(i32, i32)>, i32)>;

pub open spec fn path_view(r: PathResult) -> PathView {
    match r {
        Some((p, c)) => Some((p@, c)),
        None => None,
    }
}

/// One path query: from `start` to `goal`.
#[derive(Debug, Clone, Copy, PartialEq, Eq, Hash)]
pub struct PathRequest {
    pub start: (i32, i32),
    pub goal: (i32, i32),
}

/// `b` is a floor cell next to `a` (no diagonals).
pub open spec fn is_step(map: GameMap, a: (i32, i32), b: (i32, i32)) -> bool {
    &&& (a.0 - b.0) * (a.0 - b.0) + (a.1 - b.1) * (a.1 - b.1) == 1
    &&& map.tile_at(b.0 as int, b.1 as int) == Some(TileKind::Floor)
}

/// `p` walks from `start` to `goal` over floor, one cell at a time, and
/// `cost` counts its steps.
pub open spec fn valid_path(map: GameMap, p: Seq<(i32, i32)>, cost: int, start: (i32, i32), goal: (i32, i32)) -> bool {
    &&& p.len() >= 1
    &&& p[0] == start
    &&& p.last() == goal
    &&& cost == p.len() - 1
    &&& forall|i: int| 0 <= i < p.len() - 1 ==> is_step(map, #[trigger] p[i], p[i + 1])
}

fn push_if_walkable(map: &GameMap, n: &mut Vec<((i32, i32), i32)>, x: i32, y: i32, dx: i64, dy: i64)
    requires
        map.wf(),
        (dx == 0 && (dy == 1 || dy == -1)) || (dy == 0 && (dx == 1 || dx == -1)),
        forall|i: int| 0 <= i < old(n)@.len() ==> is_step(*map, (x, y), (#[trigger] old(n)@[i]).0) && old(n)@[i].1 == 1,
    ensures
        forall|i: int| 0 <= i < final(n)@.len() ==> is_step(*map, (x, y), (#[trigger] final(n)@[i]).0) && final(n)@[i].1 == 1,
{
    let nx = x as i64 + dx;
    let ny = y as i64 + dy;
    if -0x8000_0000 <= nx && nx <= 0x7fff_ffff && -0x8000_0000 <= ny && ny <= 0x7fff_ffff {
        if map.is_walkable(nx as i32, ny as i32) {
            let ghost a = (x, y);
            let ghost b = (nx as i32, ny as i32);
            assert((a.0 - b.0) * (a.0 - b.0) + (a.1 - b.1) * (a.1 - b.1) == 1) by (nonlinear_arith)
                requires (a.0 - b.0 == 0 && (a.1 - b.1 == 1 || a.1 - b.1 == -1)) || (a.1 - b.1 == 0 && (a.0 - b.0 == 1 || a.0 - b.0 == -1));
            n.push(((nx as i32, ny as i32), 1));
        }
    }
}

/// Walkable four-neighbours of `(x, y)`, right, left, down, up, each with
/// cost 1.
pub fn neighbors(map: &GameMap, x: i32, y: i32) -> (r: Vec<((i32, i32), i32)>)
    requires
        map.wf(),
    ensures
        forall|i: int| 0 <= i < r@.len() ==> is_step(*map, (x, y), (#[trigger] r@[i]).0) && r@[i].1 == 1,
{
    let mut n: Vec<((i32, i32), i32)> = Vec::new();
    push_if_walkable(map, &mut n, x, y, 1, 0);
    push_if_walkable(map, &mut n, x, y, -1, 0);
    push_if_walkable(map, &mut n, x, y, 0, 1);
    push_if_walkable(map, &mut n, x, y, 0, -1);
    n
}

/// Manhattan distance to the goal, capped at 2^30 so that cost plus estimate
/// stays in `i32`; never more than the true remaining cost.
pub fn distance_estimate(p: (i32, i32), goal: (i32, i32)) -> (r: i32)
    ensures
        0 <= r <= 0x4000_0000,
        r <= (if p.0 >= goal.0 { p.0 - goal.0 } else { goal.0 - p.0 }) + (if p.1 >= goal.1 { p.1 - goal.1 } else { goal.1 - p.1 }),
{
    let dx: i64 = if p.0 as i64 >= goal.0 as i64 { p.0 as i64 - goal.0 as i64 } else { goal.0 as i64 - p.0 as i64 };
    let dy: i64 = if p.1 as i64 >= goal.1 as i64 { p.1 as i64 - goal.1 as i64 } else { goal.1 as i64 - p.1 as i64 };
    let d = dx + dy;
    if d > 0x4000_0000 { 0x4000_0000 } else { d as i32 }
}

/// Whether the search has reached the goal.
pub fn reached(p: (i32, i32), goal: (i32, i32)) -> (r: bool)
    ensures
        r == (p == goal),
{
    p.0 == goal.0 && p.1 == goal.1
}

/// Relies on `pathfinding::directed::astar::astar`: it returns a shortest
/// path, and `None` only when there is none. A path starts at `start`,
/// follows the successors it was given (here the walkable four-neighbours,
/// cost 1 each), ends on a node that satisfies the success test (here
/// `goal`), and comes with the sum of its step costs. The estimate given to
/// it never exceeds the true remaining cost.
#[verifier::external_body]
fn astar_search(map: &GameMap, start: (i32, i32), goal: (i32, i32)) -> (r: PathResult)
    requires
        map.wf(),
        map.width as int * map.height as int <= 0x2000_0000,
    ensures
        search_result(*map, path_view(r), start, goal),
{
    pathfinding::directed::astar::astar(
        &start,
        |&(x, y)| neighbors(map, x, y),
        |&p| distance_estimate(p, goal),
        |&p| reached(p, goal),
    )
}

/// No walk over floor leads from `start` to `goal`.
pub open spec fn no_path(map: GameMap, start: (i32, i32), goal: (i32, i32)) -> bool {
    forall|q: Seq<(i32, i32)>| !#[trigger] valid_path(map, q, q.len() - 1, start, goal)
}

/// No walk from `start` to `goal` takes fewer than `c` steps.
pub open spec fn shortest(map: GameMap, c: int, start: (i32, i32), goal: (i32, i32)) -> bool {
    forall|q: Seq<(i32, i32)>| #[trigger] valid_path(map, q, q.len() - 1, start, goal) ==> c <= q.len() - 1
}

/// What a search must return: a shortest path, or `None` when there is no
/// path at all.
pub open spec fn search_result(map: GameMap, r: PathView, start: (i32, i32), goal: (i32, i32)) -> bool {
    match r {
        Some((p, c)) => valid_path(map, p, c as int, start, goal) && shortest(map, c as int, start, goal),
        None => no_path(map, start, goal),
    }
}

/// A cached result for key `k` runs from the key's start to its goal, and
/// its cost counts its steps.
pub open spec fn ends_right(k: CacheKey, v: PathView) -> bool {
    v matches Some((p, c)) ==> p.len() >= 1 && p[0] == (k.0, k.1) && p.last() == (k.2, k.3) && c == p.len() - 1
}

pub open spec fn key_of(r: PathRequest) -> CacheKey {
    (r.start.0, r.start.1, r.goal.0, r.goal.1)
}

/// A shortest path from `start` to `goal` over floor tiles, moving in four
/// directions at cost 1 per step; `None` when there is none. Maps are limited
/// to 2^29 cells so that costs stay in `i32`.
pub fn astar_path(map: &GameMap, start: (i32, i32), goal: (i32, i32)) -> (r: PathResult)
    requires
        map.wf(),
        map.width as int * map.height as int <= 0x2000_0000,
    ensures
        search_result(*map, path_view(r), start, goal),
{
    astar_search(map, start, goal)
}

#[verifier::external_type_specification]
#[verifier::external_body]
#[verifier::reject_recursive_types(K)]
#[verifier::reject_recursive_types(V)]
#[verifier::reject_recursive_types(S)]
pub struct ExLruCache<K, V, S>(LruCache<K, V, S>);

/// The entries a path cache holds.
pub uninterp spec fn cached_paths(c: PathCache) -> Map<CacheKey, PathView>;

/// The number of entries a path cache was made to hold.
pub uninterp spec fn cache_capacity(c: PathCache) -> nat;

/// Relies on `lru::LruCache::with_hasher`: an empty cache of the given
/// capacity.
#[verifier::external_body]
fn new_cache(cap: usize) -> (r: PathCache)
    requires
        cap >= 1,
    ensures
        cached_paths(r).dom() == Set::<CacheKey>::empty(),
        cache_capacity(r) == cap,
{
    LruCache::with_hasher(NonZeroUsize::new(cap).unwrap(), std::collections::hash_map::RandomState::new())
}

/// Relies on `lru::LruCache::get`: the entry of `k` if there is one. It only
/// refreshes the entry's recency, so the entries stay as they are.
#[verifier::external_body]
fn cache_get(c: &mut PathCache, k: CacheKey) -> (r: Option<PathResult>)
    ensures
        cached_paths(*final(c)) == cached_paths(*old(c)),
        cache_capacity(*final(c)) == cache_capacity(*old(c)),
        r is Some <==> cached_paths(*old(c)).contains_key(k),
        r matches Some(v) ==> path_view(v) == cached_paths(*old(c))[k],
{
    c.get(&k).cloned()
}

/// Relies on `lru::LruCache::put`: afterwards `k` holds `v`; when `k` was
/// new and the cache full, one other entry (the least recently used) is
/// evicted, and otherwise every other entry stays.
#[verifier::external_body]
fn cache_put(c: &mut PathCache, k: CacheKey, v: PathResult)
    ensures
        cache_capacity(*final(c)) == cache_capacity(*old(c)),
        cached_paths(*final(c)).contains_key(k),
        cached_paths(*final(c))[k] == path_view(v),
        forall|j: CacheKey| j != k && #[trigger] cached_paths(*final(c)).contains_key(j) ==>
            cached_paths(*old(c)).contains_key(j) && cached_paths(*final(c))[j] == cached_paths(*old(c))[j],
{
    c.put(k, v);
}

/// Path queries answered through a cache, with hit and miss counts.
#[derive(Debug)]
pub struct PathService {
    cache: PathCache,
    hits: usize,
    misses: usize,
}

impl PathService {
    pub closed spec fn hit_count(&self) -> nat {
        self.hits as nat
    }

    pub closed spec fn miss_count(&self) -> nat {
        self.misses as nat
    }

    /// The paths the cache holds.
    pub closed spec fn entries(&self) -> Map<CacheKey, PathView> {
        cached_paths(self.cache)
    }

    pub closed spec fn capacity(&self) -> nat {
        cache_capacity(self.cache)
    }

    /// Every cached result runs from its key's start to its key's goal.
    pub open spec fn wf(&self) -> bool {
        forall|k: CacheKey| #[trigger] self.entries().contains_key(k) ==> ends_right(k, self.entries()[k])
    }

    /// A service whose cache holds up to `capacity` paths (at least one).
    pub fn new(capacity: usize) -> (r: PathService)
        ensures
            r.hit_count() == 0,
            r.miss_count() == 0,
            r.entries().dom() == Set::<CacheKey>::empty(),
            r.wf(),
            r.capacity() == if capacity < 1 { 1 } else { capacity },
    {
        let cap = if capacity < 1 { 1 } else { capacity };
        PathService { cache: new_cache(cap), hits: 0, misses: 0 }
    }

    /// The path from `start` to `goal`: from the cache when it holds one (a
    /// hit), else searched, stored in the cache, and counted as a miss. Other
    /// entries are kept or evicted, never changed.
    pub fn get(&mut self, map: &GameMap, start: (i32, i32), goal: (i32, i32)) -> (r: PathResult)
        requires
            old(self).wf(),
            map.wf(),
            map.width as int * map.height as int <= 0x2000_0000,
            old(self).hit_count() < usize::MAX,
            old(self).miss_count() < usize::MAX,
        ensures
            final(self).wf(),
            final(self).capacity() == old(self).capacity(),
            ends_right((start.0, start.1, goal.0, goal.1), path_view(r)),
            forall|k: CacheKey| k != (start.0, start.1, goal.0, goal.1) && #[trigger] final(self).entries().contains_key(k)
                ==> old(self).entries().contains_key(k) && final(self).entries()[k] == old(self).entries()[k],
            old(self).entries().contains_key((start.0, start.1, goal.0, goal.1)) ==> {
                &&& final(self).hit_count() == old(self).hit_count() + 1
                &&& final(self).miss_count() == old(self).miss_count()
                &&& path_view(r) == old(self).entries()[(start.0, start.1, goal.0, goal.1)]
                &&& final(self).entries() == old(self).entries()
            },
            !old(self).entries().contains_key((start.0, start.1, goal.0, goal.1)) ==> {
                &&& final(self).hit_count() == old(self).hit_count()
                &&& final(self).miss_count() == old(self).miss_count() + 1
                &&& search_result(*map, path_view(r), start, goal)
                &&& final(self).entries().contains_key((start.0, start.1, goal.0, goal.1))
                &&& final(self).entries()[(start.0, start.1, goal.0, goal.1)] == path_view(r)
            },
    {
        let key: CacheKey = (start.0, start.1, goal.0, goal.1);
        let ghost before = self.entries();
        match cache_get(&mut self.cache, key) {
            Some(v) => {
                self.hits = self.hits + 1;
                assert(before.contains_key(key));
                v
            },
            None => {
                self.misses = self.misses + 1;
                let v = astar_path(map, start, goal);
                let stored = clone_result(&v);
                cache_put(&mut self.cache, key, stored);
                proof {
                    assert(ends_right(key, path_view(v)));
                    assert forall|k: CacheKey| #[trigger] self.entries().contains_key(k) implies ends_right(k, self.entries()[k]) by {
                        if k != key {
                            assert(before.contains_key(k));
                        }
                    }
                }
                v
            },
        }
    }

    /// Answers each request in order through `get`. Every path found runs
    /// from its request's start to its goal; a request whose key was neither
    /// cached before nor asked for earlier in the batch is searched, so it
    /// gives a shortest path, or `None` only when there is no path.
    pub fn batch(&mut self, map: &GameMap, reqs: &[PathRequest]) -> (r: Vec<PathResult>)
        requires
            old(self).wf(),
            map.wf(),
            map.width as int * map.height as int <= 0x2000_0000,
            old(self).hit_count() + reqs@.len() < usize::MAX,
            old(self).miss_count() + reqs@.len() < usize::MAX,
        ensures
            final(self).wf(),
            r@.len() == reqs@.len(),
            final(self).hit_count() + final(self).miss_count() == old(self).hit_count() + old(self).miss_count() + reqs@.len(),
            final(self).capacity() == old(self).capacity(),
            forall|i: int| 0 <= i < r@.len() ==> ends_right(key_of(reqs@[i]), path_view(#[trigger] r@[i])),
            forall|i: int| 0 <= i < r@.len() && !old(self).entries().contains_key(key_of(reqs@[i]))
                && (forall|j: int| 0 <= j < i ==> key_of(reqs@[j]) != key_of(reqs@[i]))
                ==> search_result(*map, path_view(#[trigger] r@[i]), reqs@[i].start, reqs@[i].goal),
    {
        let mut out: Vec<PathResult> = Vec::new();
        let mut i: usize = 0;
        while i < reqs.len()
            invariant
                0 <= i <= reqs@.len(),
                self.wf(),
                map.wf(),
                map.width as int * map.height as int <= 0x2000_0000,
                out@.len() == i,
                self.hit_count() + self.miss_count() == old(self).hit_count() + old(self).miss_count() + i,
                self.hit_count() <= old(self).hit_count() + i,
                self.miss_count() <= old(self).miss_count() + i,
                old(self).hit_count() + reqs@.len() < usize::MAX,
                old(self).miss_count() + reqs@.len() < usize::MAX,
                self.capacity() == old(self).capacity(),
                forall|k: CacheKey| #[trigger] self.entries().contains_key(k)
                    ==> old(self).entries().contains_key(k) || exists|j: int| 0 <= j < i && key_of(reqs@[j]) == k,
                forall|k: int| 0 <= k < i ==> ends_right(key_of(reqs@[k]), path_view(#[trigger] out@[k])),
                forall|k: int| 0 <= k < i && !old(self).entries().contains_key(key_of(reqs@[k]))
                    && (forall|j: int| 0 <= j < k ==> key_of(reqs@[j]) != key_of(reqs@[k]))
                    ==> search_result(*map, path_view(#[trigger] out@[k]), reqs@[k].start, reqs@[k].goal),
            decreases reqs@.len() - i,
        {
            let r = reqs[i];
            let ghost before = self.entries();
            let v = self.get(map, r.start, r.goal);
            proof {
                let key = key_of(reqs@[i as int]);
                if !old(self).entries().contains_key(key) && (forall|j: int| 0 <= j < i ==> key_of(reqs@[j]) != key) {
                    assert(!before.contains_key(key));
                }
                assert forall|k: CacheKey| #[trigger] self.entries().contains_key(k)
                    implies old(self).entries().contains_key(k) || exists|j: int| 0 <= j < i + 1 && key_of(reqs@[j]) == k by {
                    if k != key {
                        assert(before.contains_key(k));
                    }
                }
            }
            out.push(v);
            i += 1;
        }
        out
    }

    /// `(hits, misses)`.
    pub fn stats(&self) -> (r: (usize, usize))
        ensures
            r.0 == self.hit_count(),
            r.1 == self.miss_count(),
    {
        (self.hits, self.misses)
    }

    /// Sets both counts back to zero; the cache keeps its entries.
    pub fn reset_stats(&mut self)
        ensures
            final(self).hit_count() == 0,
            final(self).miss_count() == 0,
            final(self).entries() == old(self).entries(),
            final(self).capacity() == old(self).capacity(),
    {
        self.hits = 0;
        self.misses = 0;
    }
}

fn clone_result(v: &PathResult) -> (r: PathResult)
    ensures
        path_view(r) == path_view(*v),
{
    match v {
        Some((p, c)) => {
            let mut q: Vec<(i32, i32)> = Vec::new();
            let mut i: usize = 0;
            while i < p.len()
                invariant
                    0 <= i <= p@.len(),
                    q@ == p@.take(i as int),
                decreases p@.len() - i,
            {
                q.push(p[i]);
                i += 1;
                assert(q@ =~= p@.take(i as int));
            }
            assert(p@.take(p@.len() as int) == p@);
            Some((q, *c))
        },
        None => None,
    }
}

} // verus!
