//! Line of sight over the tile map.
use vstd::prelude::*;
use crate::components::Agent;
use crate::world::{GameMap, TileKind};

verus! {

/// Only walls block line of sight.
pub fn is_opaque(kind: TileKind) -> (r: bool)
    ensures
        r == (kind == TileKind::Wall),
{
    match kind {
        TileKind::Wall => true,
        _ => false,
    }
}

/// Bresenham's walk from `(x, y)` toward `(x1, y1)` with error term `err`
/// (`dx = |x1 - x0|`, `dy = -|y1 - y0|`, steps `sx`, `sy`), for at most
/// `fuel` cells: sight is clear when every cell up to the target is on the
/// map and every cell before the target is not opaque.
pub open spec fn los_walk(
    map: GameMap,
    x: int,
    y: int,
    x1: int,
    y1: int,
    sx: int,
    sy: int,
    dx: int,
    dy: int,
    err: int,
    fuel: nat,
) -> bool
    decreases fuel,
{
    if fuel == 0 {
        false
    } else {
        match map.tile_at(x, y) {
            None => false,
            Some(t) => if x == x1 && y == y1 {
                true
            } else if t == TileKind::Wall {
                false
            } else {
                let e2 = 2 * err;
                let err1 = if e2 >= dy { err + dy } else { err };
                let nx = if e2 >= dy { x + sx } else { x };
                let err2 = if e2 <= dx { err1 + dx } else { err1 };
                let ny = if e2 <= dx { y + sy } else { y };
                los_walk(map, nx, ny, x1, y1, sx, sy, dx, dy, err2, (fuel - 1) as nat)
            },
        }
    }
}

pub open spec fn abs_int(v: int) -> int {
    if v < 0 { -v } else { v }
}

/// Sight from `(x0, y0)` to `(x1, y1)` along the Bresenham line.
pub open spec fn sees(map: GameMap, x0: int, y0: int, x1: int, y1: int) -> bool {
    los_walk(
        map,
        x0,
        y0,
        x1,
        y1,
        if x0 < x1 { 1 } else { -1 },
        if y0 < y1 { 1 } else { -1 },
        abs_int(x1 - x0),
        -abs_int(y1 - y0),
        abs_int(x1 - x0) - abs_int(y1 - y0),
        (abs_int(x1 - x0) + abs_int(y1 - y0) + 1) as nat,
    )
}

/// Whether `(x1, y1)` can be seen from `(x0, y0)`: the Bresenham line
/// between them stays on the map and only its end may be a wall. The walk
/// takes at most `|x1 - x0| + |y1 - y0| + 1` cells.
pub fn los_visible(map: &GameMap, x0: i32, y0: i32, x1: i32, y1: i32) -> (r: bool)
    requires
        map.wf(),
        map.width <= i32::MAX,
        map.height <= i32::MAX,
    ensures
        r == sees(*map, x0 as int, y0 as int, x1 as int, y1 as int),
{
    let dx: i64 = if x1 as i64 >= x0 as i64 { x1 as i64 - x0 as i64 } else { x0 as i64 - x1 as i64 };
    let dyn_: i64 = if y1 as i64 >= y0 as i64 { y1 as i64 - y0 as i64 } else { y0 as i64 - y1 as i64 };
    let dy: i64 = -dyn_;
    let sx: i64 = if x0 < x1 { 1 } else { -1 };
    let sy: i64 = if y0 < y1 { 1 } else { -1 };
    let mut x: i64 = x0 as i64;
    let mut y: i64 = y0 as i64;
    let mut err: i128 = (dx + dy) as i128;
    let fuel0: u64 = (dx + dyn_ + 1) as u64;
    let mut fuel: u64 = fuel0;
    let ghost mut lim: int = 0x4_0000_0000;
    let ghost goal = los_walk(
        *map,
        x0 as int,
        y0 as int,
        x1 as int,
        y1 as int,
        if x0 < x1 { 1 } else { -1 },
        if y0 < y1 { 1 } else { -1 },
        abs_int(x1 - x0),
        -abs_int(y1 - y0),
        abs_int(x1 - x0) - abs_int(y1 - y0),
        (abs_int(x1 - x0) + abs_int(y1 - y0) + 1) as nat,
    );
    assert(dx as int == abs_int(x1 - x0) && dyn_ as int == abs_int(y1 - y0));
    assert(fuel0 as nat == (abs_int(x1 - x0) + abs_int(y1 - y0) + 1) as nat);
    while fuel > 0
        invariant
            0 <= dx <= 0xffff_ffff,
            0 <= dyn_ <= 0xffff_ffff,
            dy == -dyn_,
            sx == 1 || sx == -1,
            sy == 1 || sy == -1,
            sx == if x0 < x1 { 1i64 } else { -1i64 },
            sy == if y0 < y1 { 1i64 } else { -1i64 },
            fuel <= fuel0 <= 0x2_0000_0000,
            -(fuel0 - fuel) <= x - x0 <= fuel0 - fuel,
            -(fuel0 - fuel) <= y - y0 <= fuel0 - fuel,
            -lim <= err <= lim,
            lim == 0x4_0000_0000 * (fuel0 - fuel + 1),
            map.wf(),
            map.width <= i32::MAX,
            map.height <= i32::MAX,
            goal == los_walk(
                *map,
                x0 as int,
                y0 as int,
                x1 as int,
                y1 as int,
                if x0 < x1 { 1 } else { -1 },
                if y0 < y1 { 1 } else { -1 },
                abs_int(x1 - x0),
                -abs_int(y1 - y0),
                abs_int(x1 - x0) - abs_int(y1 - y0),
                (abs_int(x1 - x0) + abs_int(y1 - y0) + 1) as nat,
            ),
            goal == los_walk(*map, x as int, y as int, x1 as int, y1 as int, sx as int, sy as int, dx as int, dy as int, err as int, fuel as nat),
        decreases fuel,
    {
        if x < -0x8000_0000 || x > 0x7fff_ffff || y < -0x8000_0000 || y > 0x7fff_ffff {
            assert(map.tile_at(x as int, y as int) is None);
            return false;
        }
        let ghost here = los_walk(*map, x as int, y as int, x1 as int, y1 as int, sx as int, sy as int, dx as int, dy as int, err as int, fuel as nat);
        assert((x as i32) as int == x && (y as i32) as int == y);
        match map.get_tile(x as i32, y as i32) {
            None => {
                assert(!here);
                return false;
            },
            Some(t) => {
                if x == x1 as i64 && y == y1 as i64 {
                    return true;
                }
                if is_opaque(t) {
                    assert(!here);
                    return false;
                }
            },
        }
        let e2: i128 = 2 * err;
        if e2 >= dy as i128 {
            err = err + dy as i128;
            x = x + sx;
        }
        if e2 <= dx as i128 {
            err = err + dx as i128;
            y = y + sy;
        }
        proof {
            lim = lim + 0x4_0000_0000;
        }
        fuel = fuel - 1;
    }
    false
}

/// Cell `(a, b)` lies on the map, within a non-negative `radius` of `(x, y)` by Euclidean
/// distance, and can be seen from there.
pub open spec fn in_view(map: GameMap, x: int, y: int, radius: int, a: int, b: int) -> bool {
    &&& radius >= 0
    &&& map.tile_at(a, b) is Some
    &&& (a - x) * (a - x) + (b - y) * (b - y) <= radius * radius
    &&& sees(map, x, y, a, b)
}

/// The cells visible from `(x, y)` within `radius`, row by row.
pub fn visible_from(map: &GameMap, x: i32, y: i32, radius: i32) -> (r: Vec<(i32, i32)>)
    requires
        map.wf(),
        map.width <= i32::MAX,
        map.height <= i32::MAX,
    ensures
        forall|k: int| 0 <= k < r@.len() ==> in_view(*map, x as int, y as int, radius as int, (#[trigger] r@[k]).0 as int, r@[k].1 as int),
        forall|a: i32, b: i32| #[trigger] in_view(*map, x as int, y as int, radius as int, a as int, b as int) ==> r@.contains((a, b)),
{
    let mut out: Vec<(i32, i32)> = Vec::new();
    if radius < 0 {
        return out;
    }
    let r64 = radius as i64;
    let mut dy: i64 = -r64;
    proof {
        assert forall|a: i32, b: i32| #[trigger] in_view(*map, x as int, y as int, radius as int, a as int, b as int) implies b - y >= dy by {
            lemma_square_bound(a - x, b - y, radius as int);
        }
    }
    while dy <= r64
        invariant
            0 <= r64 == radius,
            -r64 <= dy <= r64 + 1,
            map.wf(),
            map.width <= i32::MAX,
            map.height <= i32::MAX,
            forall|k: int| 0 <= k < out@.len() ==> in_view(*map, x as int, y as int, radius as int, (#[trigger] out@[k]).0 as int, out@[k].1 as int),
            forall|a: i32, b: i32| #[trigger] in_view(*map, x as int, y as int, radius as int, a as int, b as int) && b - y < dy
                ==> out@.contains((a, b)),
        decreases r64 + 1 - dy,
    {
        let mut dx: i64 = -r64;
        proof {
            assert forall|a: i32, b: i32| #[trigger] in_view(*map, x as int, y as int, radius as int, a as int, b as int) implies a - x >= dx by {
                lemma_square_bound(a - x, b - y, radius as int);
            }
        }
        while dx <= r64
            invariant
                0 <= r64 == radius,
                -r64 <= dy <= r64,
                -r64 <= dx <= r64 + 1,
                map.wf(),
                map.width <= i32::MAX,
                map.height <= i32::MAX,
                forall|k: int| 0 <= k < out@.len() ==> in_view(*map, x as int, y as int, radius as int, (#[trigger] out@[k]).0 as int, out@[k].1 as int),
                forall|a: i32, b: i32| #[trigger] in_view(*map, x as int, y as int, radius as int, a as int, b as int)
                    && (b - y < dy || (b - y == dy && a - x < dx)) ==> out@.contains((a, b)),
            decreases r64 + 1 - dx,
        {
            let nx: i64 = x as i64 + dx;
            let ny: i64 = y as i64 + dy;
            let ghost before = out@;
            if 0 <= nx && nx <= 0x7fff_ffff && 0 <= ny && ny <= 0x7fff_ffff && map.in_bounds(nx as i32, ny as i32) {
                assert(dx * dx + dy * dy <= 0x8000_0000 * 0x8000_0000 * 2) by (nonlinear_arith)
                    requires -0x8000_0000 <= dx <= 0x8000_0000, -0x8000_0000 <= dy <= 0x8000_0000;
                assert(dx * dx >= 0 && dy * dy >= 0) by (nonlinear_arith);
                let d2: i128 = (dx as i128) * (dx as i128) + (dy as i128) * (dy as i128);
                assert(r64 * r64 <= 0x8000_0000 * 0x8000_0000) by (nonlinear_arith)
                    requires 0 <= r64 <= 0x8000_0000;
                let r2: i128 = (r64 as i128) * (r64 as i128);
                if d2 <= r2 && los_visible(map, x, y, nx as i32, ny as i32) {
                    out.push((nx as i32, ny as i32));
                }
            }
            proof {
                assert forall|a: i32, b: i32| #[trigger] in_view(*map, x as int, y as int, radius as int, a as int, b as int)
                    && (b - y < dy || (b - y == dy && a - x < dx + 1)) implies out@.contains((a, b)) by {
                    if b - y == dy && a - x == dx {
                        assert(a as int == nx && b as int == ny);
                        assert(out@.last() == (a, b));
                    } else {
                        assert(before.contains((a, b)));
                        let w = choose|w: int| 0 <= w < before.len() && before[w] == (a, b);
                        assert(out@[w] == (a, b));
                    }
                }
            }
            dx += 1;
        }
        proof {
            assert forall|a: i32, b: i32| #[trigger] in_view(*map, x as int, y as int, radius as int, a as int, b as int)
                && b - y < dy + 1 implies out@.contains((a, b)) by {
                if b - y == dy {
                    lemma_square_bound(a - x, b - y, radius as int);
                }
            }
        }
        dy += 1;
    }
    proof {
        assert forall|a: i32, b: i32| #[trigger] in_view(*map, x as int, y as int, radius as int, a as int, b as int) implies out@.contains((a, b)) by {
            lemma_square_bound(a - x, b - y, radius as int);
        }
    }
    out
}

/// A cell within Euclidean radius `r` lies within `r` in both axes (and
/// there is none for a negative radius, beyond the centre).
proof fn lemma_square_bound(da: int, db: int, r: int)
    requires
        da * da + db * db <= r * r,
    ensures
        r >= 0 ==> -r <= da <= r && -r <= db <= r,
        r < 0 ==> -(-r) <= da <= -r && -(-r) <= db <= -r,
{
    assert(da * da >= 0 && db * db >= 0) by (nonlinear_arith);
    let ar = if r >= 0 { r } else { -r };
    assert(ar * ar == r * r) by (nonlinear_arith) requires ar == r || ar == -r;
    if da > ar {
        assert(da * da > ar * ar) by (nonlinear_arith) requires da > ar, ar >= 0;
    }
    if da < -ar {
        assert(da * da > ar * ar) by (nonlinear_arith) requires da < -ar, ar >= 0;
    }
    if db > ar {
        assert(db * db > ar * ar) by (nonlinear_arith) requires db > ar, ar >= 0;
    }
    if db < -ar {
        assert(db * db > ar * ar) by (nonlinear_arith) requires db < -ar, ar >= 0;
    }
}

/// The cells each agent sees, by agent index.
#[derive(Debug, Clone)]
pub struct Visibility {
    pub per_entity: Vec<Vec<(i32, i32)>>,
}

impl Visibility {
    pub fn new() -> (r: Visibility)
        ensures
            r.per_entity@.len() == 0,
    {
        Visibility { per_entity: Vec::new() }
    }
}

/// Vision radius of an agent: its own, or 8 cells.
pub open spec fn radius_of(a: Agent) -> int {
    match a.vision {
        Some(v) => v.0 as int,
        None => 8,
    }
}

/// Recomputes, for every agent, the cells it sees within its vision radius.
pub fn compute_visibility_system(map: &GameMap, vis: &mut Visibility, agents: &Vec<Agent>)
    requires
        map.wf(),
        map.width <= i32::MAX,
        map.height <= i32::MAX,
    ensures
        final(vis).per_entity@.len() == agents@.len(),
        forall|i: int, k: int| 0 <= i < agents@.len() && 0 <= k < final(vis).per_entity@[i]@.len() ==> ({
            let c = #[trigger] final(vis).per_entity@[i]@[k];
            in_view(*map, agents@[i].pos.0 as int, agents@[i].pos.1 as int, radius_of(agents@[i]), c.0 as int, c.1 as int)
        }),
        forall|i: int, a: i32, b: i32| 0 <= i < agents@.len()
            && #[trigger] in_view(*map, agents@[i].pos.0 as int, agents@[i].pos.1 as int, radius_of(agents@[i]), a as int, b as int)
            ==> final(vis).per_entity@[i]@.contains((a, b)),
{
    let mut per: Vec<Vec<(i32, i32)>> = Vec::new();
    let mut i: usize = 0;
    while i < agents.len()
        invariant
            0 <= i <= agents@.len(),
            map.wf(),
            map.width <= i32::MAX,
            map.height <= i32::MAX,
            per@.len() == i,
            forall|j: int, k: int| 0 <= j < i && 0 <= k < per@[j]@.len() ==> ({
                let c = #[trigger] per@[j]@[k];
                in_view(*map, agents@[j].pos.0 as int, agents@[j].pos.1 as int, radius_of(agents@[j]), c.0 as int, c.1 as int)
            }),
            forall|j: int, a: i32, b: i32| 0 <= j < i
                && #[trigger] in_view(*map, agents@[j].pos.0 as int, agents@[j].pos.1 as int, radius_of(agents@[j]), a as int, b as int)
                ==> per@[j]@.contains((a, b)),
        decreases agents@.len() - i,
    {
        let a = agents[i];
        let r = match a.vision {
            Some(v) => v.0,
            None => 8,
        };
        let seen = visible_from(map, a.pos.0, a.pos.1, r);
        per.push(seen);
        i += 1;
    }
    vis.per_entity = per;
}

} // verus!
