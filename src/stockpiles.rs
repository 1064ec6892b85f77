//! Stockpile zones and lookups over them.
use vstd::prelude::*;
use crate::components::{half_toward_zero, Stockpile, ZoneBounds};
use crate::world::Position;

verus! {

/// A stockpile: its filter, its centre, and its zone.
#[derive(Debug, Clone)]
pub struct StockpileBundle {
    pub stockpile: Stockpile,
    pub position: Position,
    pub bounds: ZoneBounds,
}

impl StockpileBundle {
    /// A stockpile over the given zone that accepts everything, placed at the
    /// zone's centre.
    pub fn new(min_x: i32, min_y: i32, max_x: i32, max_y: i32) -> (r: StockpileBundle)
        ensures
            r.stockpile.accepts.is_none(),
            r.bounds == (ZoneBounds { min_x, min_y, max_x, max_y }),
            r.position.0 as int == half_toward_zero(min_x as int + max_x as int),
            r.position.1 as int == half_toward_zero(min_y as int + max_y as int),
    {
        let bounds = ZoneBounds::new(min_x, min_y, max_x, max_y);
        let c = bounds.center();
        StockpileBundle { stockpile: Stockpile { accepts: None }, position: Position(c.0, c.1), bounds }
    }
}

/// Squared Euclidean distance between two cells.
pub open spec fn dist2(p: Position, x: int, y: int) -> int {
    (p.0 - x) * (p.0 - x) + (p.1 - y) * (p.1 - y)
}

/// Stockpile `i` is the nearest to `(x, y)`, and the first among equals.
pub open spec fn is_nearest(s: Seq<StockpileBundle>, x: int, y: int, i: int) -> bool {
    &&& 0 <= i < s.len()
    &&& forall|k: int| 0 <= k < s.len() ==> dist2(#[trigger] s[k].position, x, y) >= dist2(s[i].position, x, y)
    &&& forall|k: int| 0 <= k < i ==> dist2(#[trigger] s[k].position, x, y) > dist2(s[i].position, x, y)
}

/// Index of the nearest stockpile, if there is any.
pub open spec fn nearest_spec(s: Seq<StockpileBundle>, x: int, y: int) -> Option<int> {
    if exists|i: int| is_nearest(s, x, y, i) {
        Some(choose|i: int| is_nearest(s, x, y, i))
    } else {
        None
    }
}

proof fn lemma_nearest_unique(s: Seq<StockpileBundle>, x: int, y: int, i: int)
    requires
        is_nearest(s, x, y, i),
    ensures
        nearest_spec(s, x, y) == Some(i),
{
    let c = choose|k: int| is_nearest(s, x, y, k);
    assert(is_nearest(s, x, y, c));
    if c < i {
        assert(dist2(s[c].position, x, y) > dist2(s[i].position, x, y));
    } else if c > i {
        assert(dist2(s[i].position, x, y) > dist2(s[c].position, x, y));
    }
}

fn squared_distance(p: Position, x: i32, y: i32) -> (r: u128)
    ensures
        r as int == dist2(p, x as int, y as int),
{
    let dx: i64 = p.0 as i64 - x as i64;
    let dy: i64 = p.1 as i64 - y as i64;
    let ax: u128 = if dx < 0 { (-dx) as u128 } else { dx as u128 };
    let ay: u128 = if dy < 0 { (-dy) as u128 } else { dy as u128 };
    assert(ax * ax <= 0x1_0000_0000 * 0x1_0000_0000) by (nonlinear_arith)
        requires ax <= 0x1_0000_0000;
    assert(ay * ay <= 0x1_0000_0000 * 0x1_0000_0000) by (nonlinear_arith)
        requires ay <= 0x1_0000_0000;
    assert(ax * ax == dx * dx) by (nonlinear_arith)
        requires ax == dx || ax == -dx;
    assert(ay * ay == dy * dy) by (nonlinear_arith)
        requires ay == dy || ay == -dy;
    ax * ax + ay * ay
}

/// The stockpile whose centre is nearest to `(x, y)` by squared distance,
/// the first one on a tie, with that squared distance; `None` when there
/// are no stockpiles.
pub fn find_nearest_stockpile(stockpiles: &Vec<StockpileBundle>, x: i32, y: i32) -> (r: Option<(usize, u128)>)
    ensures
        stockpiles@.len() == 0 <==> r.is_none(),
        r matches Some((i, d)) ==> nearest_spec(stockpiles@, x as int, y as int) == Some(i as int)
            && d as int == dist2(stockpiles@[i as int].position, x as int, y as int),
{
    if stockpiles.len() == 0 {
        return None;
    }
    let mut best: usize = 0;
    let mut best_d = squared_distance(stockpiles[0].position, x, y);
    let mut i: usize = 1;
    while i < stockpiles.len()
        invariant
            1 <= i <= stockpiles@.len(),
            best < i,
            best_d as int == dist2(stockpiles@[best as int].position, x as int, y as int),
            forall|k: int| 0 <= k < i ==> dist2(#[trigger] stockpiles@[k].position, x as int, y as int) >= best_d,
            forall|k: int| 0 <= k < best ==> dist2(#[trigger] stockpiles@[k].position, x as int, y as int) > best_d,
        decreases stockpiles@.len() - i,
    {
        let d = squared_distance(stockpiles[i].position, x, y);
        if d < best_d {
            best = i;
            best_d = d;
        }
        i += 1;
    }
    proof {
        lemma_nearest_unique(stockpiles@, x as int, y as int, best as int);
    }
    Some((best, best_d))
}

/// Whether `(x, y)` lies in the zone of some stockpile.
pub fn position_in_stockpile(stockpiles: &Vec<StockpileBundle>, x: i32, y: i32) -> (r: bool)
    ensures
        r == exists|i: int| 0 <= i < stockpiles@.len() && (#[trigger] stockpiles@[i]).bounds.contains_spec(x as int, y as int),
{
    let mut i: usize = 0;
    while i < stockpiles.len()
        invariant
            0 <= i <= stockpiles@.len(),
            forall|k: int| 0 <= k < i ==> !(#[trigger] stockpiles@[k]).bounds.contains_spec(x as int, y as int),
        decreases stockpiles@.len() - i,
    {
        if stockpiles[i].bounds.contains(x, y) {
            return true;
        }
        i += 1;
    }
    false
}

/// Indices `0..n` of the stockpiles whose zone holds `(x, y)`, in order.
pub open spec fn zones_holding(s: Seq<StockpileBundle>, x: int, y: int, n: int) -> Seq<usize>
    decreases n,
{
    if n <= 0 {
        Seq::empty()
    } else {
        zones_holding(s, x, y, n - 1) + if s[n - 1].bounds.contains_spec(x, y) {
            seq![(n - 1) as usize]
        } else {
            Seq::empty()
        }
    }
}

/// Every stockpile whose zone holds `(x, y)`, in order.
pub fn find_stockpiles_at_position(stockpiles: &Vec<StockpileBundle>, x: i32, y: i32) -> (r: Vec<usize>)
    ensures
        r@ == zones_holding(stockpiles@, x as int, y as int, stockpiles@.len() as int),
{
    let mut out: Vec<usize> = Vec::new();
    let mut i: usize = 0;
    while i < stockpiles.len()
        invariant
            0 <= i <= stockpiles@.len(),
            out@ == zones_holding(stockpiles@, x as int, y as int, i as int),
        decreases stockpiles@.len() - i,
    {
        if stockpiles[i].bounds.contains(x, y) {
            out.push(i);
        }
        i += 1;
    }
    out
}

} // verus!
