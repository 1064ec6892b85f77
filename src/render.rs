//! Text rendering of the map for terminal front ends.
use vstd::prelude::*;
use crate::world::{GameMap, TileKind};

verus! {

/// Character of a tile; cells off the map read as walls.
pub open spec fn tile_glyph(t: Option<TileKind>) -> char {
    match t {
        Some(TileKind::Floor) => '.',
        Some(TileKind::Water) => '~',
        Some(TileKind::Lava) => '^',
        _ => '#',
    }
}

/// Character of cell `(x, y)`: the agent, else a visible cell when the
/// overlay is on, else the tile.
pub open spec fn glyph_at(map: GameMap, agent: (i32, i32), vis: Option<Seq<(i32, i32)>>, x: i32, y: i32) -> char {
    if (x, y) == agent {
        '@'
    } else if vis matches Some(v) && v.contains((x, y)) {
        '*'
    } else {
        tile_glyph(map.tile_at(x as int, y as int))
    }
}

fn glyph(t: Option<TileKind>) -> (r: char)
    ensures
        r == tile_glyph(t),
{
    match t {
        Some(TileKind::Floor) => '.',
        Some(TileKind::Water) => '~',
        Some(TileKind::Lava) => '^',
        _ => '#',
    }
}

fn contains_cell(v: &Vec<(i32, i32)>, c: (i32, i32)) -> (r: bool)
    ensures
        r == v@.contains(c),
{
    let mut i: usize = 0;
    while i < v.len()
        invariant
            0 <= i <= v@.len(),
            forall|k: int| 0 <= k < i ==> v@[k] != c,
        decreases v@.len() - i,
    {
        if v[i].0 == c.0 && v[i].1 == c.1 {
            assert(v@[i as int] == c);
            return true;
        }
        i += 1;
    }
    false
}

/// The map as rows of characters, top row first: `@` for the agent, `*`
/// for cells in the visibility overlay (when given), then the tiles.
pub fn render_ascii_map(map: &GameMap, agent_pos: (i32, i32), union_vis: Option<&Vec<(i32, i32)>>) -> (r: Vec<Vec<char>>)
    requires
        map.wf(),
        map.width <= i32::MAX,
        map.height <= i32::MAX,
    ensures
        r@.len() == map.height,
        forall|y: int| 0 <= y < map.height ==> (#[trigger] r@[y])@.len() == map.width,
        forall|y: int, x: int| 0 <= y < map.height && 0 <= x < map.width ==> (#[trigger] r@[y]@[x]) == glyph_at(
            *map,
            agent_pos,
            match union_vis { Some(v) => Some(v@), None => None },
            x as i32,
            y as i32,
        ),
{
    let ghost vis = match union_vis { Some(v) => Some(v@), None => None };
    let w = map.width as i32;
    let h = map.height as i32;
    let mut rows: Vec<Vec<char>> = Vec::new();
    let mut y: i32 = 0;
    while y < h
        invariant
            0 <= y <= h,
            h as int == map.height,
            w as int == map.width,
            map.wf(),
            vis == match union_vis { Some(v) => Some(v@), None => None },
            rows@.len() == y,
            forall|j: int| 0 <= j < y ==> (#[trigger] rows@[j])@.len() == map.width,
            forall|j: int, x: int| 0 <= j < y && 0 <= x < map.width ==> (#[trigger] rows@[j]@[x]) == glyph_at(*map, agent_pos, vis, x as i32, j as i32),
        decreases h - y,
    {
        let mut row: Vec<char> = Vec::new();
        let mut x: i32 = 0;
        while x < w
            invariant
                0 <= x <= w,
                0 <= y < h,
                h as int == map.height,
                w as int == map.width,
                map.wf(),
                vis == match union_vis { Some(v) => Some(v@), None => None },
                row@.len() == x,
                forall|i: int| 0 <= i < x ==> (#[trigger] row@[i]) == glyph_at(*map, agent_pos, vis, i as i32, y),
            decreases w - x,
        {
            let c = if x == agent_pos.0 && y == agent_pos.1 {
                '@'
            } else {
                let seen = match union_vis {
                    Some(v) => contains_cell(v, (x, y)),
                    None => false,
                };
                if seen {
                    '*'
                } else {
                    glyph(map.get_tile(x, y))
                }
            };
            row.push(c);
            x += 1;
        }
        rows.push(row);
        y += 1;
    }
    rows
}

} // verus!
