//! Tile map and spatial components.
use vstd::prelude::*;

verus! {

/// Kind of a single map tile.
#[derive(Clone, Copy, Debug, PartialEq, Eq, Structural)]
pub enum TileKind {
    /// Walkable ground; what mining leaves behind.
    Floor,
    /// Solid rock that blocks movement and can be mined.
    Wall,
    /// Water (reserved for fluids).
    Water,
    /// Lava (reserved for fluids and temperature).
    Lava,
}

/// Parameters for generating a map.
#[derive(Clone, Copy, Debug)]
pub struct MapGenConfig {
    pub width: u32,
    pub height: u32,
}

/// Integer tile coordinates of an entity.
#[derive(Debug, Clone, Copy, PartialEq, Eq, Structural)]
pub struct Position(pub i32, pub i32);

/// Per-tick displacement of an entity.
#[derive(Debug, Clone, Copy, PartialEq, Eq, Structural)]
pub struct Velocity(pub i32, pub i32);

/// Human-readable name of an entity.
#[derive(Debug, Clone)]
pub struct Name(pub String);

/// The world as a row-major grid of tiles.
#[derive(Debug, Clone)]
pub struct GameMap {
    pub width: u32,
    pub height: u32,
    /// Tile of `(x, y)` at index `y * width + x`.
    pub tiles: Vec<TileKind>,
}

/// Whether `(x, y)` lies on a `width` by `height` grid.
pub open spec fn on_grid(width: u32, height: u32, x: int, y: int) -> bool {
    0 <= x < width && 0 <= y < height
}

impl GameMap {
    /// The tile vector holds exactly one tile per cell.
    pub open spec fn wf(&self) -> bool {
        self.tiles@.len() == self.width as int * self.height as int
    }

    /// Row-major index of an on-grid cell.
    pub open spec fn cell_index(&self, x: int, y: int) -> int {
        y * self.width + x
    }

    /// Tile at `(x, y)`, or `None` off the grid.
    pub open spec fn tile_at(&self, x: int, y: int) -> Option<TileKind> {
        if on_grid(self.width, self.height, x, y) {
            Some(self.tiles@[self.cell_index(x, y)])
        } else {
            None
        }
    }

    /// A map of the given size covered with floor.
    pub fn new(width: u32, height: u32) -> (r: GameMap)
        requires
            width as int * height as int <= u32::MAX,
        ensures
            r.wf(),
            r.width == width,
            r.height == height,
            forall|x: int, y: int| on_grid(width, height, x, y) ==> r.tile_at(x, y) == Some(TileKind::Floor),
    {
        let n: u32 = width * height;
        let tiles = vec![TileKind::Floor; n as usize];
        let r = GameMap { width, height, tiles };
        assert forall|x: int, y: int| on_grid(width, height, x, y) implies r.tile_at(x, y) == Some(TileKind::Floor) by {
            lemma_cell_below(y, x, width as int, height as int);
        }
        r
    }

    /// Row-major index of `(x, y)`, or `None` when it is off the map.
    pub fn idx(&self, x: i32, y: i32) -> (r: Option<usize>)
        requires
            self.wf(),
        ensures
            on_grid(self.width, self.height, x as int, y as int) ==> (r matches Some(i) && i as int == self.cell_index(x as int, y as int)),
            !on_grid(self.width, self.height, x as int, y as int) ==> r.is_none(),
            r matches Some(i) ==> i < self.tiles@.len(),
    {
        if x < 0 || y < 0 {
            return None;
        }
        let (ux, uy) = (x as u32, y as u32);
        if ux >= self.width || uy >= self.height {
            return None;
        }
        let len = self.tiles.len();
        proof {
            lemma_cell_below(uy as int, ux as int, self.width as int, self.height as int);
        }
        let i: usize = (uy as usize) * (self.width as usize) + ux as usize;
        Some(i)
    }

    /// Whether `(x, y)` lies on the map.
    pub fn in_bounds(&self, x: i32, y: i32) -> (r: bool)
        ensures
            r == on_grid(self.width, self.height, x as int, y as int),
    {
        x >= 0 && y >= 0 && (x as u32) < self.width && (y as u32) < self.height
    }

    /// Tile at `(x, y)`, or `None` off the map.
    pub fn get_tile(&self, x: i32, y: i32) -> (r: Option<TileKind>)
        requires
            self.wf(),
        ensures
            r == self.tile_at(x as int, y as int),
    {
        match self.idx(x, y) {
            Some(i) => Some(self.tiles[i]),
            None => None,
        }
    }

    /// Sets the tile at `(x, y)`; `false` and no change when it is off the map.
    pub fn set_tile(&mut self, x: i32, y: i32, kind: TileKind) -> (r: bool)
        requires
            old(self).wf(),
        ensures
            final(self).wf(),
            final(self).width == old(self).width,
            final(self).height == old(self).height,
            r == on_grid(old(self).width, old(self).height, x as int, y as int),
            r ==> final(self).tiles@ == old(self).tiles@.update(old(self).cell_index(x as int, y as int), kind),
            !r ==> final(self).tiles@ == old(self).tiles@,
            forall|a: int, b: int| final(self).tile_at(a, b) == (if a == x && b == y && r {
                Some(kind)
            } else {
                old(self).tile_at(a, b)
            }),
    {
        match self.idx(x, y) {
            Some(i) => {
                self.tiles.set(i, kind);
                proof {
                    assert forall|a: int, b: int| #[trigger] on_grid(self.width, self.height, a, b)
                        implies self.tile_at(a, b) == (if a == x && b == y { Some(kind) } else { old(self).tile_at(a, b) }) by {
                        lemma_cell_below(b, a, self.width as int, self.height as int);
                        if !(a == x && b == y) {
                            lemma_cells_distinct(a, b, x as int, y as int, self.width as int);
                        }
                    }
                }
                true
            },
            None => false,
        }
    }

    /// Whether `(x, y)` is a floor tile; off-map cells are not walkable.
    pub fn is_walkable(&self, x: i32, y: i32) -> (r: bool)
        requires
            self.wf(),
        ensures
            r == (self.tile_at(x as int, y as int) == Some(TileKind::Floor)),
    {
        match self.get_tile(x, y) {
            Some(TileKind::Floor) => true,
            _ => false,
        }
    }
}

pub proof fn lemma_cell_below(y: int, x: int, w: int, h: int)
    requires
        0 <= x < w,
        0 <= y < h,
    ensures
        0 <= y * w + x < w * h,
        0 <= y * w <= y * w + x,
{
    assert(y * w + x < w * h) by (nonlinear_arith)
        requires 0 <= x < w, 0 <= y < h;
    assert(0 <= y * w) by (nonlinear_arith)
        requires 0 <= x < w, 0 <= y < h;
}

proof fn lemma_cells_distinct(a: int, b: int, x: int, y: int, w: int)
    requires
        0 <= a < w,
        0 <= x < w,
        !(a == x && b == y),
    ensures
        b * w + a != y * w + x,
{
    if b == y {
    } else if b < y {
        assert(b * w + a < y * w + x) by (nonlinear_arith)
            requires 0 <= a < w, 0 <= x < w, b < y;
    } else {
        assert(b * w + a > y * w + x) by (nonlinear_arith)
            requires 0 <= a < w, 0 <= x < w, b > y;
    }
}

impl Default for Velocity {
    fn default() -> (r: Velocity)
        ensures
            r == Velocity(0, 0),
    {
        Velocity(0, 0)
    }
}

} // verus!
