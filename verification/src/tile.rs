use vstd::prelude::*;

use crate::rng::rand_range;

verus! {

/// Width of the map grid, in tiles.
pub const MAP_WIDTH: i32 = 20;

/// Height of the map grid, in tiles.
pub const MAP_HEIGHT: i32 = 20;

/// One static grid cell: passability, opacity, and a stairs marker.
#[derive(Clone, Copy, Debug, PartialEq, Eq, Structural)]
pub struct Tile {
    pub blocked: bool,
    pub block_sight: bool,
    pub stairs: bool,
}

impl Tile {
    /// A walkable, transparent floor tile.
    pub fn empty() -> (t: Tile)
        ensures
            t == (Tile { blocked: false, block_sight: false, stairs: false }),
    {
        Tile { blocked: false, block_sight: false, stairs: false }
    }

    /// An impassable, opaque wall tile.
    pub fn wall() -> (t: Tile)
        ensures
            t == (Tile { blocked: true, block_sight: true, stairs: false }),
    {
        Tile { blocked: true, block_sight: true, stairs: false }
    }

    /// A walkable tile carrying the stairs to the next level.
    pub fn stairs() -> (t: Tile)
        ensures
            t == (Tile { blocked: false, block_sight: false, stairs: true }),
    {
        Tile { blocked: false, block_sight: false, stairs: true }
    }
}

/// The level map: a `MAP_WIDTH` x `MAP_HEIGHT` grid of tiles, indexed
/// column-first, so `tiles[x][y]` is the cell at `(x, y)`.
#[derive(Debug, PartialEq)]
pub struct GameMap {
    pub tiles: Vec<Vec<Tile>>,
}

impl GameMap {
    /// The grid has exactly `MAP_WIDTH` columns of `MAP_HEIGHT` tiles each.
    pub open spec fn wf(&self) -> bool {
        &&& self.tiles@.len() == MAP_WIDTH
        &&& forall|x: int|
            0 <= x < MAP_WIDTH ==> (#[trigger] self.tiles@[x])@.len() == MAP_HEIGHT
    }

    /// The tile at `(x, y)`.
    pub open spec fn tile_at(&self, x: int, y: int) -> Tile {
        self.tiles@[x]@[y]
    }

    /// Whether `(x, y)` lies on the grid.
    pub open spec fn in_bounds(x: int, y: int) -> bool {
        0 <= x < MAP_WIDTH && 0 <= y < MAP_HEIGHT
    }

    /// Read the tile at `(x, y)`.
    pub fn get(&self, x: i32, y: i32) -> (t: Tile)
        requires
            self.wf(),
            Self::in_bounds(x as int, y as int),
        ensures
            t == self.tile_at(x as int, y as int),
    {
        self.tiles[x as usize][y as usize]
    }
}

/// The fixed layout of a freshly generated level, before the stairs are
/// placed: walls all around the border and two pillars, floor elsewhere.
pub open spec fn base_tile(x: int, y: int) -> Tile {
    if x == 0 || x == MAP_WIDTH - 1 || y == 0 || y == MAP_HEIGHT - 1 {
        Tile { blocked: true, block_sight: true, stairs: false }
    } else if (x == 10 && y == 12) || (x == 5 && y == 12) {
        Tile { blocked: true, block_sight: true, stairs: false }
    } else {
        Tile { blocked: false, block_sight: false, stairs: false }
    }
}

/// A freshly generated map: the fixed base layout with the stairs placed at
/// `(sx, sy)`, somewhere strictly inside the walls.
pub open spec fn is_fresh_map(m: GameMap, sx: int, sy: int) -> bool {
    &&& m.wf()
    &&& 1 <= sx < 18
    &&& 1 <= sy < 18
    &&& forall|x: int, y: int|
        GameMap::in_bounds(x, y) ==> #[trigger] m.tile_at(x, y) == (if x == sx && y == sy {
            Tile { blocked: false, block_sight: false, stairs: true }
        } else {
            base_tile(x, y)
        })
}

/// Generate a fresh level map: border walls, two pillars, and the stairs at
/// a randomly drawn interior cell.
pub fn make_map() -> (m: GameMap)
    ensures
        m.wf(),
        exists|sx: int, sy: int| is_fresh_map(m, sx, sy),
{
    let sx = rand_range(1, 18);
    let sy = rand_range(1, 18);
    let mut tiles: Vec<Vec<Tile>> = Vec::new();
    let mut x: i32 = 0;
    while x < MAP_WIDTH
        invariant
            0 <= x <= MAP_WIDTH,
            1 <= sx < 18,
            1 <= sy < 18,
            tiles@.len() == x,
            forall|i: int|
                0 <= i < x ==> (#[trigger] tiles@[i])@.len() == MAP_HEIGHT,
            forall|i: int, j: int|
                0 <= i < x && 0 <= j < MAP_HEIGHT ==> #[trigger] tiles@[i]@[j] == (if i == sx
                    && j == sy {
                    Tile { blocked: false, block_sight: false, stairs: true }
                } else {
                    base_tile(i, j)
                }),
        decreases MAP_WIDTH - x,
    {
        let mut col: Vec<Tile> = Vec::new();
        let mut y: i32 = 0;
        while y < MAP_HEIGHT
            invariant
                0 <= y <= MAP_HEIGHT,
                0 <= x < MAP_WIDTH,
                1 <= sx < 18,
                1 <= sy < 18,
                col@.len() == y,
                forall|j: int|
                    0 <= j < y ==> #[trigger] col@[j] == (if x == sx && j == sy {
                        Tile { blocked: false, block_sight: false, stairs: true }
                    } else {
                        base_tile(x as int, j)
                    }),
            decreases MAP_HEIGHT - y,
        {
            let t = if x == sx && y == sy {
                Tile::stairs()
            } else if x == 0 || x == MAP_WIDTH - 1 || y == 0 || y == MAP_HEIGHT - 1 {
                Tile::wall()
            } else if (x == 10 && y == 12) || (x == 5 && y == 12) {
                Tile::wall()
            } else {
                Tile::empty()
            };
            col.push(t);
            y = y + 1;
        }
        tiles.push(col);
        x = x + 1;
    }
    let m = GameMap { tiles };
    proof {
        assert(is_fresh_map(m, sx as int, sy as int));
    }
    m
}

} // verus!
