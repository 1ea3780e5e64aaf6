//! The 8×8 room grid: positions, tile kinds and the room layout.
use vstd::prelude::*;

verus! {

/// Width of the room grid, in tiles.
pub const GRID_WIDTH: u8 = 8;
/// Height of the room grid, in tiles.
pub const GRID_HEIGHT: u8 = 8;
/// Side of one tile, in world units.
pub const TILE_SIZE: i32 = 64;

/// Position on the game grid (0..8 on both axes).
/// Grid origin (0,0) is top-left; X increases right, Y increases down.
#[derive(Clone, Copy, Debug, PartialEq, Eq, Hash, Structural)]
pub struct GridPos {
    pub x: u8,
    pub y: u8,
}

/// Type of tile in the room.
#[derive(Clone, Copy, Debug, PartialEq, Eq, Hash, Structural)]
pub enum TileKind {
    /// Normal passable tile.
    Floor,
    /// Solid wall, blocks movement.
    Wall,
    /// Exit to next floor.
    Exit,
}

/// A position inside the 8×8 grid.
pub open spec fn in_grid(p: GridPos) -> bool {
    p.x < 8 && p.y < 8
}

/// Row-major index of grid cell (x, y).
pub open spec fn cell_index(x: int, y: int) -> int {
    y * 8 + x
}

/// The tile at (x, y) of a row-major tile sequence; `Floor` outside the grid.
pub open spec fn tile_of(tiles: Seq<TileKind>, x: int, y: int) -> TileKind {
    if 0 <= x < 8 && 0 <= y < 8 {
        tiles[cell_index(x, y)]
    } else {
        TileKind::Floor
    }
}

/// (x, y) lies on the outer ring of the grid.
pub open spec fn on_border(x: int, y: int) -> bool {
    x == 0 || x == 7 || y == 0 || y == 7
}

/// Walls on the outer ring, floor everywhere inside.
pub open spec fn walled_tiles() -> Seq<TileKind> {
    Seq::new(64, |k: int| if on_border(k % 8, k / 8) { TileKind::Wall } else { TileKind::Floor })
}

/// Two tile sequences of a full grid that agree on every cell are equal.
pub proof fn lemma_tiles_ext(a: Seq<TileKind>, b: Seq<TileKind>)
    requires
        a.len() == 64,
        b.len() == 64,
        forall|x: int, y: int| 0 <= x < 8 && 0 <= y < 8 ==> #[trigger] tile_of(a, x, y) == tile_of(b, x, y),
    ensures
        a == b,
{
    assert forall|k: int| 0 <= k < 64 implies a[k] == b[k] by {
        let x = k % 8;
        let y = k / 8;
        assert(tile_of(a, x, y) == tile_of(b, x, y));
        assert(cell_index(x, y) == k);
    }
    assert(a =~= b);
}

/// The cells of `walled_tiles`.
pub proof fn lemma_walled_tiles()
    ensures
        walled_tiles().len() == 64,
        forall|x: int, y: int|
            0 <= x < 8 && 0 <= y < 8 ==> #[trigger] tile_of(walled_tiles(), x, y) == (if on_border(
                x,
                y,
            ) {
                TileKind::Wall
            } else {
                TileKind::Floor
            }),
{
    assert forall|x: int, y: int| 0 <= x < 8 && 0 <= y < 8 implies #[trigger] tile_of(walled_tiles(), x, y)
        == (if on_border(x, y) { TileKind::Wall } else { TileKind::Floor }) by {
        let k = cell_index(x, y);
        assert(k % 8 == x && k / 8 == y);
    }
}

/// Column of the exit in the fixed room of a floor: 4, 5, 6, then again 4 …
pub open spec fn fixed_exit_x(floor: u8) -> int {
    4 + (if floor >= 1 { floor - 1 } else { 0 }) % 3
}

/// The fixed room of a floor: walls on the outer ring, floor inside, and the
/// exit at (`fixed_exit_x(floor)`, 4).
pub open spec fn fixed_room_tiles(floor: u8) -> Seq<TileKind> {
    walled_tiles().update(cell_index(fixed_exit_x(floor), 4), TileKind::Exit)
}

/// The layout of a room: all tile types for the 8×8 grid, row by row.
#[derive(Clone, Copy)]
pub struct RoomLayout {
    tiles: [TileKind; 64],
}

impl View for RoomLayout {
    type V = Seq<TileKind>;

    closed spec fn view(&self) -> Seq<TileKind> {
        self.tiles@
    }
}

impl RoomLayout {
    /// The view always holds exactly one tile per grid cell.
    pub broadcast proof fn lemma_view_len(layout: RoomLayout)
        ensures
            #[trigger] layout@.len() == 64,
    {
    }

    /// Build a layout from rows: `tiles[y][x]` is the tile at column x, row y.
    pub fn new(tiles: [[TileKind; 8]; 8]) -> (layout: RoomLayout)
        ensures
            layout@.len() == 64,
            forall|x: int, y: int|
                0 <= x < 8 && 0 <= y < 8 ==> #[trigger] tile_of(layout@, x, y) == tiles@[y]@[x],
    {
        let mut flat = [TileKind::Floor; 64];
        let mut y: usize = 0;
        while y < 8
            invariant
                y <= 8,
                forall|yy: int, xx: int|
                    0 <= yy < y && 0 <= xx < 8 ==> flat@[cell_index(xx, yy)] == tiles@[yy]@[xx],
            decreases 8 - y,
        {
            let row = tiles[y];
            let mut x: usize = 0;
            while x < 8
                invariant
                    y < 8,
                    x <= 8,
                    row == tiles@[y as int],
                    forall|yy: int, xx: int|
                        0 <= yy < y && 0 <= xx < 8 ==> flat@[cell_index(xx, yy)] == tiles@[yy]@[xx],
                    forall|xx: int| 0 <= xx < x ==> flat@[cell_index(xx, y as int)] == row@[xx],
                decreases 8 - x,
            {
                flat[y * 8 + x] = row[x];
                x = x + 1;
            }
            y = y + 1;
        }
        RoomLayout { tiles: flat }
    }

    /// A room with walls on the outer ring and floor everywhere inside.
    pub fn walled() -> (layout: RoomLayout)
        ensures
            layout@ == walled_tiles(),
    {
        let mut layout = RoomLayout { tiles: [TileKind::Floor; 64] };
        let mut x: u8 = 0;
        while x < GRID_WIDTH
            invariant
                x <= 8,
                layout@.len() == 64,
                forall|xx: int, yy: int|
                    0 <= xx < 8 && 0 <= yy < 8 ==> #[trigger] tile_of(layout@, xx, yy) == (if (yy == 0
                        || yy == 7) && xx < x {
                        TileKind::Wall
                    } else {
                        TileKind::Floor
                    }),
            decreases 8 - x,
        {
            let ghost before = layout@;
            layout.set(x, 0, TileKind::Wall);
            let ghost mid = layout@;
            layout.set(x, 7, TileKind::Wall);
            assert(mid == before.update(cell_index(x as int, 0), TileKind::Wall));
            assert(layout@ == mid.update(cell_index(x as int, 7), TileKind::Wall));
            assert forall|xx: int, yy: int| 0 <= xx < 8 && 0 <= yy < 8 implies #[trigger] tile_of(layout@, xx, yy)
                == (if (yy == 0 || yy == 7) && xx < x + 1 { TileKind::Wall } else { TileKind::Floor }) by {
                let k = cell_index(xx, yy);
                assert(tile_of(before, xx, yy) == before[k]);
                if xx == x && yy == 7 {
                } else if xx == x && yy == 0 {
                    assert(mid[k] == TileKind::Wall);
                } else {
                    assert(k != cell_index(x as int, 0) && k != cell_index(x as int, 7));
                    assert(layout@[k] == before[k]);
                }
            }
            x = x + 1;
        }
        let mut y: u8 = 0;
        while y < GRID_HEIGHT
            invariant
                y <= 8,
                layout@.len() == 64,
                forall|xx: int, yy: int|
                    0 <= xx < 8 && 0 <= yy < 8 ==> #[trigger] tile_of(layout@, xx, yy) == (if yy == 0
                        || yy == 7 || ((xx == 0 || xx == 7) && yy < y) {
                        TileKind::Wall
                    } else {
                        TileKind::Floor
                    }),
            decreases 8 - y,
        {
            let ghost before = layout@;
            layout.set(0, y, TileKind::Wall);
            let ghost mid = layout@;
            layout.set(7, y, TileKind::Wall);
            assert(mid == before.update(cell_index(0, y as int), TileKind::Wall));
            assert(layout@ == mid.update(cell_index(7, y as int), TileKind::Wall));
            assert forall|xx: int, yy: int| 0 <= xx < 8 && 0 <= yy < 8 implies #[trigger] tile_of(layout@, xx, yy)
                == (if yy == 0 || yy == 7 || ((xx == 0 || xx == 7) && yy < y + 1) {
                TileKind::Wall
            } else {
                TileKind::Floor
            }) by {
                let k = cell_index(xx, yy);
                assert(tile_of(before, xx, yy) == before[k]);
                if xx == 7 && yy == y {
                } else if xx == 0 && yy == y {
                    assert(mid[k] == TileKind::Wall);
                } else {
                    assert(k != cell_index(0, y as int) && k != cell_index(7, y as int));
                    assert(layout@[k] == before[k]);
                }
            }
            y = y + 1;
        }
        proof {
            lemma_walled_tiles();
            lemma_tiles_ext(layout@, walled_tiles());
        }
        layout
    }

    /// The tile at (x, y), in the model.
    pub open spec fn tile(&self, x: int, y: int) -> TileKind {
        tile_of(self@, x, y)
    }

    /// Replace the tile at grid position (x, y); positions outside the grid are left alone.
    pub fn set(&mut self, x: u8, y: u8, kind: TileKind)
        ensures
            final(self)@ == (if x < 8 && y < 8 {
                old(self)@.update(cell_index(x as int, y as int), kind)
            } else {
                old(self)@
            }),
    {
        if x < GRID_WIDTH && y < GRID_HEIGHT {
            self.tiles[(y as usize) * 8 + (x as usize)] = kind;
        }
    }

    /// Get the tile type at grid position (x, y).
    /// Returns Floor if out of bounds (defensive).
    pub fn get(&self, x: u8, y: u8) -> (t: TileKind)
        ensures
            t == self.tile(x as int, y as int),
    {
        if x < GRID_WIDTH && y < GRID_HEIGHT {
            self.tiles[(y as usize) * 8 + (x as usize)]
        } else {
            TileKind::Floor
        }
    }
}

/// Build a room layout for a given floor number.
/// No PRNG — layout is purely deterministic based on floor.
/// - All perimeter tiles are walls
/// - Interior is floor
/// - One exit tile at a position derived from floor number
pub fn build_room(floor: u8) -> (layout: RoomLayout)
    ensures
        layout@ == fixed_room_tiles(floor),
{
    let mut layout = RoomLayout::walled();
    let exit_x = 4 + (floor.saturating_sub(1) % 3);
    let exit_y: u8 = 4;
    if exit_x < GRID_WIDTH && exit_y < GRID_HEIGHT {
        layout.set(exit_x, exit_y, TileKind::Exit);
    }
    layout
}

/// A position on the grid in world units: the centre of the grid is the
/// origin, X grows to the right and Y grows upwards.
#[derive(Clone, Copy, Debug, PartialEq, Eq, Structural)]
pub struct WorldPos {
    pub x: i32,
    pub y: i32,
}

/// Convert grid position to world coordinates (the centre of the tile).
/// Grid (0,0) is top-left; world (0,0) is the centre of the grid.
pub fn grid_to_world(pos: GridPos) -> (w: WorldPos)
    ensures
        2 * w.x == (2 * pos.x - 7) * TILE_SIZE,
        2 * w.y == (7 - 2 * pos.y) * TILE_SIZE,
{
    WorldPos { x: (pos.x as i32) * TILE_SIZE - 224, y: 224 - (pos.y as i32) * TILE_SIZE }
}

} // verus!
