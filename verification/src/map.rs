//! The tile grid and its geometry: per-cell terrain flags, room
//! rectangles, carving, and the blocking test that movement consults.

use vstd::prelude::*;
use crate::object::{coord_ok, Object};

verus! {

pub const MAP_WIDTH: i32 = 80;
pub const MAP_HEIGHT: i32 = 43;

/// One grid cell: whether it blocks movement, whether it blocks sight,
/// and whether the player has ever seen it.
#[derive(Clone, Copy, Debug, PartialEq, Eq, Structural)]
pub struct Tile {
    pub blocked: bool,
    pub block_sight: bool,
    pub explored: bool,
}

impl Tile {
    /// A walkable, transparent, unexplored cell.
    pub fn empty() -> (t: Tile)
        ensures
            t == (Tile { blocked: false, block_sight: false, explored: false }),
    {
        Tile { blocked: false, block_sight: false, explored: false }
    }

    /// A solid, opaque, unexplored cell.
    pub fn wall() -> (t: Tile)
        ensures
            t == (Tile { blocked: true, block_sight: true, explored: false }),
    {
        Tile { blocked: true, block_sight: true, explored: false }
    }
}

/// The dungeon grid: `MAP_WIDTH` columns of `MAP_HEIGHT` tiles.
pub type Grid = Vec<Vec<Tile>>;

/// Whether a grid has exactly the configured dimensions.
pub open spec fn grid_wf(g: Seq<Vec<Tile>>) -> bool {
    &&& g.len() == MAP_WIDTH
    &&& forall|i: int| 0 <= i < g.len() ==> (#[trigger] g[i])@.len() == MAP_HEIGHT
}

/// The tile at (x, y).
pub open spec fn tile_at(g: Seq<Vec<Tile>>, x: int, y: int) -> Tile {
    g[x]@[y]
}

/// Whether (x, y) lies on the grid.
pub open spec fn in_bounds(x: int, y: int) -> bool {
    0 <= x < MAP_WIDTH && 0 <= y < MAP_HEIGHT
}

/// A room's bounding rectangle; the carved interior is the open box
/// strictly between (x1, y1) and (x2, y2).
#[derive(Clone, Copy, Debug, PartialEq, Eq, Structural)]
pub struct Rect {
    pub x1: i32,
    pub y1: i32,
    pub x2: i32,
    pub y2: i32,
}

impl Rect {
    /// Whether the rectangle's corners are within the coordinate range the
    /// arithmetic here accepts.
    pub open spec fn rect_ok(self) -> bool {
        &&& coord_ok(self.x1 as int)
        &&& coord_ok(self.y1 as int)
        &&& coord_ok(self.x2 as int)
        &&& coord_ok(self.y2 as int)
    }

    /// Whether (x, y) lies strictly inside the rectangle, that is, on a
    /// tile the room carves.
    pub open spec fn spec_interior(self, x: int, y: int) -> bool {
        self.x1 < x < self.x2 && self.y1 < y < self.y2
    }

    /// The rectangle's centre.
    pub open spec fn spec_center(self) -> (int, int) {
        (((self.x1 + self.x2) / 2), ((self.y1 + self.y2) / 2))
    }

    /// Whether two bounding rectangles touch or overlap.
    pub open spec fn spec_intersect(self, other: Rect) -> bool {
        self.x1 <= other.x2 && self.x2 >= other.x1 && self.y1 <= other.y2 && self.y2 >= other.y1
    }

    pub fn new(x: i32, y: i32, w: i32, h: i32) -> (r: Rect)
        requires
            coord_ok(x as int),
            coord_ok(y as int),
            0 <= w <= 1000,
            0 <= h <= 1000,
        ensures
            r == (Rect { x1: x, y1: y, x2: (x + w) as i32, y2: (y + h) as i32 }),
    {
        Rect { x1: x, y1: y, x2: x + w, y2: y + h }
    }

    pub fn center(&self) -> (c: (i32, i32))
        requires
            self.rect_ok(),
            0 <= self.x1 + self.x2,
            0 <= self.y1 + self.y2,
        ensures
            (c.0 as int, c.1 as int) == self.spec_center(),
    {
        let center_x: i32 = (self.x1 + self.x2) / 2;
        let center_y: i32 = (self.y1 + self.y2) / 2;
        (center_x, center_y)
    }

    pub fn intersect_with(&self, other: &Rect) -> (r: bool)
        ensures
            r == self.spec_intersect(*other),
    {
        (self.x1 <= other.x2) && (self.x2 >= other.x1) && (self.y1 <= other.y2) && (self.y2
            >= other.y1)
    }
}

/// Carves a room: every tile strictly inside the rectangle becomes empty;
/// every other tile keeps its value.
pub fn create_room(room: Rect, map: &mut Grid)
    requires
        grid_wf(old(map)@),
        0 <= room.x1 < MAP_WIDTH,
        room.x2 < MAP_WIDTH,
        0 <= room.y1 < MAP_HEIGHT,
        room.y2 < MAP_HEIGHT,
    ensures
        grid_wf(final(map)@),
        forall|x: int, y: int|
            in_bounds(x, y) ==> tile_at(final(map)@, x, y) == (if room.spec_interior(x, y) {
                Tile { blocked: false, block_sight: false, explored: false }
            } else {
                tile_at(old(map)@, x, y)
            }),
{
    let mut x: i32 = room.x1 + 1;
    while x < room.x2
        invariant
            grid_wf(map@),
            room.x1 < x,
            x <= room.x2 || x == room.x1 + 1,
            0 <= room.x1 < MAP_WIDTH,
            room.x2 < MAP_WIDTH,
            0 <= room.y1 < MAP_HEIGHT,
            room.y2 < MAP_HEIGHT,
            forall|i: int, j: int|
                in_bounds(i, j) ==> tile_at(map@, i, j) == (if room.spec_interior(i, j) && i < x {
                    Tile { blocked: false, block_sight: false, explored: false }
                } else {
                    tile_at(old(map)@, i, j)
                }),
        decreases room.x2 - x,
    {
        let mut y: i32 = room.y1 + 1;
        while y < room.y2
            invariant
                grid_wf(map@),
                room.x1 < x < room.x2,
                room.y1 < y,
                y <= room.y2 || y == room.y1 + 1,
                0 <= room.x1 < MAP_WIDTH,
                room.x2 < MAP_WIDTH,
                0 <= room.y1 < MAP_HEIGHT,
                room.y2 < MAP_HEIGHT,
                forall|i: int, j: int|
                    in_bounds(i, j) ==> tile_at(map@, i, j) == (if room.spec_interior(i, j) && (i
                        < x || (i == x && j < y)) {
                        Tile { blocked: false, block_sight: false, explored: false }
                    } else {
                        tile_at(old(map)@, i, j)
                    }),
            decreases room.y2 - y,
        {
            map[x as usize][y as usize] = Tile::empty();
            y = y + 1;
        }
        x = x + 1;
    }
}

/// Carves a horizontal corridor along row `y` between columns `x1` and
/// `x2`, both ends included.
pub fn create_h_tunnel(x1: i32, x2: i32, y: i32, map: &mut Grid)
    requires
        grid_wf(old(map)@),
        0 <= x1 < MAP_WIDTH,
        0 <= x2 < MAP_WIDTH,
        0 <= y < MAP_HEIGHT,
    ensures
        grid_wf(final(map)@),
        forall|i: int, j: int|
            in_bounds(i, j) ==> tile_at(final(map)@, i, j) == (if h_tunnel_covers(x1 as int, x2 as int, y as int, i, j) {
                Tile { blocked: false, block_sight: false, explored: false }
            } else {
                tile_at(old(map)@, i, j)
            }),
{
    let lo: i32 = if x1 < x2 { x1 } else { x2 };
    let hi: i32 = if x1 < x2 { x2 } else { x1 };
    let mut x: i32 = lo;
    while x <= hi
        invariant
            grid_wf(map@),
            lo <= x <= hi + 1,
            0 <= lo,
            hi < MAP_WIDTH,
            0 <= y < MAP_HEIGHT,
            lo == (if x1 < x2 { x1 as int } else { x2 as int }),
            hi == (if x1 < x2 { x2 as int } else { x1 as int }),
            forall|i: int, j: int|
                in_bounds(i, j) ==> tile_at(map@, i, j) == (if lo <= i < x && j == y {
                    Tile { blocked: false, block_sight: false, explored: false }
                } else {
                    tile_at(old(map)@, i, j)
                }),
        decreases hi + 1 - x,
    {
        map[x as usize][y as usize] = Tile::empty();
        x = x + 1;
    }
}

/// Whether a horizontal corridor between `x1` and `x2` on row `y` covers
/// the cell (i, j).
pub open spec fn h_tunnel_covers(x1: int, x2: int, y: int, i: int, j: int) -> bool {
    let lo = if x1 < x2 { x1 } else { x2 };
    let hi = if x1 < x2 { x2 } else { x1 };
    lo <= i <= hi && j == y
}

/// Carves a vertical corridor along column `x` between rows `y1` and `y2`,
/// both ends included.
pub fn create_v_tunnel(y1: i32, y2: i32, x: i32, map: &mut Grid)
    requires
        grid_wf(old(map)@),
        0 <= y1 < MAP_HEIGHT,
        0 <= y2 < MAP_HEIGHT,
        0 <= x < MAP_WIDTH,
    ensures
        grid_wf(final(map)@),
        forall|i: int, j: int|
            in_bounds(i, j) ==> tile_at(final(map)@, i, j) == (if v_tunnel_covers(y1 as int, y2 as int, x as int, i, j) {
                Tile { blocked: false, block_sight: false, explored: false }
            } else {
                tile_at(old(map)@, i, j)
            }),
{
    let lo: i32 = if y1 < y2 { y1 } else { y2 };
    let hi: i32 = if y1 < y2 { y2 } else { y1 };
    let mut y: i32 = lo;
    while y <= hi
        invariant
            grid_wf(map@),
            lo <= y <= hi + 1,
            0 <= lo,
            hi < MAP_HEIGHT,
            0 <= x < MAP_WIDTH,
            lo == (if y1 < y2 { y1 as int } else { y2 as int }),
            hi == (if y1 < y2 { y2 as int } else { y1 as int }),
            forall|i: int, j: int|
                in_bounds(i, j) ==> tile_at(map@, i, j) == (if lo <= j < y && i == x {
                    Tile { blocked: false, block_sight: false, explored: false }
                } else {
                    tile_at(old(map)@, i, j)
                }),
        decreases hi + 1 - y,
    {
        map[x as usize][y as usize] = Tile::empty();
        y = y + 1;
    }
}

/// Whether a vertical corridor between `y1` and `y2` on column `x` covers
/// the cell (i, j).
pub open spec fn v_tunnel_covers(y1: int, y2: int, x: int, i: int, j: int) -> bool {
    let lo = if y1 < y2 { y1 } else { y2 };
    let hi = if y1 < y2 { y2 } else { y1 };
    lo <= j <= hi && i == x
}

/// Marks every currently visible tile as explored; explored tiles stay
/// explored for ever. `visible` holds one column of flags per grid column.
pub fn update_explored(map: &mut Grid, visible: &Vec<Vec<bool>>)
    requires
        grid_wf(old(map)@),
        visible@.len() == MAP_WIDTH,
        forall|i: int| 0 <= i < visible@.len() ==> (#[trigger] visible@[i])@.len() == MAP_HEIGHT,
    ensures
        grid_wf(final(map)@),
        forall|x: int, y: int|
            in_bounds(x, y) ==> tile_at(final(map)@, x, y) == (Tile {
                explored: tile_at(old(map)@, x, y).explored || visible@[x]@[y],
                ..tile_at(old(map)@, x, y)
            }),
{
    let mut x: usize = 0;
    while x < MAP_WIDTH as usize
        invariant
            grid_wf(map@),
            x <= MAP_WIDTH,
            visible@.len() == MAP_WIDTH,
            forall|i: int| 0 <= i < visible@.len() ==> (#[trigger] visible@[i])@.len()
                == MAP_HEIGHT,
            forall|i: int, j: int|
                in_bounds(i, j) ==> tile_at(map@, i, j) == (if i < x {
                    Tile {
                        explored: tile_at(old(map)@, i, j).explored || visible@[i]@[j],
                        ..tile_at(old(map)@, i, j)
                    }
                } else {
                    tile_at(old(map)@, i, j)
                }),
        decreases MAP_WIDTH as usize - x,
    {
        let mut y: usize = 0;
        while y < MAP_HEIGHT as usize
            invariant
                grid_wf(map@),
                x < MAP_WIDTH,
                y <= MAP_HEIGHT,
                visible@.len() == MAP_WIDTH,
                forall|i: int| 0 <= i < visible@.len() ==> (#[trigger] visible@[i])@.len()
                    == MAP_HEIGHT,
                forall|i: int, j: int|
                    in_bounds(i, j) ==> tile_at(map@, i, j) == (if i < x || (i == x && j < y) {
                        Tile {
                            explored: tile_at(old(map)@, i, j).explored || visible@[i]@[j],
                            ..tile_at(old(map)@, i, j)
                        }
                    } else {
                        tile_at(old(map)@, i, j)
                    }),
            decreases MAP_HEIGHT as usize - y,
        {
            if visible[x][y] {
                let t = map[x][y];
                map[x][y] = Tile { explored: true, ..t };
            }
            y = y + 1;
        }
        x = x + 1;
    }
}

/// Whether (x, y) is blocked: by terrain, or by a blocking entity
/// standing there.
pub open spec fn spec_is_blocked(x: int, y: int, g: Seq<Vec<Tile>>, objects: Seq<Object>) -> bool {
    ||| tile_at(g, x, y).blocked
    ||| exists|k: int|
        0 <= k < objects.len() && (#[trigger] objects[k]).blocks && objects[k].x == x
            && objects[k].y == y
}

/// Run-time blocking test for movement and spawning.
pub fn is_blocked(x: i32, y: i32, map: &Grid, objects: &Vec<Object>) -> (r: bool)
    requires
        grid_wf(map@),
        in_bounds(x as int, y as int),
    ensures
        r == spec_is_blocked(x as int, y as int, map@, objects@),
{
    if map[x as usize][y as usize].blocked {
        return true;
    }
    let mut k: usize = 0;
    while k < objects.len()
        invariant
            k <= objects@.len(),
            forall|m: int|
                0 <= m < k ==> !((#[trigger] objects@[m]).blocks && objects@[m].x == x
                    && objects@[m].y == y),
        decreases objects@.len() - k,
    {
        if objects[k].blocks && objects[k].x == x && objects[k].y == y {
            return true;
        }
        k = k + 1;
    }
    false
}

/// The entity store after entity `id` tries to step by (dx, dy): the move
/// happens only onto an on-grid, unblocked cell; off-grid targets count as
/// blocked.
pub open spec fn move_by_result(
    objs: Seq<Object>,
    id: int,
    dx: int,
    dy: int,
    g: Seq<Vec<Tile>>,
) -> Seq<Object> {
    let nx = objs[id].x + dx;
    let ny = objs[id].y + dy;
    if in_bounds(nx, ny) && !spec_is_blocked(nx, ny, g, objs) {
        objs.update(id, Object { x: nx as i32, y: ny as i32, ..objs[id] })
    } else {
        objs
    }
}

/// Moves entity `id` by (dx, dy) unless the target cell is off the grid
/// or blocked.
pub fn move_by(id: usize, dx: i32, dy: i32, map: &Grid, objects: &mut Vec<Object>)
    requires
        grid_wf(map@),
        id < old(objects)@.len(),
        coord_ok(old(objects)@[id as int].x as int),
        coord_ok(old(objects)@[id as int].y as int),
        -1 <= dx <= 1,
        -1 <= dy <= 1,
    ensures
        final(objects)@.len() == old(objects)@.len(),
        final(objects)@ == move_by_result(old(objects)@, id as int, dx as int, dy as int, map@),
{
    let (x, y): (i32, i32) = objects[id].pos();
    let nx: i32 = x + dx;
    let ny: i32 = y + dy;
    if 0 <= nx && nx < MAP_WIDTH && 0 <= ny && ny < MAP_HEIGHT && !is_blocked(nx, ny, map, objects)
    {
        objects[id].set_pos(nx, ny);
    }
}

} // verus!
