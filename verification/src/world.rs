//! The world the agents live in: the two fields, the hive, and the
//! collision field that says where nobody can stand.

use vstd::prelude::*;
use crate::food::{FoodCells, FoodWorld};
use crate::grid::Cells;
use crate::hive::Hive;
use crate::markers::{MarkerCells, MarkerWorld};
use crate::vector::{floor_div_wide, Vec2};

verus! {

/// The width and height, in pixels of the navigability image, of the square
/// that one collision cell is sampled from.
pub const COLLISION_GRID_RESOLUTION: usize = 4;

/// The least opacity, out of 255, at which a sampled pixel blocks its cell.
pub const COLLISION_OPACITY: u8 = 74;

pub const MAP_SIZE: i32 = 1500000;

/// The corner of the map with the smallest coordinates.
pub const MAP_TOPLEFT: i32 = -750000;

pub const FOOD_WORLD_GRID_SIZE: i32 = 42000;

pub const MARK_WORLD_GRID_SIZE: i32 = 55000;

/// The opacity channel of a navigability image, row after row.
pub struct Mask {
    pub width: usize,
    pub height: usize,
    pub alpha: Vec<u8>,
}

impl Mask {
    /// Whether the pixel in column `x` of row `y` is there and opaque
    /// enough to block. What is not there does not let anyone through.
    pub open spec fn opaque_at(&self, x: int, y: int) -> bool {
        if 0 <= x < self.width && 0 <= y < self.height && y * self.width + x < self.alpha@.len() {
            self.alpha@[y * self.width + x] >= COLLISION_OPACITY
        } else {
            true
        }
    }

    /// Whether the pixel in column `x` of row `y` blocks.
    pub fn blocks(&self, x: usize, y: usize) -> (b: bool)
        ensures
            b == self.opaque_at(x as int, y as int),
    {
        if x < self.width && y < self.height {
            assert(y * self.width <= 0xffff_ffff_ffff_ffff * 0xffff_ffff_ffff_ffff)
                by (nonlinear_arith)
                requires
                    0 <= y <= 0xffff_ffff_ffff_ffff,
                    0 <= self.width <= 0xffff_ffff_ffff_ffff,
            ;
            let at: u128 = (y as u128) * (self.width as u128) + (x as u128);
            if at < self.alpha.len() as u128 {
                self.alpha[at as usize] >= COLLISION_OPACITY
            } else {
                true
            }
        } else {
            true
        }
    }
}

/// The most columns or rows of cells a collision field can have: a cell is
/// known by two `i32` coordinates.
pub const MAX_COLLISION_CELLS: usize = 0x7fff_ffff;

/// Which cells of the map are blocked: a rectangle of cells, fixed once it
/// is built. The image it was built from lies over the whole map, and a cell
/// is a square of `COLLISION_GRID_RESOLUTION` pixels of it; what is left of
/// the image past the last whole square has no cell.
pub struct CollisionField {
    width: usize,
    height: usize,
    cols: usize,
    rows: usize,
    blocked: Cells<bool>,
    dims: Vec2,
}

impl View for CollisionField {
    type V = Map<(int, int), bool>;

    /// The blocked flag of every cell that has one.
    closed spec fn view(&self) -> Map<(int, int), bool> {
        self.blocked@
    }
}

impl CollisionField {
    /// The number of columns of cells.
    pub closed spec fn cols(&self) -> int {
        self.cols as int
    }

    /// The number of rows of cells.
    pub closed spec fn rows(&self) -> int {
        self.rows as int
    }

    /// The width of the image, in pixels.
    pub closed spec fn width(&self) -> int {
        self.width as int
    }

    /// The height of the image, in pixels.
    pub closed spec fn height(&self) -> int {
        self.height as int
    }

    /// The width and height of the map that the image covers.
    pub closed spec fn dims(&self) -> Vec2 {
        self.dims
    }

    /// The field is well formed when it has a cell for every whole square of
    /// the image, and a flag for every cell of that rectangle and no other.
    pub closed spec fn wf(&self) -> bool {
        &&& self.cols == self.width / COLLISION_GRID_RESOLUTION
        &&& self.rows == self.height / COLLISION_GRID_RESOLUTION
        &&& self.cols <= MAX_COLLISION_CELLS
        &&& self.rows <= MAX_COLLISION_CELLS
        &&& forall|c: (int, int)|
            self.blocked@.contains_key(c) <==> 0 <= c.0 < self.cols && 0 <= c.1 < self.rows
    }

    /// The cell that holds the point `rel`, counted from the map's corner.
    /// A cell is as wide as the map over a quarter of the image's width, the
    /// quarter not rounded: along each axis the cell is the coordinate times
    /// the image's length over four times the map's length, rounded down.
    pub open spec fn cell_at(&self, rel: (int, int)) -> (int, int) {
        (
            (rel.0 * self.width()) / (4 * self.dims().x),
            (rel.1 * self.height()) / (4 * self.dims().y),
        )
    }

    /// Whether the point `rel`, counted from the map's corner, is blocked:
    /// the flag of its cell, and blocked wherever there is no cell.
    pub open spec fn blocked_at(&self, rel: (int, int)) -> bool {
        if self.dims().x > 0 && self.dims().y > 0 && self@.contains_key(self.cell_at(rel)) {
            self@[self.cell_at(rel)]
        } else {
            true
        }
    }

    /// The cells of a well-formed field are those of its rectangle.
    pub proof fn lemma_domain(&self, c: (int, int))
        requires
            self.wf(),
        ensures
            self@.contains_key(c) <==> 0 <= c.0 < self.cols() && 0 <= c.1 < self.rows(),
    {
    }

    /// A field without cells: everything is blocked.
    pub fn empty() -> (f: Self)
        ensures
            f.wf(),
            f.cols() == 0,
            f.rows() == 0,
            f@ == Map::<(int, int), bool>::empty(),
    {
        CollisionField {
            width: 0,
            height: 0,
            cols: 0,
            rows: 0,
            blocked: Cells::new(),
            dims: Vec2 { x: 0, y: 0 },
        }
    }

    /// The field of a map of the size `map_dims` under the image `col_map`:
    /// one cell for every whole square of `COLLISION_GRID_RESOLUTION` pixels,
    /// blocked where the pixel at the square's centre is opaque.
    pub fn build(col_map: &Mask, map_dims: &Vec2) -> (f: Self)
        requires
            col_map.width / COLLISION_GRID_RESOLUTION <= MAX_COLLISION_CELLS,
            col_map.height / COLLISION_GRID_RESOLUTION <= MAX_COLLISION_CELLS,
        ensures
            f.wf(),
            f.width() == col_map.width,
            f.height() == col_map.height,
            f.cols() == col_map.width / COLLISION_GRID_RESOLUTION,
            f.rows() == col_map.height / COLLISION_GRID_RESOLUTION,
            f.dims() == *map_dims,
            forall|c: (int, int)|
                0 <= c.0 < f.cols() && 0 <= c.1 < f.rows() ==> #[trigger] f@[c] == col_map.opaque_at(
                    c.0 * 4 + 2,
                    c.1 * 4 + 2,
                ),
    {
        let cols: usize = col_map.width / COLLISION_GRID_RESOLUTION;
        let rows: usize = col_map.height / COLLISION_GRID_RESOLUTION;
        let mut blocked: Cells<bool> = Cells::new();
        let mut x: usize = 0;
        while x < cols
            invariant
                0 <= x <= cols <= MAX_COLLISION_CELLS,
                rows <= MAX_COLLISION_CELLS,
                cols == col_map.width / COLLISION_GRID_RESOLUTION,
                rows == col_map.height / COLLISION_GRID_RESOLUTION,
                forall|c: (int, int)|
                    blocked@.contains_key(c) <==> 0 <= c.0 < x && 0 <= c.1 < rows,
                forall|c: (int, int)|
                    0 <= c.0 < x && 0 <= c.1 < rows ==> #[trigger] blocked@[c] == col_map.opaque_at(
                        c.0 * 4 + 2,
                        c.1 * 4 + 2,
                    ),
            decreases cols - x,
        {
            let mut y: usize = 0;
            while y < rows
                invariant
                    0 <= y <= rows <= MAX_COLLISION_CELLS,
                    0 <= x < cols <= MAX_COLLISION_CELLS,
                    cols == col_map.width / COLLISION_GRID_RESOLUTION,
                    rows == col_map.height / COLLISION_GRID_RESOLUTION,
                    forall|c: (int, int)|
                        blocked@.contains_key(c) <==> (0 <= c.0 < x && 0 <= c.1 < rows) || (c.0 == x
                            && 0 <= c.1 < y),
                    forall|c: (int, int)|
                        (0 <= c.0 < x && 0 <= c.1 < rows) || (c.0 == x && 0 <= c.1 < y)
                            ==> #[trigger] blocked@[c] == col_map.opaque_at(c.0 * 4 + 2, c.1 * 4 + 2),
                decreases rows - y,
            {
                let flag: bool = col_map.blocks(x * 4 + 2, y * 4 + 2);
                blocked.put((x as i32, y as i32), flag);
                y += 1;
            }
            x += 1;
        }
        CollisionField {
            width: col_map.width,
            height: col_map.height,
            cols,
            rows,
            blocked,
            dims: *map_dims,
        }
    }

    /// Whether the point `rel`, counted from the map's corner, is blocked.
    pub fn blocked(&self, rel_x: i64, rel_y: i64) -> (b: bool)
        requires
            self.wf(),
            -0x1_0000_0000 <= rel_x <= 0x1_0000_0000,
            -0x1_0000_0000 <= rel_y <= 0x1_0000_0000,
        ensures
            b == self.blocked_at((rel_x as int, rel_y as int)),
    {
        if self.dims.x <= 0 || self.dims.y <= 0 {
            return true;
        }
        assert(-0x1_0000_0000 * 0x1_0000_0000_0000_0000 <= rel_x * self.width <= 0x1_0000_0000
            * 0x1_0000_0000_0000_0000) by (nonlinear_arith)
            requires
                -0x1_0000_0000 <= rel_x <= 0x1_0000_0000,
                0 <= self.width <= 0x1_0000_0000_0000_0000,
        ;
        assert(-0x1_0000_0000 * 0x1_0000_0000_0000_0000 <= rel_y * self.height <= 0x1_0000_0000
            * 0x1_0000_0000_0000_0000) by (nonlinear_arith)
            requires
                -0x1_0000_0000 <= rel_y <= 0x1_0000_0000,
                0 <= self.height <= 0x1_0000_0000_0000_0000,
        ;
        let kx: i128 = floor_div_wide(
            (rel_x as i128) * (self.width as i128),
            4 * (self.dims.x as i128),
        );
        let ky: i128 = floor_div_wide(
            (rel_y as i128) * (self.height as i128),
            4 * (self.dims.y as i128),
        );
        if 0 <= kx && kx < self.cols as i128 && 0 <= ky && ky < self.rows as i128 {
            match self.blocked.get((kx as i32, ky as i32)) {
                Some(flag) => *flag,
                None => true,
            }
        } else {
            true
        }
    }
}

pub struct World {
    pub food: FoodWorld,
    pub marker: MarkerWorld,
    pub collision: CollisionField,
    /// The corner of the map with the smallest coordinates.
    pub map_tl: Vec2,
    pub hive: Hive,
}

/// A world as the rules of the simulation read it: what the two fields
/// hold, the hive, and the collision field.
pub struct Land {
    pub food: FoodCells,
    pub food_size: int,
    /// The number given out last to a piece of food.
    pub food_issued: int,
    pub markers: MarkerCells,
    pub marker_size: int,
    pub hive: Hive,
    pub collision: CollisionField,
    pub map_tl: Vec2,
}

impl Land {
    /// A land is well formed when its fields are.
    pub open spec fn wf(self) -> bool {
        &&& crate::food::field_wf(self.food, self.food_size, self.food_issued)
        &&& crate::markers::field_wf(self.markers, self.marker_size)
        &&& self.collision.wf()
    }

    /// Whether nobody can stand at `pos`: the flag of the collision cell
    /// that holds it, and blocked wherever there is no cell.
    pub open spec fn blocked(self, pos: Vec2) -> bool {
        self.collision.blocked_at((pos.x - self.map_tl.x, pos.y - self.map_tl.y))
    }
}

impl View for World {
    type V = Land;

    open spec fn view(&self) -> Land {
        Land {
            food: self.food@,
            food_size: self.food.grid_size(),
            food_issued: self.food.issued(),
            markers: self.marker@,
            marker_size: self.marker.grid_size(),
            hive: self.hive,
            collision: self.collision,
            map_tl: self.map_tl,
        }
    }
}

impl World {
    /// Whether the world is well formed.
    pub open spec fn wf(&self) -> bool {
        self@.wf()
    }

    /// A world without markers, food or collision cells round the given
    /// hive, its map's corner at `MAP_TOPLEFT`.
    pub fn new(hive: Hive) -> (w: Self)
        ensures
            w.wf(),
            w@.hive == hive,
            w@.map_tl == (Vec2 { x: MAP_TOPLEFT, y: MAP_TOPLEFT }),
            w@.food == Map::<(int, int), Map<usize, crate::food::Food>>::empty(),
            w@.food_size == FOOD_WORLD_GRID_SIZE,
            w@.food_issued == 0,
            w@.markers == Map::<(int, int), Seq<crate::markers::Marker>>::empty(),
            w@.marker_size == MARK_WORLD_GRID_SIZE,
            w@.collision@ == Map::<(int, int), bool>::empty(),
    {
        World {
            food: FoodWorld::new(FOOD_WORLD_GRID_SIZE),
            marker: MarkerWorld::new(MARK_WORLD_GRID_SIZE),
            collision: CollisionField::empty(),
            map_tl: Vec2 { x: MAP_TOPLEFT, y: MAP_TOPLEFT },
            hive,
        }
    }

    /// Lays the collision field of a map of the size `map_dims` under the
    /// image `col_map`.
    pub fn init(&mut self, col_map: &Mask, map_dims: &Vec2)
        requires
            col_map.width / COLLISION_GRID_RESOLUTION <= MAX_COLLISION_CELLS,
            col_map.height / COLLISION_GRID_RESOLUTION <= MAX_COLLISION_CELLS,
            old(self).wf(),
        ensures
            final(self).wf(),
            final(self).food == old(self).food,
            final(self).marker == old(self).marker,
            final(self).hive == old(self).hive,
            final(self).map_tl == old(self).map_tl,
            final(self).collision.width() == col_map.width,
            final(self).collision.height() == col_map.height,
            final(self).collision.cols() == col_map.width / COLLISION_GRID_RESOLUTION,
            final(self).collision.rows() == col_map.height / COLLISION_GRID_RESOLUTION,
            final(self).collision.dims() == *map_dims,
            forall|c: (int, int)|
                0 <= c.0 < final(self).collision.cols() && 0 <= c.1 < final(self).collision.rows()
                    ==> #[trigger] final(self).collision@[c] == col_map.opaque_at(
                    c.0 * 4 + 2,
                    c.1 * 4 + 2,
                ),
    {
        self.collision = CollisionField::build(col_map, map_dims);
    }

    /// Whether nobody can stand at `pos`. A position outside the cells of
    /// the collision field is blocked.
    pub fn is_collision(&self, pos: &Vec2) -> (b: bool)
        requires
            self.wf(),
        ensures
            b == self@.blocked(*pos),
            !self.collision@.contains_key(
                self.collision.cell_at((pos.x - self.map_tl.x, pos.y - self.map_tl.y)),
            ) ==> b,
    {
        self.collision.blocked(
            pos.x as i64 - self.map_tl.x as i64,
            pos.y as i64 - self.map_tl.y as i64,
        )
    }
}

} // verus!
