//! Grid addressing: integer cells, tile addresses, and world positions.
//!
//! World positions are measured in thousandths of a pixel so that the
//! simulation can use exact integer arithmetic.
use vstd::prelude::*;

verus! {

/// Width of the playfield, in cells.
pub const MAP_WIDTH: i32 = 16;

/// Height of the playfield, in cells.
pub const MAP_HEIGHT: i32 = 16;

/// Side of one cell, in pixels.
pub const TILE_SIZE: i32 = 48;

/// World units per pixel.
pub const UNITS_PER_PIXEL: i64 = 1000;

/// Side of one cell, in world units.
pub const CELL_UNITS: i64 = 48000;

/// A position in the world, in thousandths of a pixel.
#[derive(Clone, Copy, Debug, PartialEq, Eq, Structural)]
pub struct WorldPos {
    pub x: i64,
    pub y: i64,
}

/// A tile address: a cell and the layer that a tile occupies on it.
#[derive(Clone, Copy, Debug, PartialEq, Eq, Hash, Structural)]
pub struct TileAddress {
    pub x: i32,
    pub y: i32,
    pub layer: i32,
}

impl TileAddress {
    /// The address of a layer of a cell.
    pub fn new(x: i32, y: i32, layer: i32) -> (r: TileAddress)
        ensures
            r == (TileAddress { x, y, layer }),
    {
        TileAddress { x, y, layer }
    }

    /// The cell of this address.
    pub fn cell(&self) -> (r: (i32, i32))
        ensures
            r == (self.x, self.y),
    {
        (self.x, self.y)
    }
}

/// Largest level offset, in world units, that the arithmetic below admits.
pub const OFFSET_LIMIT: i64 = 1_000_000_000_000_000;

/// An offset that keeps every cell's world position within `i64`.
pub open spec fn offset_ok(offset: WorldPos) -> bool {
    -OFFSET_LIMIT <= offset.x <= OFFSET_LIMIT && -OFFSET_LIMIT <= offset.y <= OFFSET_LIMIT
}

/// The world coordinate of the centre of cell `c` along one axis.
pub open spec fn center_of(c: int, offset: int) -> int {
    48000 * c + 24000 + offset
}

/// The cell that holds world coordinate `p` along one axis (floor division).
pub open spec fn cell_of(p: int, offset: int) -> int {
    (p - offset) / 48000
}

/// The world position of the centre of a cell, for a level drawn at `offset`.
pub fn grid_to_world(offset: WorldPos, cell: (i32, i32)) -> (r: WorldPos)
    requires
        offset_ok(offset),
    ensures
        r.x == center_of(cell.0 as int, offset.x as int),
        r.y == center_of(cell.1 as int, offset.y as int),
{
    WorldPos {
        x: CELL_UNITS * (cell.0 as i64) + CELL_UNITS / 2 + offset.x,
        y: CELL_UNITS * (cell.1 as i64) + CELL_UNITS / 2 + offset.y,
    }
}

/// Floor division by the cell size, rounding toward negative infinity.
fn floor_cells(d: i128) -> (r: i128)
    ensures
        r == d / 48000,
{
    let q = d / 48000;
    let m = d % 48000;
    if m < 0 {
        q - 1
    } else {
        q
    }
}

/// The cell that holds a world position, for a level drawn at `offset`; `None`
/// where that cell lies outside the range of `i32`.
pub fn world_to_grid(offset: WorldPos, pos: WorldPos) -> (r: Option<(i32, i32)>)
    ensures
        match r {
            Some(c) => c.0 == cell_of(pos.x as int, offset.x as int) && c.1 == cell_of(
                pos.y as int,
                offset.y as int,
            ),
            None => !(i32::MIN <= cell_of(pos.x as int, offset.x as int) <= i32::MAX) || !(i32::MIN
                <= cell_of(pos.y as int, offset.y as int) <= i32::MAX),
        },
{
    let cx = floor_cells(pos.x as i128 - offset.x as i128);
    let cy = floor_cells(pos.y as i128 - offset.y as i128);
    if i32::MIN as i128 <= cx && cx <= i32::MAX as i128 && i32::MIN as i128 <= cy && cy
        <= i32::MAX as i128 {
        Some((cx as i32, cy as i32))
    } else {
        None
    }
}

/// Every cell comes back from the centre of itself.
pub proof fn lemma_grid_world_round_trip(offset: WorldPos, cell: (i32, i32))
    requires
        offset_ok(offset),
    ensures
        cell_of(center_of(cell.0 as int, offset.x as int), offset.x as int) == cell.0,
        cell_of(center_of(cell.1 as int, offset.y as int), offset.y as int) == cell.1,
{
    lemma_axis_round_trip(cell.0 as int, offset.x as int);
    lemma_axis_round_trip(cell.1 as int, offset.y as int);
}

proof fn lemma_axis_round_trip(c: int, o: int)
    ensures
        cell_of(center_of(c, o), o) == c,
{
    assert((48000 * c + 24000) / 48000 == c) by (nonlinear_arith);
}

} // verus!
