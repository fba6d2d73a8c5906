//! The integer side of a spatial index: grid cells and the entries they hold.
//!
//! Positions are mapped to cells of a square grid; an entity is held by the
//! cell it is in, and may be noted in the cells around it that it reaches.

use vstd::prelude::*;
use crate::id::EntityId;

verus! {

/// A cell of the grid, by its column and row.
#[derive(Debug, Default, Clone, Copy, PartialEq, Eq, Structural, PartialOrd, Ord, Hash)]
pub struct SpatialIndexGridVector2D(pub i32, pub i32);

/// What a cell holds of an entity.
#[derive(Debug, Clone, Copy, PartialEq, Eq, Structural, Hash)]
pub enum SpatialIndexEntry {
    /// The entity is in this cell.
    InGrid(EntityId),
    /// The entity is in the given nearby cell, and reaches into this one.
    Nearby(EntityId, SpatialIndexGridVector2D),
}

impl SpatialIndexEntry {
    /// The entity of the entry, wherever it is.
    pub fn into_inner_entity(&self) -> (r: EntityId)
        ensures
            r == (match *self {
                SpatialIndexEntry::InGrid(entity) => entity,
                SpatialIndexEntry::Nearby(entity, _) => entity,
            }),
    {
        match self {
            SpatialIndexEntry::InGrid(entity) => *entity,
            SpatialIndexEntry::Nearby(entity, _) => *entity,
        }
    }
}

/// The cell and its eight neighbours: first the cell, then the four sharing
/// a side, then the four sharing a corner.
pub fn neighboring_xy(grid: SpatialIndexGridVector2D) -> (r: [SpatialIndexGridVector2D; 9])
    requires
        i32::MIN < grid.0 < i32::MAX,
        i32::MIN < grid.1 < i32::MAX,
    ensures
        r@ == seq![
            SpatialIndexGridVector2D(grid.0, grid.1),
            SpatialIndexGridVector2D((grid.0 - 1) as i32, grid.1),
            SpatialIndexGridVector2D((grid.0 + 1) as i32, grid.1),
            SpatialIndexGridVector2D(grid.0, (grid.1 - 1) as i32),
            SpatialIndexGridVector2D(grid.0, (grid.1 + 1) as i32),
            SpatialIndexGridVector2D((grid.0 - 1) as i32, (grid.1 + 1) as i32),
            SpatialIndexGridVector2D((grid.0 + 1) as i32, (grid.1 + 1) as i32),
            SpatialIndexGridVector2D((grid.0 - 1) as i32, (grid.1 - 1) as i32),
            SpatialIndexGridVector2D((grid.0 + 1) as i32, (grid.1 - 1) as i32),
        ],
{
    let (x, y) = (grid.0, grid.1);
    let r = [
        SpatialIndexGridVector2D(x, y),
        SpatialIndexGridVector2D(x - 1, y),
        SpatialIndexGridVector2D(x + 1, y),
        SpatialIndexGridVector2D(x, y - 1),
        SpatialIndexGridVector2D(x, y + 1),
        SpatialIndexGridVector2D(x - 1, y + 1),
        SpatialIndexGridVector2D(x + 1, y + 1),
        SpatialIndexGridVector2D(x - 1, y - 1),
        SpatialIndexGridVector2D(x + 1, y - 1),
    ];
    assert(r@ =~= seq![
        SpatialIndexGridVector2D(grid.0, grid.1),
        SpatialIndexGridVector2D((grid.0 - 1) as i32, grid.1),
        SpatialIndexGridVector2D((grid.0 + 1) as i32, grid.1),
        SpatialIndexGridVector2D(grid.0, (grid.1 - 1) as i32),
        SpatialIndexGridVector2D(grid.0, (grid.1 + 1) as i32),
        SpatialIndexGridVector2D((grid.0 - 1) as i32, (grid.1 + 1) as i32),
        SpatialIndexGridVector2D((grid.0 + 1) as i32, (grid.1 + 1) as i32),
        SpatialIndexGridVector2D((grid.0 - 1) as i32, (grid.1 - 1) as i32),
        SpatialIndexGridVector2D((grid.0 + 1) as i32, (grid.1 - 1) as i32),
    ]);
    r
}

/// Law: the cell is among its neighbourhood, and every cell of the
/// neighbourhood is at most one column and one row away from it.
pub proof fn lemma_neighbourhood_adjacent(grid: SpatialIndexGridVector2D, cells: Seq<SpatialIndexGridVector2D>)
    requires
        i32::MIN < grid.0 < i32::MAX,
        i32::MIN < grid.1 < i32::MAX,
        cells == seq![
            SpatialIndexGridVector2D(grid.0, grid.1),
            SpatialIndexGridVector2D((grid.0 - 1) as i32, grid.1),
            SpatialIndexGridVector2D((grid.0 + 1) as i32, grid.1),
            SpatialIndexGridVector2D(grid.0, (grid.1 - 1) as i32),
            SpatialIndexGridVector2D(grid.0, (grid.1 + 1) as i32),
            SpatialIndexGridVector2D((grid.0 - 1) as i32, (grid.1 + 1) as i32),
            SpatialIndexGridVector2D((grid.0 + 1) as i32, (grid.1 + 1) as i32),
            SpatialIndexGridVector2D((grid.0 - 1) as i32, (grid.1 - 1) as i32),
            SpatialIndexGridVector2D((grid.0 + 1) as i32, (grid.1 - 1) as i32),
        ],
    ensures
        cells[0] == grid,
        forall|i: int| 0 <= i < cells.len() ==> -1 <= #[trigger] cells[i].0 - grid.0 <= 1 && -1 <= cells[i].1 - grid.1 <= 1,
        forall|i: int, j: int| 0 <= i < j < cells.len() ==> #[trigger] cells[i] != #[trigger] cells[j],
{
}

} // verus!
