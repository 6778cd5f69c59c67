//! Verified core of a tactics-game battlefield: a sparse 3D voxel grid of
//! typed cells, field units with range budgets, and a range finder that
//! computes the tree of cells a unit can reach by bounded traversal with
//! slope-climbing and fall rules, later flattened into a highlight set.
use vstd::prelude::*;

pub mod chartype;
pub mod coordmap;
pub mod coords;
pub mod fieldcharacter;
pub mod fieldgridmap;
pub mod laws;
pub mod vectree;

verus! {

/// Cell value marking an empty / unoccupied grid cell.  All other cell
/// values encode a base type plus a variant offset in `[0, block_type_len)`.
pub const EMPTY_CELL: i32 = -1;

} // verus!
