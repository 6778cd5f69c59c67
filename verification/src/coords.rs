//! Integer 3-vector addresses of grid cells, and their mathematical model.
use vstd::prelude::*;

verus! {

/// One voxel address in the battlefield grid.
#[derive(Clone, Copy, PartialEq, Eq, Structural, Debug)]
pub struct CellCoord {
    pub x: i32,
    pub y: i32,
    pub z: i32,
}

/// Mathematical model of a cell coordinate: the same three components as
/// unbounded integers.
pub ghost struct GridCoord {
    pub x: int,
    pub y: int,
    pub z: int,
}

impl View for CellCoord {
    type V = GridCoord;

    open spec fn view(&self) -> GridCoord {
        GridCoord { x: self.x as int, y: self.y as int, z: self.z as int }
    }
}

impl CellCoord {
    pub fn new(x: i32, y: i32, z: i32) -> (r: CellCoord)
        ensures
            r@ == (GridCoord { x: x as int, y: y as int, z: z as int }),
    {
        CellCoord { x, y, z }
    }

    /// The coordinate one level below this one.
    pub fn below(self) -> (r: CellCoord)
        requires
            self.y > i32::MIN,
        ensures
            r@ == self@.down(),
    {
        CellCoord { x: self.x, y: self.y - 1, z: self.z }
    }
}

/// The models of a sequence of coordinates, in order.
pub open spec fn coords_view(s: Seq<CellCoord>) -> Seq<GridCoord> {
    s.map_values(|c: CellCoord| c@)
}

/// The model of an optional coordinate.
pub open spec fn opt_view(o: Option<CellCoord>) -> Option<GridCoord> {
    match o {
        Some(c) => Some(c@),
        None => None,
    }
}

impl GridCoord {
    /// The coordinate one level above.
    pub open spec fn up(self) -> GridCoord {
        GridCoord { x: self.x, y: self.y + 1, z: self.z }
    }

    /// The coordinate one level below.
    pub open spec fn down(self) -> GridCoord {
        GridCoord { x: self.x, y: self.y - 1, z: self.z }
    }

    /// The horizontal neighbour in direction `dir`, for `dir` in `0..4`:
    /// `+x`, `-x`, `+z`, `-z`, in the order the traversal probes them.
    pub open spec fn neighbour(self, dir: int) -> GridCoord {
        if dir == 0 {
            GridCoord { x: self.x + 1, y: self.y, z: self.z }
        } else if dir == 1 {
            GridCoord { x: self.x - 1, y: self.y, z: self.z }
        } else if dir == 2 {
            GridCoord { x: self.x, y: self.y, z: self.z + 1 }
        } else {
            GridCoord { x: self.x, y: self.y, z: self.z - 1 }
        }
    }
}

/// Absolute value of an integer.
pub open spec fn abs(i: int) -> int {
    if i < 0 {
        -i
    } else {
        i
    }
}

/// Manhattan distance between two coordinates on the horizontal plane,
/// ignoring the vertical component.
pub open spec fn manhattan(a: GridCoord, b: GridCoord) -> int {
    abs(a.x - b.x) + abs(a.z - b.z)
}

} // verus!
