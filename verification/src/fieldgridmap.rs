//! The battlefield grid: a sparse 3D map of typed cells, its configuration,
//! the overlay-highlight store, and the index of units standing on it.
use vstd::prelude::*;
use crate::EMPTY_CELL;
use crate::coordmap::CoordMap;
use crate::coords::CellCoord;
use crate::coords::GridCoord;
use crate::coords::coords_view;
use crate::coords::opt_view;
use crate::fieldcharacter::FieldCharacter;
use crate::fieldcharacter::lemma_range_tree_above_floor;
use crate::fieldcharacter::range_tree_spec;
use crate::fieldcharacter::traversal_fits;
use crate::vectree::VecTree;
use crate::vectree::flat_seq;
use crate::vectree::forest_flat;
use crate::vectree::forest_view;
use crate::vectree::lemma_forest_flat_push;
use crate::vectree::lemma_forest_view_push;
use crate::vectree::node_flat;
use crate::vectree::tree_view;

verus! {

/// Mathematical model of the battlefield grid: the cell mapping, the
/// configuration the traversal rules read, the coordinates units occupy,
/// and the optional traversal restrictions.
pub ghost struct GridModel {
    pub cells: Map<GridCoord, i32>,
    pub block_type_len: int,
    pub slope_index: int,
    pub max_fall: nat,
    pub occupied: Set<GridCoord>,
    pub block_occupied: bool,
    pub bounds: Option<(GridCoord, GridCoord)>,
}

/// Whether `c` lies within the grid's configured bounds; a grid without
/// bounds admits every coordinate.
pub open spec fn in_bounds(g: GridModel, c: GridCoord) -> bool {
    match g.bounds {
        None => true,
        Some((lo, hi)) => lo.x <= c.x <= hi.x && lo.y <= c.y <= hi.y && lo.z <= c.z <= hi.z,
    }
}

/// Whether a traversal step may end in the cell at `c`: the cell itself is
/// empty, it is not the position of a unit where occupancy blocking is on,
/// and it lies within the configured bounds.
pub open spec fn enterable(g: GridModel, c: GridCoord) -> bool {
    &&& cell_at(g, c) == EMPTY_CELL as int
    &&& !(g.block_occupied && g.occupied.contains(c))
    &&& in_bounds(g, c)
}

/// The cell value stored at `c`, or the empty sentinel where unset.
pub open spec fn cell_value(cells: Map<GridCoord, i32>, c: GridCoord) -> int {
    if cells.contains_key(c) {
        cells[c] as int
    } else {
        EMPTY_CELL as int
    }
}

/// The cell value the grid `g` holds at `c`.
pub open spec fn cell_at(g: GridModel, c: GridCoord) -> int {
    cell_value(g.cells, c)
}

/// The base type of a non-empty cell value: the value with its variant
/// offset in `[0, block_type_len)` stripped.
pub open spec fn base_of(v: int, btl: int) -> int
    recommends
        v >= 0,
        btl >= 1,
{
    v - v % btl
}

/// Whether the cell at `c` is a climbable slope tile: it is set, and its
/// base type is the configured slope marker.
pub open spec fn is_slope(g: GridModel, c: GridCoord) -> bool {
    cell_at(g, c) != EMPTY_CELL as int && base_of(cell_at(g, c), g.block_type_len)
        == g.slope_index
}

/// Stores `v` at `c`; storing the empty sentinel unsets the coordinate.
pub open spec fn store(cells: Map<GridCoord, i32>, c: GridCoord, v: int) -> Map<GridCoord, i32>
    recommends
        EMPTY_CELL as int <= v <= i32::MAX as int,
{
    if v == EMPTY_CELL as int {
        cells.remove(c)
    } else {
        cells.insert(c, v as i32)
    }
}

/// The base an overlay write keeps when repainting the cell at hand: the
/// stored value's base type, where the empty sentinel behaves as the value
/// the subtraction of its variant offset leaves.
pub open spec fn overlay_value(v: int, btl: int) -> int
    recommends
        v == EMPTY_CELL as int || v >= 0,
        btl >= 1,
{
    if v == EMPTY_CELL as int {
        if btl == 1 {
            EMPTY_CELL as int
        } else {
            0
        }
    } else {
        base_of(v, btl)
    }
}

/// One overlay write: the cell at `c` keeps its base type and takes the
/// highlight offset `off` as its new variant offset.
pub open spec fn overlay_step(
    cells: Map<GridCoord, i32>,
    c: GridCoord,
    off: int,
    btl: int,
) -> Map<GridCoord, i32> {
    store(cells, c, overlay_value(cell_value(cells, c), btl) + off)
}

/// The variant offset a cell value carries: what remains of the value once
/// its base type is stripped.  The empty sentinel keeps its own remainder,
/// so that writing the offset back over the cell's base restores the value,
/// an empty cell staying empty.
pub open spec fn variant_of(v: int, btl: int) -> int
    recommends
        v == EMPTY_CELL as int || v >= 0,
        btl >= 1,
{
    if v == EMPTY_CELL as int {
        if btl == 1 {
            0
        } else {
            EMPTY_CELL as int
        }
    } else {
        v % btl
    }
}

/// A cell value splits exactly into the base an overlay write keeps and the
/// variant offset it replaces: repainting a cell with its own variant offset
/// restores the stored value, and an empty cell stays empty.
pub proof fn lemma_overlay_restores(v: int, btl: int)
    requires
        btl >= 1,
        v == EMPTY_CELL as int || v >= 0,
    ensures
        overlay_value(v, btl) + variant_of(v, btl) == v,
{
}

/// A cell value the grid may hold: non-negative, with room above its base
/// type for a whole variant range.
pub open spec fn valid_cell_value(v: int, btl: int) -> bool {
    0 <= v && base_of(v, btl) + btl <= i32::MAX as int
}

/// Every stored cell value is valid for the configured variant-range width.
pub open spec fn cells_ok(cells: Map<GridCoord, i32>, btl: int) -> bool {
    forall|c: GridCoord|
        cells.contains_key(c) ==> valid_cell_value(#[trigger] cells[c] as int, btl)
}

/// An overlay write yields a storable value again, and it keeps the base it
/// wrote: repainting a repainted cell finds the same base.
pub proof fn lemma_overlay_result(v: int, off: int, btl: int)
    requires
        1 <= btl <= i32::MAX as int,
        0 <= off < btl,
        v == EMPTY_CELL as int || valid_cell_value(v, btl),
    ensures
        ({
            let w = overlay_value(v, btl) + off;
            &&& w == EMPTY_CELL as int || valid_cell_value(w, btl)
            &&& overlay_value(w, btl) == overlay_value(v, btl)
            &&& EMPTY_CELL as int <= w <= i32::MAX as int
        }),
{
    let w = overlay_value(v, btl) + off;
    if v == EMPTY_CELL as int && btl == 1 {
        assert(w == EMPTY_CELL as int);
    } else if v == EMPTY_CELL as int {
        assert(w == off);
        vstd::arithmetic::div_mod::lemma_fundamental_div_mod_converse_mod(off, btl, 0, off);
        assert(base_of(off, btl) == 0);
    } else {
        let b = base_of(v, btl);
        vstd::arithmetic::div_mod::lemma_fundamental_div_mod(v, btl);
        assert(b == (v / btl) * btl);
        vstd::arithmetic::div_mod::lemma_fundamental_div_mod_converse_mod(
            b + off,
            btl,
            v / btl,
            off,
        );
        assert((b + off) % btl == off);
        assert(base_of(w, btl) == b);
    }
}

/// Overlay writes applied in order, one per listed coordinate.
pub open spec fn apply_overlays(
    cells: Map<GridCoord, i32>,
    s: Seq<GridCoord>,
    off: int,
    btl: int,
) -> Map<GridCoord, i32>
    decreases s.len(),
{
    if s.len() == 0 {
        cells
    } else {
        apply_overlays(overlay_step(cells, s[0], off, btl), s.drop_first(), off, btl)
    }
}

pub proof fn lemma_apply_overlays_concat(
    cells: Map<GridCoord, i32>,
    a: Seq<GridCoord>,
    b: Seq<GridCoord>,
    off: int,
    btl: int,
)
    ensures
        apply_overlays(cells, a + b, off, btl) == apply_overlays(
            apply_overlays(cells, a, off, btl),
            b,
            off,
            btl,
        ),
    decreases a.len(),
{
    if a.len() == 0 {
        assert(a + b =~= b);
    } else {
        assert((a + b)[0] == a[0]);
        assert((a + b).drop_first() =~= a.drop_first() + b);
        lemma_apply_overlays_concat(overlay_step(cells, a[0], off, btl), a.drop_first(), b, off, btl);
    }
}

/// The state the overlay clearing pass folds over its recorded cells: the
/// cell mapping and the remembered offset under the mouse.  Cells under the
/// mouse keep their highlight and reset the remembered offset.
pub open spec fn clear_steps(
    cells: Map<GridCoord, i32>,
    lho: int,
    s: Seq<GridCoord>,
    mc: Option<GridCoord>,
    hoff: int,
    btl: int,
) -> (Map<GridCoord, i32>, int)
    decreases s.len(),
{
    if s.len() == 0 {
        (cells, lho)
    } else {
        let hit = mc == Some(s[0]);
        let off = if hit {
            hoff
        } else {
            0
        };
        let lho1 = if hit {
            0
        } else {
            lho
        };
        clear_steps(overlay_step(cells, s[0], off, btl), lho1, s.drop_first(), mc, hoff, btl)
    }
}

/// The battlefield.  Cells are looked up by integer coordinate; unset
/// coordinates behave as empty.  Configuration: `block_type_len` is the
/// variant-range width of cell-type codes, `slope_index` the base type that
/// marks a climbable slope, `max_fall` the farthest supported drop in cells
/// that a traversal step may fall, and the four highlight offsets are the
/// variant offsets overlay writes use per range category.  Two optional
/// traversal restrictions, both off by default: `block_occupied` makes cells
/// that units stand in illegal to enter, and `use_bounds` clips the
/// traversal to the box from `bounds_min` to `bounds_max`.
pub struct FieldGripMap {
    pub cells: CoordMap<i32>,
    pub char_refs: CoordMap<FieldCharacter>,
    pub focused_char: Option<FieldCharacter>,
    pub focus_highlighted_cells: Vec<CellCoord>,
    pub last_mouse_coords: Option<CellCoord>,
    pub last_highlight_cell_offset: i32,
    pub highlight_offset: i32,
    pub highlight_move_offset: i32,
    pub highlight_attack_offset: i32,
    pub highlight_heal_offset: i32,
    pub block_type_len: i32,
    pub slope_index: i32,
    pub max_fall: u32,
    pub block_occupied: bool,
    pub use_bounds: bool,
    pub bounds_min: CellCoord,
    pub bounds_max: CellCoord,
}

impl View for FieldGripMap {
    type V = GridModel;

    open spec fn view(&self) -> GridModel {
        GridModel {
            cells: self.cells@,
            block_type_len: self.block_type_len as int,
            slope_index: self.slope_index as int,
            max_fall: self.max_fall as nat,
            occupied: self.char_refs@.dom(),
            block_occupied: self.block_occupied,
            bounds: if self.use_bounds {
                Some((self.bounds_min@, self.bounds_max@))
            } else {
                None
            },
        }
    }
}

/// The configuration fields of `b` equal those of `a`.
pub open spec fn same_config(a: FieldGripMap, b: FieldGripMap) -> bool {
    &&& b.highlight_offset == a.highlight_offset
    &&& b.highlight_move_offset == a.highlight_move_offset
    &&& b.highlight_attack_offset == a.highlight_attack_offset
    &&& b.highlight_heal_offset == a.highlight_heal_offset
    &&& b.block_type_len == a.block_type_len
    &&& b.slope_index == a.slope_index
    &&& b.max_fall == a.max_fall
    &&& b.block_occupied == a.block_occupied
    &&& b.use_bounds == a.use_bounds
    &&& b.bounds_min == a.bounds_min
    &&& b.bounds_max == a.bounds_max
}

/// Everything of `b` but the cell store equals `a`.
pub open spec fn same_except_cells(a: FieldGripMap, b: FieldGripMap) -> bool {
    &&& b.char_refs == a.char_refs
    &&& b.focused_char == a.focused_char
    &&& b.focus_highlighted_cells == a.focus_highlighted_cells
    &&& b.last_mouse_coords == a.last_mouse_coords
    &&& b.last_highlight_cell_offset == a.last_highlight_cell_offset
    &&& same_config(a, b)
}

/// Everything of `b` but the cell store and the record of highlighted cells
/// equals `a`.
pub open spec fn same_except_cells_and_highlights(a: FieldGripMap, b: FieldGripMap) -> bool {
    &&& b.char_refs == a.char_refs
    &&& b.focused_char == a.focused_char
    &&& b.last_mouse_coords == a.last_mouse_coords
    &&& b.last_highlight_cell_offset == a.last_highlight_cell_offset
    &&& same_config(a, b)
}

impl FieldGripMap {
    /// A highlight offset the configuration may carry: a variant offset.
    pub open spec fn valid_offset(&self, off: int) -> bool {
        0 <= off < self.block_type_len as int
    }

    /// Well-formedness: the stores keep unique keys, the configuration is
    /// usable, and every stored cell value is valid for it.
    pub open spec fn wf(&self) -> bool {
        &&& self.cells.wf()
        &&& self.char_refs.wf()
        &&& self.block_type_len >= 1
        &&& self.valid_offset(self.highlight_offset as int)
        &&& self.valid_offset(self.highlight_move_offset as int)
        &&& self.valid_offset(self.highlight_attack_offset as int)
        &&& self.valid_offset(self.highlight_heal_offset as int)
        &&& cells_ok(self.cells@, self.block_type_len as int)
    }

    /// An empty battlefield with the given configuration.
    pub fn new(
        highlight_offset: i32,
        highlight_move_offset: i32,
        highlight_attack_offset: i32,
        highlight_heal_offset: i32,
        block_type_len: i32,
        slope_index: i32,
        max_fall: u32,
    ) -> (r: FieldGripMap)
        requires
            block_type_len >= 1,
            0 <= highlight_offset < block_type_len,
            0 <= highlight_move_offset < block_type_len,
            0 <= highlight_attack_offset < block_type_len,
            0 <= highlight_heal_offset < block_type_len,
        ensures
            r.wf(),
            r@ == (GridModel {
                cells: Map::<GridCoord, i32>::empty(),
                block_type_len: block_type_len as int,
                slope_index: slope_index as int,
                max_fall: max_fall as nat,
                occupied: Map::<GridCoord, FieldCharacter>::empty().dom(),
                block_occupied: false,
                bounds: None,
            }),
            r.char_refs@ == Map::<GridCoord, FieldCharacter>::empty(),
            r.focused_char == Option::<FieldCharacter>::None,
            r.focus_highlighted_cells@ == Seq::<CellCoord>::empty(),
            r.last_mouse_coords == Option::<CellCoord>::None,
            r.last_highlight_cell_offset == -1int,
            r.highlight_offset == highlight_offset,
            r.highlight_move_offset == highlight_move_offset,
            r.highlight_attack_offset == highlight_attack_offset,
            r.highlight_heal_offset == highlight_heal_offset,
    {
        FieldGripMap {
            cells: CoordMap::new(),
            char_refs: CoordMap::new(),
            focused_char: None,
            focus_highlighted_cells: Vec::new(),
            last_mouse_coords: None,
            last_highlight_cell_offset: -1,
            highlight_offset,
            highlight_move_offset,
            highlight_attack_offset,
            highlight_heal_offset,
            block_type_len,
            slope_index,
            max_fall,
            block_occupied: false,
            use_bounds: false,
            bounds_min: CellCoord { x: 0, y: 0, z: 0 },
            bounds_max: CellCoord { x: 0, y: 0, z: 0 },
        }
    }

    /// Turns occupancy blocking on or off: with it on, the range finder
    /// refuses to enter a cell a unit stands in.
    pub fn set_occupancy_blocking(&mut self, on: bool)
        ensures
            final(self).block_occupied == on,
            *final(self) == (FieldGripMap { block_occupied: on, ..*old(self) }),
    {
        self.block_occupied = on;
    }

    /// Clips the traversal to the box from `bounds_min` to `bounds_max`,
    /// both inclusive: the range finder refuses to step outside it.
    pub fn set_bounds(&mut self, bounds_min: CellCoord, bounds_max: CellCoord)
        ensures
            *final(self) == (FieldGripMap {
                use_bounds: true,
                bounds_min,
                bounds_max,
                ..*old(self)
            }),
    {
        self.use_bounds = true;
        self.bounds_min = bounds_min;
        self.bounds_max = bounds_max;
    }

    /// Removes the traversal bounds.
    pub fn clear_bounds(&mut self)
        ensures
            *final(self) == (FieldGripMap { use_bounds: false, ..*old(self) }),
    {
        self.use_bounds = false;
    }

    /// The cell value at `coords`; the empty sentinel where unset.
    pub fn get_cell(&self, coords: CellCoord) -> (r: i32)
        requires
            self.wf(),
        ensures
            r as int == cell_at(self@, coords@),
    {
        match self.cells.get(coords) {
            Some(v) => *v,
            None => EMPTY_CELL,
        }
    }

    /// Whether a traversal step may end in the cell at `coords`.
    pub fn can_enter(&self, coords: CellCoord) -> (r: bool)
        requires
            self.wf(),
        ensures
            r == enterable(self@, coords@),
    {
        if self.get_cell(coords) != EMPTY_CELL {
            return false;
        }
        if self.block_occupied {
            match self.char_refs.get(coords) {
                Some(_) => {
                    return false;
                },
                None => {},
            }
        }
        if self.use_bounds {
            let lo = self.bounds_min;
            let hi = self.bounds_max;
            if coords.x < lo.x || coords.x > hi.x || coords.y < lo.y || coords.y > hi.y
                || coords.z < lo.z || coords.z > hi.z {
                return false;
            }
        }
        true
    }

    /// The configured width of each cell type's variant range.
    pub fn base_type_len(&self) -> (r: i32)
        ensures
            r as int == self@.block_type_len,
    {
        self.block_type_len
    }

    /// The configured base type that marks a climbable slope tile.
    pub fn slope_marker(&self) -> (r: i32)
        ensures
            r as int == self@.slope_index,
    {
        self.slope_index
    }

    /// The variant offset of the cell at `coords`: the highlight currently
    /// painted on it.  Reading it before repainting a cell and writing it
    /// back afterwards restores the cell, an empty cell included.
    pub fn variant_offset(&self, coords: CellCoord) -> (r: i32)
        requires
            self.wf(),
        ensures
            r as int == variant_of(cell_at(self@, coords@), self@.block_type_len),
    {
        let cell_type: i32 = self.get_cell(coords);
        if cell_type == EMPTY_CELL {
            if self.block_type_len == 1 {
                0
            } else {
                EMPTY_CELL
            }
        } else {
            cell_type % self.block_type_len
        }
    }

    /// Sets the cell value at `coords`; the empty sentinel unsets it.
    /// Level data is laid down through this before play.
    pub fn set_cell(&mut self, coords: CellCoord, value: i32)
        requires
            old(self).wf(),
            value == EMPTY_CELL || valid_cell_value(value as int, old(self).block_type_len as int),
        ensures
            final(self).wf(),
            final(self)@.cells == store(old(self)@.cells, coords@, value as int),
            same_except_cells(*old(self), *final(self)),
    {
        if value == EMPTY_CELL {
            self.cells.remove(coords);
        } else {
            self.cells.insert(coords, value);
        }
    }

    /// Repaints the cell at `overlay_coords` with its own base type plus
    /// `highlight_offset`, so a highlight changes only the variant offset
    /// and never the movement-relevant base type.
    pub fn set_overlay_block(&mut self, overlay_coords: CellCoord, highlight_offset: i32)
        requires
            old(self).wf(),
            old(self).valid_offset(highlight_offset as int),
        ensures
            final(self).wf(),
            final(self)@.cells == overlay_step(
                old(self)@.cells,
                overlay_coords@,
                highlight_offset as int,
                old(self)@.block_type_len,
            ),
            same_except_cells(*old(self), *final(self)),
    {
        let cell_type: i32 = self.get_cell(overlay_coords);

        proof {
            lemma_overlay_result(
                cell_at(self@, overlay_coords@),
                highlight_offset as int,
                self@.block_type_len,
            );
        }
        // The stored value's base type; an unset cell behaves as the empty
        // sentinel with its variant offset subtracted away.
        let base: i32 = if cell_type == EMPTY_CELL {
            if self.block_type_len == 1 {
                EMPTY_CELL
            } else {
                0
            }
        } else {
            cell_type - cell_type % self.block_type_len
        };

        self.set_cell(overlay_coords, base + highlight_offset);
    }

    /// Flattens a range tree into highlight writes: the block beneath every
    /// expanded child node is repainted with `highlight_offset` and recorded,
    /// in traversal order; the root itself is not marked.
    pub fn show_range_tree(&mut self, node: &VecTree<CellCoord>, highlight_offset: i32)
        requires
            old(self).wf(),
            old(self).valid_offset(highlight_offset as int),
            crate::vectree::forest_above_floor(tree_view(*node).children),
        ensures
            final(self).wf(),
            final(self)@.cells == apply_overlays(
                old(self)@.cells,
                crate::vectree::flat_seq(tree_view(*node)),
                highlight_offset as int,
                old(self)@.block_type_len,
            ),
            coords_view(final(self).focus_highlighted_cells@) == coords_view(
                old(self).focus_highlighted_cells@,
            ) + crate::vectree::flat_seq(tree_view(*node)),
            same_except_cells_and_highlights(*old(self), *final(self)),
        decreases *node, 0int,
    {
        let mut i: usize = 0;
        proof {
            assert(node.children@.subrange(0, 0) =~= Seq::<VecTree<CellCoord>>::empty());
        }
        while i < node.children.len()
            invariant
                self.wf(),
                self.valid_offset(highlight_offset as int),
                crate::vectree::forest_above_floor(tree_view(*node).children),
                i <= node.children@.len(),
                self@.cells == apply_overlays(
                    old(self)@.cells,
                    forest_flat(forest_view(node.children@.subrange(0, i as int))),
                    highlight_offset as int,
                    old(self)@.block_type_len,
                ),
                coords_view(self.focus_highlighted_cells@) == coords_view(
                    old(self).focus_highlighted_cells@,
                ) + forest_flat(forest_view(node.children@.subrange(0, i as int))),
                same_except_cells_and_highlights(*old(self), *self),
            decreases node.children@.len() - i,
        {
            let ghost pre = node.children@.subrange(0, i as int);
            proof {
                crate::vectree::lemma_forest_view_index(node.children@);
                assert(forest_view(node.children@)[i as int] == tree_view(
                    node.children@[i as int],
                ));
                assert forall|c: GridCoord|
                    #[trigger] crate::vectree::tree_coords(
                        tree_view(node.children@[i as int]),
                    ).contains(c) implies c.y > i32::MIN as int by {
                    crate::vectree::lemma_forest_coords_index(forest_view(node.children@));
                    assert(crate::vectree::forest_coords(forest_view(node.children@)).contains(c));
                }
            }
            self.show_subtree(&node.children[i], highlight_offset);
            proof {
                assert(node.children@.subrange(0, i + 1) =~= pre.push(node.children@[i as int]));
                lemma_forest_view_push(pre, node.children@[i as int]);
                lemma_forest_flat_push(forest_view(pre), tree_view(node.children@[i as int]));
                lemma_apply_overlays_concat(
                    old(self)@.cells,
                    forest_flat(forest_view(pre)),
                    node_flat(tree_view(node.children@[i as int])),
                    highlight_offset as int,
                    old(self)@.block_type_len,
                );
                assert(coords_view(old(self).focus_highlighted_cells@) + forest_flat(
                    forest_view(pre),
                ) + node_flat(tree_view(node.children@[i as int])) =~= coords_view(
                    old(self).focus_highlighted_cells@,
                ) + (forest_flat(forest_view(pre)) + node_flat(
                    tree_view(node.children@[i as int]),
                )));
            }
            i = i + 1;
        }
        proof {
            assert(node.children@.subrange(0, node.children@.len() as int) =~= node.children@);
        }
    }

    /// Marks one whole subtree: all its children's subtrees, then the block
    /// beneath its own root.
    fn show_subtree(&mut self, node: &VecTree<CellCoord>, highlight_offset: i32)
        requires
            old(self).wf(),
            old(self).valid_offset(highlight_offset as int),
            crate::vectree::tree_above_floor(tree_view(*node)),
        ensures
            final(self).wf(),
            final(self)@.cells == apply_overlays(
                old(self)@.cells,
                node_flat(tree_view(*node)),
                highlight_offset as int,
                old(self)@.block_type_len,
            ),
            coords_view(final(self).focus_highlighted_cells@) == coords_view(
                old(self).focus_highlighted_cells@,
            ) + node_flat(tree_view(*node)),
            same_except_cells_and_highlights(*old(self), *final(self)),
        decreases *node, 1int,
    {
        proof {
            assert forall|c: GridCoord|
                #[trigger] crate::vectree::forest_coords(tree_view(*node).children).contains(
                    c,
                ) implies c.y > i32::MIN as int by {
                assert(crate::vectree::tree_coords(tree_view(*node)).contains(c));
            }
        }
        self.show_range_tree(node, highlight_offset);

        // Highlight the block under the subtree's own root.
        proof {
            assert(crate::vectree::tree_coords(tree_view(*node)).contains(node.value@));
        }
        let pos: CellCoord = node.value.below();
        self.set_overlay_block(pos, highlight_offset);
        let ghost mid = self.focus_highlighted_cells@;
        self.focus_highlighted_cells.push(pos);
        proof {
            let off = highlight_offset as int;
            let btl = old(self)@.block_type_len;
            let front = crate::vectree::flat_seq(tree_view(*node));
            let stepped = apply_overlays(old(self)@.cells, front, off, btl);
            lemma_apply_overlays_concat(old(self)@.cells, front, seq![pos@], off, btl);
            assert(seq![pos@][0] == pos@);
            assert(seq![pos@].drop_first() =~= Seq::<GridCoord>::empty());
            assert(apply_overlays(stepped, seq![pos@], off, btl) == apply_overlays(
                overlay_step(stepped, pos@, off, btl),
                Seq::<GridCoord>::empty(),
                off,
                btl,
            ));
            assert(apply_overlays(
                overlay_step(stepped, pos@, off, btl),
                Seq::<GridCoord>::empty(),
                off,
                btl,
            ) == overlay_step(stepped, pos@, off, btl));
            assert(node_flat(tree_view(*node)) == front + seq![pos@]);
            assert(coords_view(mid.push(pos)) =~= coords_view(mid).push(pos@));
            assert(coords_view(mid).push(pos@) =~= (coords_view(old(self).focus_highlighted_cells@)
                + front) + seq![pos@]);
            assert((coords_view(old(self).focus_highlighted_cells@) + front) + seq![pos@]
                =~= coords_view(old(self).focus_highlighted_cells@) + node_flat(tree_view(*node)));
        }
    }

    /// Shows all three of a unit's ranges: the healable range (movement plus
    /// heal budget), then the attackable range (movement plus attack budget),
    /// then the reachable range (movement budget), each computed on the grid
    /// as the previous flattening left it and flattened with its own
    /// highlight tag; finally the mouse highlight is repainted.
    pub fn show_char_ranges(&mut self, char_ref: &FieldCharacter)
        requires
            old(self).wf(),
            char_ref.movement_range + char_ref.heal_range <= u32::MAX,
            char_ref.movement_range + char_ref.attack_range <= u32::MAX,
            traversal_fits(
                char_ref.field_position@,
                (char_ref.movement_range + char_ref.heal_range) as nat,
                old(self)@.max_fall,
            ),
            traversal_fits(
                char_ref.field_position@,
                (char_ref.movement_range + char_ref.attack_range) as nat,
                old(self)@.max_fall,
            ),
            traversal_fits(
                char_ref.field_position@,
                char_ref.movement_range as nat,
                old(self)@.max_fall,
            ),
        ensures
            final(self).wf(),
            ({
                let g0 = old(self)@;
                let pos = char_ref.field_position@;
                let btl = g0.block_type_len;
                let heal_tree = range_tree_spec(
                    g0,
                    pos,
                    (char_ref.movement_range + char_ref.heal_range) as nat,
                );
                let c1 = apply_overlays(
                    g0.cells,
                    flat_seq(heal_tree),
                    old(self).highlight_heal_offset as int,
                    btl,
                );
                let attack_tree = range_tree_spec(
                    (GridModel { cells: c1, ..g0 }),
                    pos,
                    (char_ref.movement_range + char_ref.attack_range) as nat,
                );
                let c2 = apply_overlays(
                    c1,
                    flat_seq(attack_tree),
                    old(self).highlight_attack_offset as int,
                    btl,
                );
                let move_tree = range_tree_spec(
                    (GridModel { cells: c2, ..g0 }),
                    pos,
                    char_ref.movement_range as nat,
                );
                let c3 = apply_overlays(
                    c2,
                    flat_seq(move_tree),
                    old(self).highlight_move_offset as int,
                    btl,
                );
                let c4 = match opt_view(old(self).last_mouse_coords) {
                    Some(mouse) => overlay_step(c3, mouse, old(self).highlight_offset as int, btl),
                    None => c3,
                };
                &&& final(self)@.cells == c4
                &&& coords_view(final(self).focus_highlighted_cells@) == coords_view(
                    old(self).focus_highlighted_cells@,
                ) + flat_seq(heal_tree) + flat_seq(attack_tree) + flat_seq(move_tree)
            }),
            final(self).last_highlight_cell_offset == (match old(self).last_mouse_coords {
                Some(_) => old(self).highlight_move_offset,
                None => old(self).last_highlight_cell_offset,
            }),
            final(self).char_refs == old(self).char_refs,
            final(self).focused_char == old(self).focused_char,
            final(self).last_mouse_coords == old(self).last_mouse_coords,
            same_config(*old(self), *final(self)),
    {
        let healable: VecTree<CellCoord> = char_ref.get_range_tree(
            self,
            char_ref.movement_range + char_ref.heal_range,
        );
        proof {
            lemma_range_tree_above_floor(
                self@,
                char_ref.field_position@,
                (char_ref.movement_range + char_ref.heal_range) as nat,
            );
        }
        self.show_range_tree(&healable, self.highlight_heal_offset);

        let attackable: VecTree<CellCoord> = char_ref.get_range_tree(
            self,
            char_ref.movement_range + char_ref.attack_range,
        );
        proof {
            lemma_range_tree_above_floor(
                self@,
                char_ref.field_position@,
                (char_ref.movement_range + char_ref.attack_range) as nat,
            );
        }
        self.show_range_tree(&attackable, self.highlight_attack_offset);

        let reachable: VecTree<CellCoord> = char_ref.get_range_tree(self, char_ref.movement_range);
        proof {
            lemma_range_tree_above_floor(self@, char_ref.field_position@, char_ref.movement_range as nat);
        }
        self.show_range_tree(&reachable, self.highlight_move_offset);

        // Keep the mouse highlight on the field: draw the movement tag under
        // the mouse when clicking.
        match self.last_mouse_coords {
            Some(mouse_coords) => {
                self.last_highlight_cell_offset = self.highlight_move_offset;
                let mouse_highlight: i32 = self.highlight_offset;
                self.set_overlay_block(mouse_coords, mouse_highlight);
            },
            None => {},
        }
    }

    /// Resets every recorded highlight to variant offset zero, except that a
    /// cell still under the mouse keeps the mouse highlight; forgets the
    /// record.
    pub fn clear_char_ranges(&mut self)
        requires
            old(self).wf(),
        ensures
            final(self).wf(),
            ({
                let r = clear_steps(
                    old(self)@.cells,
                    old(self).last_highlight_cell_offset as int,
                    coords_view(old(self).focus_highlighted_cells@),
                    opt_view(old(self).last_mouse_coords),
                    old(self).highlight_offset as int,
                    old(self)@.block_type_len,
                );
                final(self)@.cells == r.0 && final(self).last_highlight_cell_offset as int == r.1
            }),
            final(self).focus_highlighted_cells@ == Seq::<CellCoord>::empty(),
            final(self).char_refs == old(self).char_refs,
            final(self).focused_char == old(self).focused_char,
            final(self).last_mouse_coords == old(self).last_mouse_coords,
            same_config(*old(self), *final(self)),
    {
        let ghost full = coords_view(old(self).focus_highlighted_cells@);
        let ghost mc = opt_view(old(self).last_mouse_coords);
        let ghost hoff = old(self).highlight_offset as int;
        let ghost btl = old(self)@.block_type_len;
        proof {
            assert(full.skip(0) =~= full);
        }
        let mut i: usize = 0;
        while i < self.focus_highlighted_cells.len()
            invariant
                self.wf(),
                i <= self.focus_highlighted_cells@.len(),
                self.focus_highlighted_cells == old(self).focus_highlighted_cells,
                self.char_refs == old(self).char_refs,
                self.focused_char == old(self).focused_char,
                self.last_mouse_coords == old(self).last_mouse_coords,
                same_config(*old(self), *self),
                full == coords_view(old(self).focus_highlighted_cells@),
                mc == opt_view(old(self).last_mouse_coords),
                hoff == old(self).highlight_offset as int,
                btl == old(self)@.block_type_len,
                clear_steps(
                    old(self)@.cells,
                    old(self).last_highlight_cell_offset as int,
                    full,
                    mc,
                    hoff,
                    btl,
                ) == clear_steps(
                    self@.cells,
                    self.last_highlight_cell_offset as int,
                    full.skip(i as int),
                    mc,
                    hoff,
                    btl,
                ),
            decreases self.focus_highlighted_cells@.len() - i,
        {
            let ghost rest = full.skip(i as int);
            let pos: CellCoord = self.focus_highlighted_cells[i];
            let mut highlight_offset: i32 = 0;

            // Do not clear the cell the mouse still hovers over.
            match self.last_mouse_coords {
                Some(last_mouse_coords) => {
                    if pos == last_mouse_coords {
                        self.last_highlight_cell_offset = highlight_offset;
                        highlight_offset = highlight_offset + self.highlight_offset;
                    }
                },
                None => {},
            }

            proof {
                assert(rest[0] == pos@);
                assert(rest.drop_first() =~= full.skip(i + 1));
            }
            self.set_overlay_block(pos, highlight_offset);
            i = i + 1;
        }
        proof {
            assert(full.skip(self.focus_highlighted_cells@.len() as int) =~= Seq::<
                GridCoord,
            >::empty());
        }
        self.focus_highlighted_cells.clear();
    }

    /// Focuses a unit, or drops the focus.
    pub fn set_char_focused(&mut self, val: Option<FieldCharacter>)
        ensures
            final(self).focused_char == val,
            final(self).cells == old(self).cells,
            final(self).char_refs == old(self).char_refs,
            final(self).focus_highlighted_cells == old(self).focus_highlighted_cells,
            final(self).last_mouse_coords == old(self).last_mouse_coords,
            final(self).last_highlight_cell_offset == old(self).last_highlight_cell_offset,
            same_config(*old(self), *final(self)),
    {
        self.focused_char = val;
    }

    /// Moves the unit indexed at `cur_pos` to `new_pos` in the unit index.
    /// It does not check which unit stands at `cur_pos` and overwrites
    /// whatever the index holds at `new_pos`; a no-op where `cur_pos` holds
    /// no unit.
    pub fn reposition_char_from_pos(&mut self, cur_pos: CellCoord, new_pos: CellCoord)
        requires
            old(self).wf(),
        ensures
            final(self).wf(),
            final(self).char_refs@ == if old(self).char_refs@.contains_key(cur_pos@) {
                old(self).char_refs@.remove(cur_pos@).insert(
                    new_pos@,
                    old(self).char_refs@[cur_pos@],
                )
            } else {
                old(self).char_refs@
            },
            final(self).cells == old(self).cells,
            final(self).focused_char == old(self).focused_char,
            final(self).focus_highlighted_cells == old(self).focus_highlighted_cells,
            final(self).last_mouse_coords == old(self).last_mouse_coords,
            final(self).last_highlight_cell_offset == old(self).last_highlight_cell_offset,
            same_config(*old(self), *final(self)),
    {
        let found: Option<FieldCharacter> = match self.char_refs.get(cur_pos) {
            Some(char_ref) => Some(*char_ref),
            None => None,
        };
        match found {
            Some(char_ref) => {
                self.char_refs.remove(cur_pos);
                self.char_refs.insert(new_pos, char_ref);
            },
            None => {},
        }
    }
}

} // verus!
