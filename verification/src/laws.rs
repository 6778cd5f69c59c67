//! Laws of the range finder and of tree flattening, stated over the
//! mathematical model and proved once for all grids.
use vstd::prelude::*;
use crate::EMPTY_CELL;
use crate::coords::GridCoord;
use crate::coords::manhattan;
use crate::fieldcharacter::children_upto;
use crate::fieldcharacter::fall_to;
use crate::fieldcharacter::range_tree_spec;
use crate::fieldcharacter::step_dest;
use crate::fieldgridmap::GridModel;
use crate::fieldgridmap::apply_overlays;
use crate::fieldgridmap::cell_at;
use crate::fieldgridmap::cell_value;
use crate::fieldgridmap::cells_ok;
use crate::fieldgridmap::is_slope;
use crate::fieldgridmap::lemma_overlay_result;
use crate::fieldgridmap::overlay_step;
use crate::fieldgridmap::overlay_value;
use crate::fieldgridmap::valid_cell_value;
use crate::vectree::SpecTree;
use crate::vectree::flat_seq;
use crate::vectree::forest_coords;
use crate::vectree::lemma_forest_coords_concat;
use crate::vectree::lemma_forest_coords_singleton;
use crate::vectree::tree_coords;

verus! {

/// What a pass of overlay writes leaves in each cell: every written cell
/// carries its old base type plus the highlight offset, however often and in
/// whatever order it was written; every other cell is untouched.
pub proof fn lemma_apply_overlays_pointwise(
    cells: Map<GridCoord, i32>,
    s: Seq<GridCoord>,
    off: int,
    btl: int,
)
    requires
        1 <= btl <= i32::MAX as int,
        0 <= off < btl,
        cells_ok(cells, btl),
    ensures
        cells_ok(apply_overlays(cells, s, off, btl), btl),
        forall|c: GridCoord|
            #[trigger] cell_value(apply_overlays(cells, s, off, btl), c) == if s.contains(c) {
                overlay_value(cell_value(cells, c), btl) + off
            } else {
                cell_value(cells, c)
            },
    decreases s.len(),
{
    if s.len() > 0 {
        let head = s[0];
        let stepped = overlay_step(cells, head, off, btl);
        lemma_overlay_result(cell_value(cells, head), off, btl);
        assert(cells_ok(stepped, btl)) by {
            let w = overlay_value(cell_value(cells, head), btl) + off;
            assert forall|c: GridCoord| stepped.contains_key(c) implies valid_cell_value(
                #[trigger] stepped[c] as int,
                btl,
            ) by {
                if c != head {
                    assert(cells.contains_key(c) && cells[c] == stepped[c]);
                }
            }
        }
        lemma_apply_overlays_pointwise(stepped, s.drop_first(), off, btl);
        assert forall|c: GridCoord|
            #[trigger] cell_value(apply_overlays(cells, s, off, btl), c) == if s.contains(c) {
                overlay_value(cell_value(cells, c), btl) + off
            } else {
                cell_value(cells, c)
            } by {
            assert(s.contains(c) <==> (c == head || s.drop_first().contains(c))) by {
                if s.contains(c) {
                    let i = choose|i: int| 0 <= i < s.len() && s[i] == c;
                    if i > 0 {
                        assert(s.drop_first()[i - 1] == c);
                    }
                } else {
                    assert(forall|i: int| 0 <= i < s.len() ==> s[i] != c);
                    assert(forall|i: int|
                        0 <= i < s.drop_first().len() ==> #[trigger] s.drop_first()[i] == s[i + 1]);
                }
            }
            if c == head {
                let w = overlay_value(cell_value(cells, head), btl) + off;
                assert(cell_value(stepped, head) == w);
                if s.drop_first().contains(c) {
                    assert(cell_value(apply_overlays(cells, s, off, btl), c) == overlay_value(
                        cell_value(stepped, c),
                        btl,
                    ) + off);
                    assert(overlay_value(w, btl) == overlay_value(cell_value(cells, head), btl));
                } else {
                    assert(cell_value(apply_overlays(cells, s, off, btl), c) == w);
                }
            } else {
                assert(cell_value(stepped, c) == cell_value(cells, c));
            }
        }
    }
}

/// Two cell stores that hold valid values and agree on every lookup are the
/// same store.
pub proof fn lemma_cells_ext(a: Map<GridCoord, i32>, b: Map<GridCoord, i32>, btl: int)
    requires
        btl >= 1,
        cells_ok(a, btl),
        cells_ok(b, btl),
        forall|c: GridCoord| #[trigger] cell_value(a, c) == cell_value(b, c),
    ensures
        a == b,
{
    assert forall|c: GridCoord| #[trigger] a.dom().contains(c) implies b.dom().contains(c) && a[c]
        == b[c] by {
        assert(a.contains_key(c));
        assert(cell_value(a, c) == a[c] as int && a[c] as int >= 0);
        assert(cell_value(b, c) != EMPTY_CELL as int);
        assert(b.contains_key(c));
    }
    assert forall|c: GridCoord| #[trigger] b.dom().contains(c) implies a.dom().contains(c) by {
        assert(b.contains_key(c));
        assert(cell_value(b, c) == b[c] as int && b[c] as int >= 0);
        assert(cell_value(a, c) != EMPTY_CELL as int);
        assert(a.contains_key(c));
    }
    assert(a.dom() =~= b.dom());
    assert(a =~= b);
}

/// Flattening a range tree twice with the same highlight tag leaves exactly
/// the cell store one flattening leaves: the writes are idempotent, so the
/// repainted coordinate set is what matters, not how often it is written.
pub proof fn lemma_flatten_idempotent(
    cells: Map<GridCoord, i32>,
    t: SpecTree,
    off: int,
    btl: int,
)
    requires
        1 <= btl <= i32::MAX as int,
        0 <= off < btl,
        cells_ok(cells, btl),
    ensures
        apply_overlays(apply_overlays(cells, flat_seq(t), off, btl), flat_seq(t), off, btl)
            == apply_overlays(cells, flat_seq(t), off, btl),
{
    let s = flat_seq(t);
    let once = apply_overlays(cells, s, off, btl);
    let twice = apply_overlays(once, s, off, btl);
    lemma_apply_overlays_pointwise(cells, s, off, btl);
    lemma_apply_overlays_pointwise(once, s, off, btl);
    assert forall|c: GridCoord| #[trigger] cell_value(twice, c) == cell_value(once, c) by {
        if s.contains(c) {
            lemma_overlay_result(cell_value(cells, c), off, btl);
        }
    }
    lemma_cells_ext(twice, once, btl);
}

/// The order of a pass of overlay writes is irrelevant: two write sequences
/// over the same coordinate set leave the same cell store.
pub proof fn lemma_overlays_order_irrelevant(
    cells: Map<GridCoord, i32>,
    s1: Seq<GridCoord>,
    s2: Seq<GridCoord>,
    off: int,
    btl: int,
)
    requires
        1 <= btl <= i32::MAX as int,
        0 <= off < btl,
        cells_ok(cells, btl),
        s1.to_set() == s2.to_set(),
    ensures
        apply_overlays(cells, s1, off, btl) == apply_overlays(cells, s2, off, btl),
{
    lemma_apply_overlays_pointwise(cells, s1, off, btl);
    lemma_apply_overlays_pointwise(cells, s2, off, btl);
    assert forall|c: GridCoord|
        #[trigger] cell_value(apply_overlays(cells, s1, off, btl), c) == cell_value(
            apply_overlays(cells, s2, off, btl),
            c,
        ) by {
        assert(s1.contains(c) <==> s1.to_set().contains(c));
        assert(s2.contains(c) <==> s2.to_set().contains(c));
    }
    lemma_cells_ext(apply_overlays(cells, s1, off, btl), apply_overlays(cells, s2, off, btl), btl);
}

/// An unobstructed flat grid: one solid plane of non-slope tiles at level
/// `floor_y`, empty everywhere else.
pub open spec fn flat_grid(g: GridModel, floor_y: int) -> bool {
    &&& forall|c: GridCoord| (#[trigger] cell_at(g, c)) == EMPTY_CELL as int <==> c.y != floor_y
    &&& forall|c: GridCoord| c.y == floor_y ==> !(#[trigger] is_slope(g, c))
}

/// All cells of the walking plane through `o` within Manhattan distance
/// `range` of `o`.
pub open spec fn horizontal_ball(o: GridCoord, range: nat) -> Set<GridCoord> {
    Set::new(|c: GridCoord| c.y == o.y && manhattan(c, o) <= range)
}

/// On an unobstructed flat grid, with the optional occupancy and bounds
/// restrictions off, the coordinates of the range tree are exactly the
/// Manhattan ball on the walking plane: no slope or fall adjustment moves
/// the traversal off it, and every cell within range is reached.
pub proof fn lemma_flat_grid_reachable(g: GridModel, o: GridCoord, range: nat, floor_y: int)
    requires
        flat_grid(g, floor_y),
        o.y == floor_y + 1,
        !g.block_occupied,
        g.bounds is None,
    ensures
        tree_coords(range_tree_spec(g, o, range)) == horizontal_ball(o, range),
    decreases range,
{
    let t = range_tree_spec(g, o, range);
    if range == 0 {
        assert(t.children == Seq::<SpecTree>::empty());
        assert(forest_coords(Seq::<SpecTree>::empty()) =~= Set::<GridCoord>::empty());
        assert forall|c: GridCoord| #[trigger] horizontal_ball(o, range).contains(c) implies c
            == o by {
            assert(manhattan(c, o) >= 0);
        }
        assert(tree_coords(t) =~= horizontal_ball(o, range));
    } else {
        // On the flat grid every direction's step simply moves sideways.
        assert forall|dir: int| 0 <= dir < 4 implies #[trigger] step_dest(g, o, dir) == Some(
            o.neighbour(dir),
        ) by {
            let probe = o.neighbour(dir);
            assert(cell_at(g, probe) == EMPTY_CELL as int);
            assert(cell_at(g, probe.down()) != EMPTY_CELL as int);
            assert(fall_to(g, probe, g.max_fall) == Some(probe));
        }
        let sub0 = range_tree_spec(g, o.neighbour(0), (range - 1) as nat);
        let sub1 = range_tree_spec(g, o.neighbour(1), (range - 1) as nat);
        let sub2 = range_tree_spec(g, o.neighbour(2), (range - 1) as nat);
        let sub3 = range_tree_spec(g, o.neighbour(3), (range - 1) as nat);
        let k0 = children_upto(g, o, range, 0);
        let k1 = children_upto(g, o, range, 1);
        let k2 = children_upto(g, o, range, 2);
        let k3 = children_upto(g, o, range, 3);
        let k4 = children_upto(g, o, range, 4);
        assert(k0 == Seq::<SpecTree>::empty());
        assert(k1 == k0 + seq![sub0]);
        assert(k2 == k1 + seq![sub1]);
        assert(k3 == k2 + seq![sub2]);
        assert(k4 == k3 + seq![sub3]);
        lemma_forest_coords_singleton(sub0);
        lemma_forest_coords_singleton(sub1);
        lemma_forest_coords_singleton(sub2);
        lemma_forest_coords_singleton(sub3);
        lemma_forest_coords_concat(k0, seq![sub0]);
        lemma_forest_coords_concat(k1, seq![sub1]);
        lemma_forest_coords_concat(k2, seq![sub2]);
        lemma_forest_coords_concat(k3, seq![sub3]);
        assert(forest_coords(k0) =~= Set::<GridCoord>::empty());
        lemma_flat_grid_reachable(g, o.neighbour(0), (range - 1) as nat, floor_y);
        lemma_flat_grid_reachable(g, o.neighbour(1), (range - 1) as nat, floor_y);
        lemma_flat_grid_reachable(g, o.neighbour(2), (range - 1) as nat, floor_y);
        lemma_flat_grid_reachable(g, o.neighbour(3), (range - 1) as nat, floor_y);
        let b0 = horizontal_ball(o.neighbour(0), (range - 1) as nat);
        let b1 = horizontal_ball(o.neighbour(1), (range - 1) as nat);
        let b2 = horizontal_ball(o.neighbour(2), (range - 1) as nat);
        let b3 = horizontal_ball(o.neighbour(3), (range - 1) as nat);
        assert(forest_coords(k4) =~= b0.union(b1).union(b2).union(b3));
        assert(t.children == k4);

        assert forall|c: GridCoord| #[trigger] tree_coords(t).contains(c) implies horizontal_ball(
            o,
            range,
        ).contains(c) by {
            if c != o {
                assert(forest_coords(k4).contains(c));
            }
        }
        assert forall|c: GridCoord| #[trigger] horizontal_ball(o, range).contains(
            c,
        ) implies tree_coords(t).contains(c) by {
            if c == o {
                assert(tree_coords(t).contains(t.value));
            } else {
                if c.x > o.x {
                    assert(b0.contains(c));
                } else if c.x < o.x {
                    assert(b1.contains(c));
                } else if c.z > o.z {
                    assert(b2.contains(c));
                } else {
                    assert(c.z < o.z);
                    assert(b3.contains(c));
                }
                assert(forest_coords(k4).contains(c));
            }
        }
        assert(tree_coords(t) =~= horizontal_ball(o, range));
    }
}

} // verus!

