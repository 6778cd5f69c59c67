//! A unit standing on the battlefield: a position and three range budgets,
//! and the range finder that computes which cells the unit can reach.
use vstd::prelude::*;
use crate::EMPTY_CELL;
use crate::chartype::CharType;
use crate::coords::CellCoord;
use crate::coords::GridCoord;
use crate::coords::opt_view;
use crate::fieldgridmap::FieldGripMap;
use crate::fieldgridmap::GridModel;
use crate::fieldgridmap::cell_at;
use crate::fieldgridmap::is_slope;
use crate::vectree::SpecTree;
use crate::vectree::VecTree;
use crate::vectree::forest_view;
use crate::vectree::lemma_forest_view_push;
use crate::vectree::tree_view;

verus! {

/// Where a unit dropped at `c` comes to rest: `c` itself where the cell
/// beneath it is set, else one level down, and so on.  A drop that finds no
/// support within `fuel` levels yields no resting place: the step is illegal
/// rather than an unbounded fall.
pub open spec fn fall_to(g: GridModel, c: GridCoord, fuel: nat) -> Option<GridCoord>
    decreases fuel,
{
    if cell_at(g, c.down()) != EMPTY_CELL as int {
        Some(c)
    } else if fuel == 0 {
        None
    } else {
        fall_to(g, c.down(), (fuel - 1) as nat)
    }
}

/// Where one traversal step from `from` in direction `dir` ends, or `None`
/// where the step is illegal.  The step goes to the horizontal neighbour,
/// climbs one level when that cell is a slope tile, falls to the first
/// supported cell, and is legal only when the cell it ends in can be
/// entered: it is empty, and it passes the optional occupancy and bounds
/// restrictions.
pub open spec fn step_dest(g: GridModel, from: GridCoord, dir: int) -> Option<GridCoord> {
    let probe = from.neighbour(dir);
    let lifted = if is_slope(g, probe) {
        probe.up()
    } else {
        probe
    };
    match fall_to(g, lifted, g.max_fall) {
        Some(rest) => if crate::fieldgridmap::enterable(g, rest) {
            Some(rest)
        } else {
            None
        },
        None => None,
    }
}

/// The range tree rooted at `c` with `range` traversal steps of budget left:
/// the children stand for the legal steps out of `c`, probed in direction
/// order, each expanded with one step less.
pub open spec fn range_tree_spec(g: GridModel, c: GridCoord, range: nat) -> SpecTree
    decreases range, 5int,
{
    SpecTree {
        value: c,
        children: if range == 0 {
            Seq::empty()
        } else {
            children_upto(g, c, range, 4)
        },
    }
}

/// The children a node at `c` with budget `range >= 1` gains from the first
/// `ndirs` directions.
pub open spec fn children_upto(g: GridModel, c: GridCoord, range: nat, ndirs: int) -> Seq<SpecTree>
    recommends
        range >= 1,
        0 <= ndirs <= 4,
    decreases range, ndirs,
{
    if ndirs <= 0 || range == 0 {
        Seq::empty()
    } else {
        children_upto(g, c, range, ndirs - 1) + match step_dest(g, c, ndirs - 1) {
            Some(d) => seq![range_tree_spec(g, d, (range - 1) as nat)],
            None => Seq::empty(),
        }
    }
}

/// The machine-width bound under which a traversal of `range` steps from `c`
/// cannot leave `i32` coordinates: each step moves one cell sideways, climbs
/// at most one level, and falls at most `max_fall` levels.
pub open spec fn traversal_fits(c: GridCoord, range: nat, max_fall: nat) -> bool {
    &&& c.x - range >= i32::MIN as int
    &&& c.x + range <= i32::MAX as int
    &&& c.z - range >= i32::MIN as int
    &&& c.z + range <= i32::MAX as int
    &&& c.y + range <= i32::MAX as int
    &&& c.y - range * max_fall - 1 >= i32::MIN as int
}

/// A field unit.  It occupies one cell and asks the range finder for the
/// trees of cells it can move to, attack or heal within its budgets.
#[derive(Clone, Copy, PartialEq, Eq, Structural, Debug)]
pub struct FieldCharacter {
    pub field_position: CellCoord,
    pub chartype: CharType,
    pub movement_range: u32,
    pub attack_range: u32,
    pub heal_range: u32,
}

/// Drops from `start` until the cell beneath is set, giving up once
/// `max_fall` levels passed without support.
fn fall_to_rest(field: &FieldGripMap, start: CellCoord) -> (r: Option<CellCoord>)
    requires
        field.wf(),
        start.y as int - field.max_fall as int - 1 >= i32::MIN as int,
    ensures
        opt_view(r) == fall_to(field@, start@, field@.max_fall),
        match r {
            Some(c) => c.x == start.x && c.z == start.z && start.y as int - field.max_fall as int
                <= c.y as int <= start.y as int,
            None => true,
        },
{
    let mut cur: CellCoord = start;
    let mut fuel: u32 = field.max_fall;
    while field.get_cell(cur.below()) == EMPTY_CELL
        invariant
            field.wf(),
            fuel <= field.max_fall,
            cur.x == start.x,
            cur.z == start.z,
            cur.y as int == start.y as int - (field.max_fall - fuel) as int,
            start.y as int - field.max_fall as int - 1 >= i32::MIN as int,
            fall_to(field@, start@, field@.max_fall) == fall_to(field@, cur@, fuel as nat),
        decreases fuel,
    {
        if fuel == 0 {
            return None;
        }
        cur = cur.below();
        fuel = fuel - 1;
    }
    Some(cur)
}

/// One traversal step out of `from` in direction `dir`, exactly as
/// `step_dest` states it.
fn step(field: &FieldGripMap, from: CellCoord, dir: u32) -> (r: Option<CellCoord>)
    requires
        field.wf(),
        dir < 4,
        from.x as int - 1 >= i32::MIN as int,
        from.x as int + 1 <= i32::MAX as int,
        from.z as int - 1 >= i32::MIN as int,
        from.z as int + 1 <= i32::MAX as int,
        from.y as int + 1 <= i32::MAX as int,
        from.y as int - field.max_fall as int - 1 >= i32::MIN as int,
    ensures
        opt_view(r) == step_dest(field@, from@, dir as int),
        match r {
            Some(c) => from.x as int - 1 <= c.x as int <= from.x as int + 1 && from.z as int - 1
                <= c.z as int <= from.z as int + 1 && from.y as int - field.max_fall as int
                <= c.y as int <= from.y as int + 1,
            None => true,
        },
{
    // The horizontal neighbour this direction probes.
    let probe: CellCoord = if dir == 0 {
        CellCoord { x: from.x + 1, y: from.y, z: from.z }
    } else if dir == 1 {
        CellCoord { x: from.x - 1, y: from.y, z: from.z }
    } else if dir == 2 {
        CellCoord { x: from.x, y: from.y, z: from.z + 1 }
    } else {
        CellCoord { x: from.x, y: from.y, z: from.z - 1 }
    };

    let cell_item: i32 = field.get_cell(probe);

    // Stepping onto a slope tile climbs one level.
    let lifted: CellCoord = if cell_item != EMPTY_CELL && cell_item - cell_item
        % field.block_type_len == field.slope_index {
        CellCoord { x: probe.x, y: probe.y + 1, z: probe.z }
    } else {
        probe
    };

    match fall_to_rest(field, lifted) {
        Some(rest) => {
            // A unit can only stand in a cell that is itself empty and that
            // passes the optional occupancy and bounds restrictions.
            if field.can_enter(rest) {
                Some(rest)
            } else {
                None
            }
        },
        None => None,
    }
}

/// Recursively expands the range tree rooted at `value` with
/// `remaining_range` steps of budget left.
fn expand_range_tree(field: &FieldGripMap, value: CellCoord, remaining_range: u32) -> (r: VecTree<
    CellCoord,
>)
    requires
        field.wf(),
        traversal_fits(value@, remaining_range as nat, field@.max_fall),
    ensures
        tree_view(r) == range_tree_spec(field@, value@, remaining_range as nat),
    decreases remaining_range,
{
    let mut children: Vec<VecTree<CellCoord>> = Vec::new();
    if remaining_range == 0 {
        return VecTree::new(value, children);
    }
    let mut dir: u32 = 0;
    while dir < 4
        invariant
            field.wf(),
            traversal_fits(value@, remaining_range as nat, field@.max_fall),
            1 <= remaining_range,
            dir <= 4,
            forest_view(children@) == children_upto(
                field@,
                value@,
                remaining_range as nat,
                dir as int,
            ),
        decreases 4 - dir,
    {
        proof {
            lemma_traversal_fits_step(value@, remaining_range as nat, field@.max_fall);
        }
        match step(field, value, dir) {
            Some(dest) => {
                let ghost pre = children@;
                proof {
                    assert(traversal_fits(dest@, (remaining_range - 1) as nat, field@.max_fall));
                }
                let child: VecTree<CellCoord> = expand_range_tree(
                    field,
                    dest,
                    remaining_range - 1,
                );
                children.push(child);
                proof {
                    lemma_forest_view_push(pre, child);
                    assert(forest_view(pre).push(tree_view(child)) =~= forest_view(pre) + seq![
                        tree_view(child),
                    ]);
                }
            },
            None => {},
        }
        dir = dir + 1;
    }
    VecTree::new(value, children)
}

/// A drop never moves sideways and falls at most `fuel` levels.
pub proof fn lemma_fall_to_bounds(g: GridModel, c: GridCoord, fuel: nat)
    ensures
        match fall_to(g, c, fuel) {
            Some(r) => r.x == c.x && r.z == c.z && c.y - fuel <= r.y <= c.y,
            None => true,
        },
    decreases fuel,
{
    if cell_at(g, c.down()) == EMPTY_CELL as int && fuel > 0 {
        lemma_fall_to_bounds(g, c.down(), (fuel - 1) as nat);
    }
}

/// A legal step lands exactly one cell away horizontally, at most one level
/// up, and at most `max_fall` levels down.
pub proof fn lemma_step_dest_bounds(g: GridModel, from: GridCoord, dir: int)
    requires
        0 <= dir < 4,
    ensures
        match step_dest(g, from, dir) {
            Some(d) => crate::coords::manhattan(d, from) == 1 && from.y - g.max_fall <= d.y
                <= from.y + 1,
            None => true,
        },
{
    let probe = from.neighbour(dir);
    let lifted = if is_slope(g, probe) {
        probe.up()
    } else {
        probe
    };
    lemma_fall_to_bounds(g, lifted, g.max_fall);
}

/// Every coordinate in a range tree lies within `range` horizontal steps of
/// the root, climbs at most `range` levels, and falls at most `range` times
/// `max_fall` levels.
pub proof fn lemma_range_tree_coords(g: GridModel, o: GridCoord, range: nat)
    ensures
        forall|c: GridCoord|
            #[trigger] crate::vectree::tree_coords(range_tree_spec(g, o, range)).contains(c)
                ==> crate::coords::manhattan(c, o) <= range && o.y - range * g.max_fall <= c.y
                <= o.y + range,
    decreases range, 5int,
{
    let t = range_tree_spec(g, o, range);
    assert(t.children == if range == 0 {
        Seq::<SpecTree>::empty()
    } else {
        children_upto(g, o, range, 4)
    });
    if range == 0 {
        assert forall|c: GridCoord|
            #[trigger] crate::vectree::tree_coords(t).contains(c) implies crate::coords::manhattan(
            c,
            o,
        ) <= range && o.y - range * g.max_fall <= c.y <= o.y + range by {
            assert(crate::vectree::forest_coords(Seq::<SpecTree>::empty()) =~= Set::<
                GridCoord,
            >::empty());
            assert(c == o);
        }
    } else {
        lemma_children_upto_coords(g, o, range, 4);
        assert forall|c: GridCoord|
            #[trigger] crate::vectree::tree_coords(t).contains(c) implies crate::coords::manhattan(
            c,
            o,
        ) <= range && o.y - range * g.max_fall <= c.y <= o.y + range by {
            if c != o {
                assert(crate::vectree::forest_coords(children_upto(g, o, range, 4)).contains(c));
            }
        }
    }
}

/// The coordinates gathered from the first `ndirs` directions obey the same
/// bounds as the whole tree.
proof fn lemma_children_upto_coords(g: GridModel, o: GridCoord, range: nat, ndirs: int)
    requires
        range >= 1,
        0 <= ndirs <= 4,
    ensures
        forall|c: GridCoord|
            #[trigger] crate::vectree::forest_coords(children_upto(g, o, range, ndirs)).contains(c)
                ==> crate::coords::manhattan(c, o) <= range && o.y - range * g.max_fall <= c.y
                <= o.y + range,
    decreases range, ndirs,
{
    if ndirs > 0 {
        lemma_children_upto_coords(g, o, range, ndirs - 1);
        let front = children_upto(g, o, range, ndirs - 1);
        let tail = match step_dest(g, o, ndirs - 1) {
            Some(d) => seq![range_tree_spec(g, d, (range - 1) as nat)],
            None => Seq::<SpecTree>::empty(),
        };
        crate::vectree::lemma_forest_coords_concat(front, tail);
        match step_dest(g, o, ndirs - 1) {
            Some(d) => {
                lemma_step_dest_bounds(g, o, ndirs - 1);
                lemma_range_tree_coords(g, d, (range - 1) as nat);
                let sub = range_tree_spec(g, d, (range - 1) as nat);
                assert(tail[0] == sub);
                assert(tail.drop_first() =~= Seq::<SpecTree>::empty());
                assert(crate::vectree::forest_coords(Seq::<SpecTree>::empty()) =~= Set::<
                    GridCoord,
                >::empty());
                assert(crate::vectree::forest_coords(tail) =~= crate::vectree::tree_coords(sub));
                assert((range - 1) * g.max_fall + g.max_fall == range * g.max_fall && (range - 1)
                    * g.max_fall >= 0) by (nonlinear_arith)
                    requires
                        range >= 1,
                ;
                assert forall|c: GridCoord|
                    #[trigger] crate::vectree::forest_coords(tail).contains(
                        c,
                    ) implies crate::coords::manhattan(c, o) <= range && o.y - range * g.max_fall
                    <= c.y <= o.y + range by {
                    assert(crate::vectree::tree_coords(sub).contains(c));
                }
            },
            None => {
                assert(crate::vectree::forest_coords(tail) =~= Set::<GridCoord>::empty());
            },
        }
    } else {
        assert(crate::vectree::forest_coords(children_upto(g, o, range, ndirs)) =~= Set::<
            GridCoord,
        >::empty());
    }
}

/// The depth of a range tree never exceeds the range budget it was built
/// with: each expanded child spends one step.
pub proof fn lemma_range_tree_depth(g: GridModel, o: GridCoord, range: nat)
    ensures
        crate::vectree::tree_depth(range_tree_spec(g, o, range)) <= range,
    decreases range, 5int,
{
    let t = range_tree_spec(g, o, range);
    if range == 0 {
        assert(t.children.len() == 0);
    } else {
        lemma_children_upto_depth(g, o, range, 4);
        if t.children.len() == 0 {
        } else {
            assert(crate::vectree::tree_depth(t) == 1 + crate::vectree::forest_depth(t.children));
        }
    }
}

proof fn lemma_children_upto_depth(g: GridModel, o: GridCoord, range: nat, ndirs: int)
    requires
        range >= 1,
        0 <= ndirs <= 4,
    ensures
        crate::vectree::forest_depth(children_upto(g, o, range, ndirs)) <= range - 1,
    decreases range, ndirs,
{
    if ndirs > 0 {
        lemma_children_upto_depth(g, o, range, ndirs - 1);
        let front = children_upto(g, o, range, ndirs - 1);
        let tail = match step_dest(g, o, ndirs - 1) {
            Some(d) => seq![range_tree_spec(g, d, (range - 1) as nat)],
            None => Seq::<SpecTree>::empty(),
        };
        crate::vectree::lemma_forest_depth_concat(front, tail);
        match step_dest(g, o, ndirs - 1) {
            Some(d) => {
                lemma_range_tree_depth(g, d, (range - 1) as nat);
                crate::vectree::lemma_forest_depth_singleton(
                    range_tree_spec(g, d, (range - 1) as nat),
                );
            },
            None => {
                assert(crate::vectree::forest_depth(tail) == 0);
            },
        }
    } else {
        assert(crate::vectree::forest_depth(children_upto(g, o, range, ndirs)) == 0);
    }
}

/// A range tree whose traversal fits `i32` coordinates sits wholly above the
/// lowest representable level, so it can be flattened onto the blocks
/// beneath its nodes.
pub proof fn lemma_range_tree_above_floor(g: GridModel, o: GridCoord, range: nat)
    requires
        traversal_fits(o, range, g.max_fall),
    ensures
        crate::vectree::tree_above_floor(range_tree_spec(g, o, range)),
        crate::vectree::forest_above_floor(range_tree_spec(g, o, range).children),
{
    lemma_range_tree_coords(g, o, range);
    let t = range_tree_spec(g, o, range);
    assert forall|c: GridCoord|
        #[trigger] crate::vectree::forest_coords(t.children).contains(c) implies c.y
        > i32::MIN as int by {
        assert(crate::vectree::tree_coords(t).contains(c));
    }
}

/// With no budget the range tree is a single leaf: the root carries the
/// origin and has no children.
pub proof fn lemma_range_zero(g: GridModel, origin: GridCoord)
    ensures
        range_tree_spec(g, origin, 0).value == origin,
        range_tree_spec(g, origin, 0).children.len() == 0,
{
}

/// Wherever a direction's step is legal, the range tree holds the fully
/// expanded subtree for its destination among its children.
pub proof fn lemma_child_for_dir(g: GridModel, o: GridCoord, range: nat, dir: int, d: GridCoord)
    requires
        range >= 1,
        0 <= dir < 4,
        step_dest(g, o, dir) == Some(d),
    ensures
        exists|i: int|
            0 <= i < range_tree_spec(g, o, range).children.len()
                && #[trigger] range_tree_spec(g, o, range).children[i] == range_tree_spec(
                g,
                d,
                (range - 1) as nat,
            ),
{
    lemma_child_in_upto(g, o, range, dir, d, 4);
    let sub = range_tree_spec(g, d, (range - 1) as nat);
    let i = choose|i: int|
        0 <= i < children_upto(g, o, range, 4).len() && #[trigger] children_upto(g, o, range, 4)[i]
            == sub;
    assert(range_tree_spec(g, o, range).children[i] == sub);
}

proof fn lemma_child_in_upto(g: GridModel, o: GridCoord, range: nat, dir: int, d: GridCoord, k: int)
    requires
        range >= 1,
        0 <= dir < k <= 4,
        step_dest(g, o, dir) == Some(d),
    ensures
        exists|i: int|
            0 <= i < children_upto(g, o, range, k).len() && #[trigger] children_upto(
                g,
                o,
                range,
                k,
            )[i] == range_tree_spec(g, d, (range - 1) as nat),
    decreases k,
{
    let sub = range_tree_spec(g, d, (range - 1) as nat);
    let front = children_upto(g, o, range, k - 1);
    if dir == k - 1 {
        let full = children_upto(g, o, range, k);
        assert(full == front + seq![sub]);
        assert(full[front.len() as int] == sub);
    } else {
        lemma_child_in_upto(g, o, range, dir, d, k - 1);
        let i = choose|i: int|
            0 <= i < front.len() && #[trigger] front[i] == range_tree_spec(
                g,
                d,
                (range - 1) as nat,
            );
        assert(children_upto(g, o, range, k)[i] == sub);
    }
}

/// Slope climbing: a step onto a slope tile never enters the slope cell
/// itself; where the cell one level above the slope can be entered, the
/// step enters that cell, and with budget left the tree expands a child
/// there.
pub proof fn lemma_slope_climb(g: GridModel, o: GridCoord, dir: int, range: nat)
    requires
        0 <= dir < 4,
        range >= 1,
        is_slope(g, o.neighbour(dir)),
    ensures
        step_dest(g, o, dir) != Some(o.neighbour(dir)),
        crate::fieldgridmap::enterable(g, o.neighbour(dir).up()) ==> step_dest(g, o, dir) == Some(
            o.neighbour(dir).up(),
        ) && (exists|i: int|
            0 <= i < range_tree_spec(g, o, range).children.len()
                && #[trigger] range_tree_spec(g, o, range).children[i] == range_tree_spec(
                g,
                o.neighbour(dir).up(),
                (range - 1) as nat,
            )),
{
    let probe = o.neighbour(dir);
    let lifted = probe.up();
    assert(lifted.down() == probe);
    assert(fall_to(g, lifted, g.max_fall) == Some(lifted));
    if crate::fieldgridmap::enterable(g, lifted) {
        assert(step_dest(g, o, dir) == Some(lifted));
        lemma_child_for_dir(g, o, range, dir, lifted);
    }
}

/// Falling: a step over a one-level drop with support beneath lands exactly
/// on the first empty cell above the support, and with budget left the tree
/// expands a child there.
pub proof fn lemma_fall_step(g: GridModel, o: GridCoord, dir: int, range: nat)
    requires
        0 <= dir < 4,
        range >= 1,
        g.max_fall >= 1,
        cell_at(g, o.neighbour(dir)) == EMPTY_CELL as int,
        crate::fieldgridmap::enterable(g, o.neighbour(dir).down()),
        cell_at(g, o.neighbour(dir).down().down()) != EMPTY_CELL as int,
    ensures
        step_dest(g, o, dir) == Some(o.neighbour(dir).down()),
        exists|i: int|
            0 <= i < range_tree_spec(g, o, range).children.len()
                && #[trigger] range_tree_spec(g, o, range).children[i] == range_tree_spec(
                g,
                o.neighbour(dir).down(),
                (range - 1) as nat,
            ),
{
    let probe = o.neighbour(dir);
    assert(!is_slope(g, probe));
    assert(fall_to(g, probe, g.max_fall) == fall_to(g, probe.down(), (g.max_fall - 1) as nat));
    assert(fall_to(g, probe.down(), (g.max_fall - 1) as nat) == Some(probe.down()));
    assert(step_dest(g, o, dir) == Some(probe.down()));
    lemma_child_for_dir(g, o, range, dir, probe.down());
}

/// A step within a traversal that fits `i32` coordinates keeps fitting with
/// one budget step less, wherever it lands.
proof fn lemma_traversal_fits_step(c: GridCoord, range: nat, max_fall: nat)
    requires
        range >= 1,
        traversal_fits(c, range, max_fall),
    ensures
        c.y - max_fall - 1 >= i32::MIN as int,
        forall|d: GridCoord|
            c.x - 1 <= d.x <= c.x + 1 && c.z - 1 <= d.z <= c.z + 1 && c.y - max_fall <= d.y <= c.y
                + 1 ==> #[trigger] traversal_fits(d, (range - 1) as nat, max_fall),
{
    assert(max_fall <= range * max_fall && (range - 1) * max_fall + max_fall == range * max_fall)
        by (nonlinear_arith)
        requires
            range >= 1,
    ;
}

impl FieldCharacter {
    pub fn new(
        field_position: CellCoord,
        chartype: CharType,
        movement_range: u32,
        attack_range: u32,
        heal_range: u32,
    ) -> (r: FieldCharacter)
        ensures
            r == (FieldCharacter { field_position, chartype, movement_range, attack_range, heal_range }),
    {
        FieldCharacter { field_position, chartype, movement_range, attack_range, heal_range }
    }

    /// The tree of cells this unit reaches from its position on `field`
    /// within `range` traversal steps, exactly as `range_tree_spec` states
    /// it.  With `range == 0` the tree is the root alone.  `range` bounds
    /// the expansion depth, so the recursion always terminates; without a
    /// visited set the node count can still reach four to the power of
    /// `range`, so callers keep budgets small.
    pub fn get_range_tree(&self, field: &FieldGripMap, range: u32) -> (r: VecTree<CellCoord>)
        requires
            field.wf(),
            traversal_fits(self.field_position@, range as nat, field@.max_fall),
        ensures
            r@ == range_tree_spec(field@, self.field_position@, range as nat),
    {
        expand_range_tree(field, self.field_position, range)
    }
}

} // verus!
