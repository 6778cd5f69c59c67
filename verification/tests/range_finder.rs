use field_range::coords::CellCoord;
use field_range::fieldcharacter::FieldCharacter;
use field_range::fieldgridmap::FieldGripMap;
use field_range::chartype::CharType;
use field_range::vectree::VecTree;
use field_range::EMPTY_CELL;

// Shared test configuration: cell codes have a variant range of width 10,
// base type 20 marks a slope, a step may fall at most 3 levels.
const BTL: i32 = 10;
const SLOPE: i32 = 20;
const FLOOR: i32 = 0;

fn test_grid() -> FieldGripMap {
    FieldGripMap::new(1, 2, 3, 4, BTL, SLOPE, 3)
}

fn unit_at(x: i32, y: i32, z: i32, movement: u32, attack: u32, heal: u32) -> FieldCharacter {
    FieldCharacter::new(CellCoord::new(x, y, z), CharType::Player, movement, attack, heal)
}

fn collect_coords(tree: &VecTree<CellCoord>, out: &mut Vec<(i32, i32, i32)>) {
    out.push((tree.value.x, tree.value.y, tree.value.z));
    for child in tree.children.iter() {
        collect_coords(child, out);
    }
}

fn coord_set(tree: &VecTree<CellCoord>) -> Vec<(i32, i32, i32)> {
    let mut all: Vec<(i32, i32, i32)> = Vec::new();
    collect_coords(tree, &mut all);
    all.sort();
    all.dedup();
    all
}

fn lay_floor(grid: &mut FieldGripMap, x0: i32, x1: i32, y: i32, z0: i32, z1: i32) {
    for x in x0..x1 {
        for z in z0..z1 {
            grid.set_cell(CellCoord::new(x, y, z), FLOOR);
        }
    }
}

#[test]
fn zero_range_tree_is_single_leaf() {
    let mut grid = test_grid();
    lay_floor(&mut grid, -2, 3, -1, -2, 3);
    let unit = unit_at(0, 0, 0, 0, 0, 0);
    let tree = unit.get_range_tree(&grid, 0);
    assert_eq!(tree.value, CellCoord::new(0, 0, 0));
    assert_eq!(tree.children.len(), 0);
}

#[test]
fn flat_grid_reaches_manhattan_ball() {
    let mut grid = test_grid();
    lay_floor(&mut grid, -4, 5, -1, -4, 5);
    let unit = unit_at(0, 0, 0, 0, 0, 0);
    let tree = unit.get_range_tree(&grid, 2);
    let reached = coord_set(&tree);
    let mut expected: Vec<(i32, i32, i32)> = Vec::new();
    for x in -2i32..3 {
        for z in -2i32..3 {
            if x.abs() + z.abs() <= 2 {
                expected.push((x, 0, z));
            }
        }
    }
    expected.sort();
    assert_eq!(reached, expected);
}

#[test]
fn slope_step_climbs_one_level() {
    let mut grid = test_grid();
    // A slope tile beside the unit; base type of 23 is 20, the slope marker.
    grid.set_cell(CellCoord::new(1, 0, 0), 23);
    // Support below the origin's other neighbours is absent, so only the
    // slope direction yields a child.
    let unit = unit_at(0, 0, 0, 0, 0, 0);
    let tree = unit.get_range_tree(&grid, 1);
    assert_eq!(tree.children.len(), 1);
    assert_eq!(tree.children[0].value, CellCoord::new(1, 1, 0));
}

#[test]
fn fall_step_lands_on_first_supported_cell() {
    let mut grid = test_grid();
    // Empty at (1,0,0) and (1,-1,0), solid floor at (1,-2,0): the unit
    // drops exactly to the first cell directly above the floor.
    grid.set_cell(CellCoord::new(1, -2, 0), FLOOR);
    let unit = unit_at(0, 0, 0, 0, 0, 0);
    let tree = unit.get_range_tree(&grid, 1);
    assert_eq!(tree.children.len(), 1);
    assert_eq!(tree.children[0].value, CellCoord::new(1, -1, 0));
}

#[test]
fn fall_beyond_limit_is_illegal() {
    let mut grid = test_grid();
    // Support four levels down, one deeper than the configured fall limit.
    grid.set_cell(CellCoord::new(1, -5, 0), FLOOR);
    // A second direction with support just within the limit.
    grid.set_cell(CellCoord::new(-1, -4, 0), FLOOR);
    let unit = unit_at(0, 0, 0, 0, 0, 0);
    let tree = unit.get_range_tree(&grid, 1);
    assert_eq!(tree.children.len(), 1);
    assert_eq!(tree.children[0].value, CellCoord::new(-1, -3, 0));
}

#[test]
fn occupied_landing_cell_blocks_step() {
    let mut grid = test_grid();
    lay_floor(&mut grid, -2, 3, -1, -2, 3);
    // A solid block in the walking plane: the cell itself is not empty, so
    // it cannot be entered, and the unit cannot stand on top either since
    // stepping sideways finds support immediately below.
    grid.set_cell(CellCoord::new(1, 0, 0), 5);
    let unit = unit_at(0, 0, 0, 0, 0, 0);
    let tree = unit.get_range_tree(&grid, 1);
    let mut values: Vec<(i32, i32, i32)> = tree
        .children
        .iter()
        .map(|c| (c.value.x, c.value.y, c.value.z))
        .collect();
    values.sort();
    assert_eq!(values, vec![(-1, 0, 0), (0, 0, -1), (0, 0, 1)]);
}

#[test]
fn occupancy_blocking_excludes_unit_cells() {
    let mut grid = test_grid();
    lay_floor(&mut grid, -2, 5, -1, -2, 5);
    let mover = unit_at(0, 0, 0, 1, 0, 0);
    let bystander = unit_at(1, 0, 0, 1, 0, 0);
    grid.char_refs.insert(bystander.field_position, bystander);

    // Off by default: the occupied cell is entered as in the unrestricted
    // traversal.
    let tree = mover.get_range_tree(&grid, 1);
    assert_eq!(tree.children.len(), 4);

    grid.set_occupancy_blocking(true);
    let blocked = mover.get_range_tree(&grid, 1);
    let mut values: Vec<(i32, i32, i32)> = blocked
        .children
        .iter()
        .map(|c| (c.value.x, c.value.y, c.value.z))
        .collect();
    values.sort();
    assert_eq!(values, vec![(-1, 0, 0), (0, 0, -1), (0, 0, 1)]);
}

#[test]
fn bounds_clip_traversal() {
    let mut grid = test_grid();
    lay_floor(&mut grid, -2, 5, -1, -2, 5);
    let unit = unit_at(0, 0, 0, 1, 0, 0);
    grid.set_bounds(CellCoord::new(0, -5, -5), CellCoord::new(5, 5, 5));
    let tree = unit.get_range_tree(&grid, 1);
    let mut values: Vec<(i32, i32, i32)> = tree
        .children
        .iter()
        .map(|c| (c.value.x, c.value.y, c.value.z))
        .collect();
    values.sort();
    // The step to negative x leaves the box and is refused.
    assert_eq!(values, vec![(0, 0, -1), (0, 0, 1), (1, 0, 0)]);
    grid.clear_bounds();
    assert_eq!(unit.get_range_tree(&grid, 1).children.len(), 4);
}

#[test]
fn revisited_cells_are_expanded_again() {
    // The traversal keeps no visited set: a cell reachable along several
    // paths appears as a node once per path.
    let mut grid = test_grid();
    lay_floor(&mut grid, -3, 4, -1, -3, 4);
    let unit = unit_at(0, 0, 0, 0, 0, 0);
    let tree = unit.get_range_tree(&grid, 2);
    let mut all: Vec<(i32, i32, i32)> = Vec::new();
    collect_coords(&tree, &mut all);
    // 1 root + 4 children + 4 * 4 grandchildren.
    assert_eq!(all.len(), 21);
    let origin_nodes = all.iter().filter(|c| **c == (0, 0, 0)).count();
    // The origin itself recurs as a grandchild through each direction.
    assert_eq!(origin_nodes, 5);
}

#[test]
fn five_by_five_board_reachable_floor_cells() {
    let mut grid = test_grid();
    lay_floor(&mut grid, 0, 5, -1, 0, 5);
    let unit = unit_at(2, 0, 2, 1, 0, 0);
    let tree = unit.get_range_tree(&grid, unit.movement_range);
    grid.show_range_tree(&tree, grid.highlight_move_offset);
    let mut highlighted: Vec<(i32, i32, i32)> = grid
        .focus_highlighted_cells
        .iter()
        .map(|c| (c.x, c.y, c.z))
        .collect();
    highlighted.sort();
    highlighted.dedup();
    assert_eq!(
        highlighted,
        vec![(1, -1, 2), (2, -1, 1), (2, -1, 3), (3, -1, 2)]
    );
}

#[test]
fn flattening_twice_leaves_same_grid_and_set() {
    let mut grid = test_grid();
    lay_floor(&mut grid, 0, 5, -1, 0, 5);
    let unit = unit_at(2, 0, 2, 1, 0, 0);
    let tree = unit.get_range_tree(&grid, unit.movement_range);

    grid.show_range_tree(&tree, grid.highlight_move_offset);
    let mut first_set: Vec<(i32, i32, i32)> = grid
        .focus_highlighted_cells
        .iter()
        .map(|c| (c.x, c.y, c.z))
        .collect();
    first_set.sort();
    first_set.dedup();
    let mut first_cells: Vec<i32> = Vec::new();
    for &(x, y, z) in first_set.iter() {
        first_cells.push(grid.get_cell(CellCoord::new(x, y, z)));
    }

    grid.focus_highlighted_cells.clear();
    grid.show_range_tree(&tree, grid.highlight_move_offset);
    let mut second_set: Vec<(i32, i32, i32)> = grid
        .focus_highlighted_cells
        .iter()
        .map(|c| (c.x, c.y, c.z))
        .collect();
    second_set.sort();
    second_set.dedup();
    let mut second_cells: Vec<i32> = Vec::new();
    for &(x, y, z) in second_set.iter() {
        second_cells.push(grid.get_cell(CellCoord::new(x, y, z)));
    }

    assert_eq!(first_set, second_set);
    assert_eq!(first_cells, second_cells);
}

#[test]
fn show_char_ranges_paints_three_budgets() {
    let mut grid = test_grid();
    lay_floor(&mut grid, -6, 7, -1, -6, 7);
    let unit = unit_at(0, 0, 0, 1, 1, 2);
    grid.show_char_ranges(&unit);
    // Painted last, the movement range wins on the near floor cells.
    assert_eq!(grid.get_cell(CellCoord::new(1, -1, 0)), FLOOR + 2);
    // Manhattan distance 2: attackable (movement + attack), painted after
    // the healable range.
    assert_eq!(grid.get_cell(CellCoord::new(2, -1, 0)), FLOOR + 3);
    // Manhattan distance 3: healable only (movement + heal).
    assert_eq!(grid.get_cell(CellCoord::new(2, -1, 1)), FLOOR + 4);
    // Out of every range: untouched.
    assert_eq!(grid.get_cell(CellCoord::new(4, -1, 0)), FLOOR);
    // The root is excluded from flattening, but with budget 2 the attack
    // traversal revisits the origin one step out and one step back, so its
    // floor cell is painted as an expanded child after all; the movement
    // pass (budget 1) does not revisit it.
    assert_eq!(grid.get_cell(CellCoord::new(0, -1, 0)), FLOOR + 3);
}

#[test]
fn range_tree_depth_is_bounded_by_budget() {
    fn depth(tree: &VecTree<CellCoord>) -> usize {
        let mut best = 0;
        for child in tree.children.iter() {
            let d = 1 + depth(child);
            if d > best {
                best = d;
            }
        }
        best
    }
    let mut grid = test_grid();
    lay_floor(&mut grid, -4, 5, -1, -4, 5);
    let unit = unit_at(0, 0, 0, 0, 0, 0);
    let tree = unit.get_range_tree(&grid, 3);
    assert_eq!(depth(&tree), 3);
}

#[test]
fn empty_sentinel_matches_unset_cells() {
    let grid = test_grid();
    assert_eq!(grid.get_cell(CellCoord::new(7, 8, 9)), EMPTY_CELL);
    assert_eq!(grid.base_type_len(), BTL);
    assert_eq!(grid.slope_marker(), SLOPE);
}
