use field_range::coordmap::CoordMap;
use field_range::coords::CellCoord;
use field_range::fieldcharacter::FieldCharacter;
use field_range::fieldgridmap::FieldGripMap;
use field_range::chartype::CharType;
use field_range::vectree::VecTree;
use field_range::EMPTY_CELL;

const BTL: i32 = 10;
const SLOPE: i32 = 20;

fn small_grid() -> FieldGripMap {
    FieldGripMap::new(1, 2, 3, 4, BTL, SLOPE, 3)
}

#[test]
fn set_and_get_cell_round_trip() {
    let mut grid = small_grid();
    let c = CellCoord::new(3, -1, 7);
    assert_eq!(grid.get_cell(c), EMPTY_CELL);
    grid.set_cell(c, 42);
    assert_eq!(grid.get_cell(c), 42);
    grid.set_cell(c, 17);
    assert_eq!(grid.get_cell(c), 17);
    grid.set_cell(c, EMPTY_CELL);
    assert_eq!(grid.get_cell(c), EMPTY_CELL);
}

#[test]
fn overlay_preserves_base_type() {
    let mut grid = small_grid();
    let c = CellCoord::new(0, -1, 0);
    grid.set_cell(c, 23);
    grid.set_overlay_block(c, 7);
    assert_eq!(grid.get_cell(c), 27);
    grid.set_overlay_block(c, 2);
    assert_eq!(grid.get_cell(c), 22);
    grid.set_overlay_block(c, 0);
    assert_eq!(grid.get_cell(c), 20);
}

#[test]
fn overlay_on_empty_cell_writes_plain_offset() {
    let mut grid = small_grid();
    let c = CellCoord::new(5, 5, 5);
    grid.set_overlay_block(c, 7);
    assert_eq!(grid.get_cell(c), 7);
}

#[test]
fn overlay_is_idempotent_per_cell() {
    let mut grid = small_grid();
    let c = CellCoord::new(0, 0, 0);
    grid.set_cell(c, 35);
    grid.set_overlay_block(c, 4);
    let once = grid.get_cell(c);
    grid.set_overlay_block(c, 4);
    assert_eq!(grid.get_cell(c), once);
}

#[test]
fn variant_offset_round_trips_through_overlay() {
    let mut grid = small_grid();
    let c = CellCoord::new(2, -1, 2);
    grid.set_cell(c, 26);
    let kept = grid.variant_offset(c);
    assert_eq!(kept, 6);
    grid.set_overlay_block(c, 1);
    assert_eq!(grid.get_cell(c), 21);
    grid.set_overlay_block(c, kept);
    assert_eq!(grid.get_cell(c), 26);
    // An unset cell reports the sentinel's remainder.
    assert_eq!(grid.variant_offset(CellCoord::new(9, 9, 9)), -1);
}

#[test]
fn clear_char_ranges_resets_highlights() {
    let mut grid = small_grid();
    for x in 0..5 {
        for z in 0..5 {
            grid.set_cell(CellCoord::new(x, -1, z), 30);
        }
    }
    let unit = FieldCharacter::new(CellCoord::new(2, 0, 2), CharType::Ally, 1, 0, 0);
    let tree = unit.get_range_tree(&grid, 1);
    grid.show_range_tree(&tree, grid.highlight_move_offset);
    assert_eq!(grid.get_cell(CellCoord::new(1, -1, 2)), 32);
    assert_eq!(grid.focus_highlighted_cells.len(), 4);
    grid.clear_char_ranges();
    assert_eq!(grid.get_cell(CellCoord::new(1, -1, 2)), 30);
    assert_eq!(grid.get_cell(CellCoord::new(3, -1, 2)), 30);
    assert_eq!(grid.focus_highlighted_cells.len(), 0);
}

#[test]
fn clear_keeps_mouse_highlight() {
    let mut grid = small_grid();
    for x in 0..5 {
        for z in 0..5 {
            grid.set_cell(CellCoord::new(x, -1, z), 30);
        }
    }
    let unit = FieldCharacter::new(CellCoord::new(2, 0, 2), CharType::Ally, 1, 0, 0);
    let tree = unit.get_range_tree(&grid, 1);
    grid.show_range_tree(&tree, grid.highlight_move_offset);
    grid.last_mouse_coords = Some(CellCoord::new(1, -1, 2));
    grid.last_highlight_cell_offset = 2;
    grid.clear_char_ranges();
    // The hovered cell keeps the mouse highlight; the rest are reset.
    assert_eq!(grid.get_cell(CellCoord::new(1, -1, 2)), 31);
    assert_eq!(grid.get_cell(CellCoord::new(3, -1, 2)), 30);
    assert_eq!(grid.last_highlight_cell_offset, 0);
}

#[test]
fn reposition_moves_unit_index_entry() {
    let mut grid = small_grid();
    let a = CellCoord::new(1, 0, 1);
    let b = CellCoord::new(2, 0, 2);
    let unit = FieldCharacter::new(a, CharType::Enemy, 2, 1, 0);
    grid.char_refs.insert(a, unit);
    grid.reposition_char_from_pos(a, b);
    assert!(grid.char_refs.get(a).is_none());
    let moved = grid.char_refs.get(b).expect("unit should be indexed at the new position");
    assert_eq!(moved.chartype, CharType::Enemy);
    assert_eq!(moved.movement_range, 2);
}

#[test]
fn reposition_without_unit_changes_nothing() {
    let mut grid = small_grid();
    let a = CellCoord::new(1, 0, 1);
    let b = CellCoord::new(2, 0, 2);
    grid.reposition_char_from_pos(a, b);
    assert!(grid.char_refs.get(a).is_none());
    assert!(grid.char_refs.get(b).is_none());
}

#[test]
fn set_char_focused_stores_unit() {
    let mut grid = small_grid();
    let unit = FieldCharacter::new(CellCoord::new(0, 0, 0), CharType::Player, 1, 1, 1);
    grid.set_char_focused(Some(unit));
    assert_eq!(grid.focused_char.expect("focused").chartype, CharType::Player);
    grid.set_char_focused(None);
    assert!(grid.focused_char.is_none());
}

#[test]
fn coord_map_insert_get_remove() {
    let mut m: CoordMap<i32> = CoordMap::new();
    let a = CellCoord::new(0, 1, 2);
    let b = CellCoord::new(0, 1, 3);
    assert!(m.get(a).is_none());
    m.insert(a, 10);
    m.insert(b, 20);
    m.insert(a, 30);
    assert_eq!(*m.get(a).expect("a present"), 30);
    assert_eq!(*m.get(b).expect("b present"), 20);
    m.remove(a);
    assert!(m.get(a).is_none());
    assert_eq!(*m.get(b).expect("b still present"), 20);
}

#[test]
fn vectree_new_stores_value_and_children() {
    let leaf: VecTree<CellCoord> = VecTree::new(CellCoord::new(1, 2, 3), Vec::new());
    let root: VecTree<CellCoord> = VecTree::new(CellCoord::new(0, 0, 0), vec![leaf]);
    assert_eq!(root.value, CellCoord::new(0, 0, 0));
    assert_eq!(root.children.len(), 1);
    assert_eq!(root.children[0].value, CellCoord::new(1, 2, 3));
}

#[test]
fn field_character_new_stores_budgets() {
    let unit = FieldCharacter::new(CellCoord::new(4, 0, 4), CharType::Ally, 3, 2, 1);
    assert_eq!(unit.field_position, CellCoord::new(4, 0, 4));
    assert_eq!(unit.movement_range, 3);
    assert_eq!(unit.attack_range, 2);
    assert_eq!(unit.heal_range, 1);
}
