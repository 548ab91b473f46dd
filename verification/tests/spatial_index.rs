use zap_engine::api::types::EntityId;
use zap_engine::extensions::spatial::CellIndex;

#[test]
fn cells_insert_and_query() {
    let mut grid = CellIndex::new();
    grid.insert(EntityId(1), (0, 0));
    grid.insert(EntityId(2), (1, 0));
    grid.insert(EntityId(3), (2, 0));
    let result = grid.query_cells((0, 0), (1, 1));
    assert_eq!(result, vec![EntityId(1), EntityId(2)]);
    let all = grid.query_cells((0, 0), (3, 1));
    assert_eq!(all.len(), 3);
    assert_eq!(grid.cell_count(), 3);
}

#[test]
fn cells_update_moves_entity() {
    let mut grid = CellIndex::new();
    grid.insert(EntityId(1), (0, 0));
    assert_eq!(grid.get_cell(EntityId(1)), Some((0, 0)));
    grid.insert(EntityId(1), (1, 0));
    assert_eq!(grid.get_cell(EntityId(1)), Some((1, 0)));
    assert!(grid.query_cells((0, 0), (0, 1)).is_empty());
    assert_eq!(grid.cell_count(), 1);
}

#[test]
fn cells_remove_entity() {
    let mut grid = CellIndex::with_capacity(16);
    grid.insert(EntityId(1), (0, 0));
    assert_eq!(grid.len(), 1);
    grid.remove(EntityId(1));
    assert_eq!(grid.len(), 0);
    assert!(!grid.contains(EntityId(1)));
    assert!(grid.is_empty());
    assert_eq!(grid.cell_count(), 0);
}

#[test]
fn cells_negative_coordinates() {
    let mut grid = CellIndex::new();
    grid.insert(EntityId(1), (-1, -1));
    grid.insert(EntityId(2), (-2, -1));
    let result = grid.query_cells((-2, -1), (0, 0));
    assert_eq!(result, vec![EntityId(2), EntityId(1)]);
    grid.insert(EntityId(3), (i32::MIN, i32::MAX));
    assert_eq!(grid.query_cells((i32::MIN, i32::MAX), (i32::MIN, i32::MAX)), vec![EntityId(3)]);
}

#[test]
fn cells_same_cell_no_duplicate() {
    let mut grid = CellIndex::new();
    grid.insert(EntityId(1), (0, 0));
    grid.insert(EntityId(1), (0, 0));
    assert_eq!(grid.len(), 1);
    assert_eq!(grid.query_cells((0, 0), (1, 1)).len(), 1);
}

#[test]
fn cells_query_order_is_column_major_then_insertion() {
    let mut grid = CellIndex::new();
    grid.insert(EntityId(4), (1, 0));
    grid.insert(EntityId(5), (0, 1));
    grid.insert(EntityId(6), (0, 1));
    grid.insert(EntityId(7), (0, 0));
    assert_eq!(grid.query_cells((0, 0), (1, 1)), vec![EntityId(7), EntityId(5), EntityId(6), EntityId(4)]);
    assert!(grid.query_cells((1, 1), (0, 0)).is_empty());
    grid.clear();
    assert!(grid.is_empty());
}
