use zap_engine::components::tilemap::TileGrid;

#[test]
fn new_grid_is_empty() {
    let grid: TileGrid<(f32, f32)> = TileGrid::new(10, 10);
    assert_eq!(grid.width(), 10);
    assert_eq!(grid.height(), 10);
    assert_eq!(grid.tile_count(), 0);
    assert_eq!(grid.capacity(), 100);
}

#[test]
fn grid_set_and_get() {
    let mut grid = TileGrid::new(16, 16);
    grid.set(5, 5, Some((3.0f32, 2.0f32)));
    assert_eq!(grid.get(5, 5), Some(&(3.0, 2.0)));
    assert_eq!(grid.get(0, 0), None);
    assert_eq!(grid.tile_count(), 1);
}

#[test]
fn grid_out_of_bounds() {
    let mut grid: TileGrid<u8> = TileGrid::new(16, 10);
    grid.set(16, 0, Some(1));
    assert_eq!(grid.get(16, 0), None);
    assert_eq!(grid.get(0, 10), None);
    assert_eq!(grid.tile_count(), 0);
}

#[test]
fn grid_fill_rect_and_clear() {
    let mut grid = TileGrid::new(10, 10);
    grid.fill_rect(0, 0, 5, 5, Some(1u8));
    assert_eq!(grid.tile_count(), 25);
    grid.fill_rect(8, 8, 5, 5, Some(2u8));
    assert_eq!(grid.tile_count(), 29);
    assert_eq!(grid.get(9, 9), Some(&2));
    grid.fill_rect(0, 0, 1, 1, None);
    assert_eq!(grid.tile_count(), 28);
    grid.clear();
    assert_eq!(grid.tile_count(), 0);
    assert_eq!(grid.capacity(), 100);
}

#[test]
fn occupied_in_is_row_major_and_clipped() {
    let mut grid: TileGrid<u8> = TileGrid::new(4, 3);
    grid.set(2, 0, Some(1));
    grid.set(0, 1, Some(2));
    grid.set(3, 1, Some(3));
    grid.set(1, 2, Some(4));
    assert_eq!(grid.occupied_in(0, 0, 4, 3), vec![(2, 0, 1), (0, 1, 2), (3, 1, 3), (1, 2, 4)]);
    assert_eq!(grid.occupied_in(1, 1, 100, 100), vec![(3, 1, 3), (1, 2, 4)]);
    assert_eq!(grid.occupied_in(0, 0, 2, 2), vec![(0, 1, 2)]);
    assert!(grid.occupied_in(3, 2, 1, 1).is_empty());
}
