use zap_engine::systems::text::char_to_cell;

fn grid(c: char) -> Option<(f32, f32)> {
    char_to_cell(c, 16, 6, 32).map(|(col, row)| (col as f32, row as f32))
}

#[test]
fn char_to_grid_basic() {
    let (col, row) = grid('A').unwrap();
    assert_eq!(col, 1.0);
    assert_eq!(row, 2.0);
}

#[test]
fn char_to_grid_space() {
    let (col, row) = grid(' ').unwrap();
    assert_eq!(col, 0.0);
    assert_eq!(row, 0.0);
}

#[test]
fn char_to_grid_out_of_range() {
    assert!(grid('\x1F').is_none());
    assert!(grid('\t').is_none());
}

#[test]
fn char_to_grid_end_of_range() {
    let (col, row) = grid('~').unwrap();
    assert_eq!(col, 14.0);
    assert_eq!(row, 5.0);
}

#[test]
fn char_to_grid_beyond_atlas() {
    let result = grid('\x7F');
    assert!(result.is_some());
    let result = grid('\u{80}');
    assert!(result.is_none());
}

#[test]
fn char_to_cell_empty_atlas() {
    assert_eq!(char_to_cell('A', 0, 6, 32), None);
    assert_eq!(char_to_cell('A', 4, 4, 65), Some((0, 0)));
    assert_eq!(char_to_cell('F', 4, 4, 65), Some((1, 1)));
}
