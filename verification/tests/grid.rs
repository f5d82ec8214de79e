use cutty::grid::{Boundary, Column, GridRow, GridSize, Line, Point, RowStorage};

#[test]
fn storage_rotate_preserves_visible_indexing() {
    let mut storage = RowStorage::<GridRow<usize>>::with_capacity(4, |_| GridRow::new(1));
    for i in 0..4 {
        storage.line_mut(Line(i)).set(Column(0), i as usize + 1);
    }

    storage.rotate_down(1);

    assert_eq!(*storage.line(Line(0)).cell(Column(0)), 4);
    assert_eq!(*storage.line(Line(1)).cell(Column(0)), 1);
    assert_eq!(*storage.line(Line(2)).cell(Column(0)), 2);
    assert_eq!(*storage.line(Line(3)).cell(Column(0)), 3);
}

#[test]
fn row_occ_tracks_mutations() {
    let mut row = GridRow::<usize>::new(4);
    row.set(Column(2), 7);
    assert_eq!(row.occ, 3);

    row.set(Column(3), 8);
    assert_eq!(row.occ, 4);
}

#[test]
fn row_shrink_returns_non_empty_tail() {
    let mut row = GridRow::<usize>::new(5);
    row.set(Column(0), 1);
    row.set(Column(1), 2);
    row.set(Column(3), 3);

    let tail = row.shrink(2).expect("tail");
    assert_eq!(row.len(), 2);
    assert_eq!(tail, vec![0, 3]);
}

#[test]
fn point_add_and_sub_wrap_columns() {
    let dims = GridSize { total_lines: 4, screen_lines: 4, columns: 3 };

    let point = Point::new(Line(1), Column(2));
    assert_eq!(point.add(&dims, Boundary::Cursor, 2), Point::new(Line(2), Column(1)));
    assert_eq!(point.sub(&dims, Boundary::Cursor, 2), Point::new(Line(1), Column(0)));
}

#[test]
fn point_add_then_sub_returns_to_start() {
    let dims = GridSize { total_lines: 10, screen_lines: 5, columns: 7 };
    let start = Point::new(Line(0), Column(3));
    for n in 0..20 {
        let moved = start.add(&dims, Boundary::Wrap, n);
        assert_eq!(moved.sub(&dims, Boundary::Wrap, n), start);
    }
}

#[test]
fn grid_clamp_keeps_points_inside() {
    let dims = GridSize { total_lines: 6, screen_lines: 4, columns: 5 };
    assert_eq!(Point::new(Line(9), Column(2)).grid_clamp(&dims, Boundary::Grid), Point::new(Line(3), Column(4)));
    assert_eq!(Point::new(Line(-5), Column(2)).grid_clamp(&dims, Boundary::Grid), Point::new(Line(-2), Column(0)));
    assert_eq!(Line(7).grid_clamp(&dims, Boundary::Cursor), Line(3));
}

#[test]
fn storage_swap_and_rotate_move_rows() {
    let mut storage = RowStorage::<GridRow<usize>>::with_capacity(3, |_| GridRow::new(1));
    for i in 0..3 {
        storage.line_mut(Line(i)).set(Column(0), i as usize + 10);
    }
    storage.swap(Line(0), Line(2));
    assert_eq!(*storage.line(Line(0)).cell(Column(0)), 12);
    assert_eq!(*storage.line(Line(2)).cell(Column(0)), 10);
    storage.rotate(1);
    storage.rotate(-1);
    assert_eq!(*storage.line(Line(0)).cell(Column(0)), 12);
    assert_eq!(storage.len(), 3);
}

#[test]
fn storage_take_all_and_replace_round_trip() {
    let mut storage = RowStorage::<GridRow<usize>>::with_capacity(3, |_| GridRow::new(2));
    storage.line_mut(Line(1)).set(Column(1), 5);
    let rows = storage.take_all();
    assert_eq!(rows.len(), 3);
    assert!(storage.is_empty());
    storage.replace_inner(rows);
    assert_eq!(storage.len(), 3);
    assert_eq!(*storage.line(Line(1)).cell(Column(1)), 5);
}

#[test]
fn row_grow_and_front_split() {
    let mut row = GridRow::<usize>::new(2);
    row.grow(4);
    assert_eq!(row.len(), 4);
    row.set(Column(3), 9);
    let front = row.front_split_off(1);
    assert_eq!(front, vec![0]);
    assert_eq!(row.to_vec(), vec![0, 0, 9]);
    assert!(!row.is_clear());
    assert_eq!(row.last(), Some(&9));
}

fn numbered_storage() -> RowStorage<GridRow<usize>> {
    let mut storage = RowStorage::<GridRow<usize>>::with_capacity(4, |_| GridRow::new(1));
    for i in 0..4 {
        storage.line_mut(Line(i)).set(Column(0), i as usize + 1);
    }
    storage
}

fn visible_values(storage: &RowStorage<GridRow<usize>>) -> Vec<usize> {
    (0..4).map(|i| *storage.line(Line(i)).cell(Column(0))).collect()
}

#[test]
fn rotating_there_and_back_restores_the_rows() {
    let mut storage = numbered_storage();
    storage.rotate(3);
    assert_eq!(visible_values(&storage), vec![2, 3, 4, 1]);
    storage.rotate(-3);
    assert_eq!(visible_values(&storage), vec![1, 2, 3, 4]);
}

#[test]
fn rotating_forward_matches_rotate_down() {
    let mut forward = numbered_storage();
    let mut down = numbered_storage();
    forward.rotate(1);
    down.rotate_down(1);
    assert_eq!(visible_values(&forward), visible_values(&down));
}

#[test]
fn new_rows_hold_default_cells() {
    let row = GridRow::<usize>::new(4);
    assert!(row.as_slice().iter().all(|&c| c == 0));
    let mut grown = GridRow::<usize>::new(2);
    grown.set(Column(1), 5);
    grown.grow(4);
    assert_eq!(grown.as_slice(), &[0, 5, 0, 0]);
    assert_eq!(grown.occ, 2);
}

#[test]
fn swapping_twice_restores_the_rows() {
    let mut storage = numbered_storage();
    storage.swap(Line(0), Line(3));
    assert_eq!(visible_values(&storage), vec![4, 2, 3, 1]);
    storage.swap(Line(0), Line(3));
    assert_eq!(visible_values(&storage), vec![1, 2, 3, 4]);
}

#[test]
fn taking_all_rows_and_putting_them_back_keeps_them() {
    let mut storage = numbered_storage();
    let rows = storage.take_all();
    storage.replace_inner(rows);
    assert_eq!(visible_values(&storage), vec![1, 2, 3, 4]);
}

#[test]
fn clamping_a_line_twice_changes_nothing() {
    let dims = GridSize { total_lines: 10, screen_lines: 4, columns: 5 };
    for l in -12..12 {
        let once = Line(l).grid_clamp(&dims, Boundary::Grid);
        assert!(once.0 >= -6 && once.0 <= 3);
        assert_eq!(once.grid_clamp(&dims, Boundary::Grid), once);
        let cursor = Line(l).grid_clamp(&dims, Boundary::Cursor);
        assert_eq!(cursor.0, l.clamp(0, 3));
    }
}

#[test]
fn rotate_down_takes_the_count_modulo_the_rows() {
    let mut once = numbered_storage();
    let mut five = numbered_storage();
    once.rotate_down(1);
    five.rotate_down(5);
    assert_eq!(visible_values(&five), vec![4, 1, 2, 3]);
    assert_eq!(visible_values(&five), visible_values(&once));
    let mut full = numbered_storage();
    full.rotate_down(4);
    assert_eq!(visible_values(&full), vec![1, 2, 3, 4]);
}
