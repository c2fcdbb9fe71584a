use wasm_game_of_life::rendering::canvas::cell_origin;
use wasm_game_of_life::rendering::canvas::extent;
use wasm_game_of_life::universe::Universe;

#[test]
fn extent_counts_cells_and_grid_lines() {
    assert_eq!(extent(4, 3), Some(16));
    assert_eq!(extent(4, 0), Some(1));
    assert_eq!(extent(0, 5), Some(6));
    assert_eq!(extent(1, 1), Some(3));
}

#[test]
fn extent_is_none_when_too_large() {
    assert_eq!(extent(usize::MAX, 1), None);
    assert_eq!(extent(usize::MAX, 0), Some(1));
    assert_eq!(extent(usize::MAX / 2, 2), None);
    assert_eq!(extent(0, usize::MAX), None);
    assert_eq!(extent(0, usize::MAX - 1), Some(usize::MAX));
}

#[test]
fn cell_origin_skips_the_grid_line() {
    assert_eq!(cell_origin(4, 0), Some(1));
    assert_eq!(cell_origin(4, 2), Some(11));
    assert_eq!(cell_origin(0, 7), Some(8));
    assert_eq!(cell_origin(usize::MAX, 1), None);
}

#[test]
fn cell_bytes_holds_one_byte_for_each_cell() {
    assert_eq!(Universe::parse(".#\n#.").unwrap().cell_bytes(), vec![0, 1, 1, 0]);
    assert_eq!(Universe::parse("##.\n..#").unwrap().cell_bytes(), vec![1, 1, 0, 0, 0, 1]);
    assert_eq!(Universe::new_empty(0, 0).cell_bytes(), Vec::<u8>::new());
}

#[test]
fn vertices_of_a_single_cell() {
    let universe = Universe::new_empty(1, 1);

    assert_eq!(
        universe.vertices(2),
        vec![1, 3, 0, 0, 1, 1, 0, 0, 3, 1, 0, 0, 3, 1, 0, 0, 3, 3, 0, 0, 1, 3, 0, 0]
    );
}

#[test]
fn vertices_go_column_by_column_with_rows_counted_from_the_bottom() {
    let universe = Universe::new_empty(2, 3);
    let vertices = universe.vertices(4);

    assert_eq!(vertices.len(), 24 * 6);
    let cells: Vec<(u32, u32, u32, u32)> = (0..6)
        .map(|cell| {
            (vertices[24 * cell + 4], vertices[24 * cell + 5], vertices[24 * cell + 6], vertices[24 * cell + 7])
        })
        .collect();
    assert_eq!(
        cells,
        vec![(1, 1, 0, 2), (1, 6, 0, 1), (1, 11, 0, 0), (6, 1, 1, 2), (6, 6, 1, 1), (6, 11, 1, 0)]
    );
    assert_eq!(
        vertices[24 * 4..24 * 5].to_vec(),
        vec![6, 10, 1, 1, 6, 6, 1, 1, 10, 6, 1, 1, 10, 6, 1, 1, 10, 10, 1, 1, 6, 10, 1, 1]
    );
}

#[test]
fn vertices_of_a_universe_without_cells_are_none() {
    assert_eq!(Universe::new_empty(0, 0).vertices(4), Vec::<u32>::new());
    assert_eq!(Universe::new_empty(0, 3).vertices(4), Vec::<u32>::new());
    assert_eq!(Universe::new_empty(3, 0).vertices(4), Vec::<u32>::new());
}
