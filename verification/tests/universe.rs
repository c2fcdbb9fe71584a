use wasm_game_of_life::cell::Cell;
use wasm_game_of_life::errors::ParseUniverseError;
use wasm_game_of_life::grid::Grid;
use wasm_game_of_life::universe::Universe;

const MOCK_UNIVERSE_WITH_PADDING: &str = "\
....
.##.
.##.
....";

const MOCK_UNIVERSE_WITHOUT_PADDING: &str = "\
.#
#.";

#[test]
fn count_live_neighbours_works() {
    let universe: Universe = MOCK_UNIVERSE_WITH_PADDING.try_into().unwrap();

    assert_eq!(3, universe.count_live_neighbours((2, 1)));
}

#[test]
fn count_live_neighbours_works_across_edge() {
    let universe: Universe = MOCK_UNIVERSE_WITHOUT_PADDING.try_into().unwrap();

    assert_eq!(4, universe.count_live_neighbours((0, 0)));
}

#[test]
fn get_new_state_works() {
    let universe: Universe = MOCK_UNIVERSE_WITH_PADDING.try_into().unwrap();

    assert_eq!(Cell::Alive, universe.get_new_state((1, 1)));
}

fn read(text: &str) -> Universe {
    Universe::parse(text).unwrap()
}

#[test]
fn new_empty_has_one_dead_cell_for_each_coordinate_pair() {
    for (columns, rows) in [(0, 0), (1, 1), (3, 2), (2, 5), (0, 4), (4, 0)] {
        let universe = Universe::new_empty(columns, rows);

        assert_eq!(universe.columns(), columns);
        assert_eq!(universe.rows(), rows);
        assert_eq!(universe.cell_bytes(), vec![0u8; columns * rows]);
        for row in 0..rows {
            for column in 0..columns {
                assert_eq!(universe.cells().get((column, row)), Some(&Cell::Dead));
            }
        }
        assert_eq!(universe.cells().get((columns, 0)), None);
        assert_eq!(universe.cells().get((0, rows)), None);
    }
}

#[test]
fn new_random_has_the_dimensions_asked_for() {
    let universe = Universe::new_random(7, 3);

    assert_eq!(universe.columns(), 7);
    assert_eq!(universe.rows(), 3);
    assert_eq!(universe.cell_bytes().len(), 21);
}

#[test]
fn parse_reads_rows_and_cells() {
    let universe = read(".#.\n##.");

    assert_eq!(universe.columns(), 3);
    assert_eq!(universe.rows(), 2);
    assert_eq!(universe.cell_bytes(), vec![0, 1, 0, 1, 1, 0]);
    assert_eq!(universe.cells().get((1, 0)), Some(&Cell::Alive));
    assert_eq!(universe.cells().get((2, 1)), Some(&Cell::Dead));
}

#[test]
fn parse_and_try_from_agree() {
    for text in ["", ".#\n#.", ".#\n#", ".#\nX.", "#\n"] {
        assert_eq!(Universe::try_from(text), Universe::parse(text));
    }
}

#[test]
fn parse_tolerates_one_final_newline() {
    assert_eq!(read(".#\n#.\n"), read(".#\n#."));
    assert_eq!(read("#\n"), read("#"));
}

#[test]
fn parse_takes_a_second_final_newline_for_an_empty_row() {
    assert_eq!(
        Universe::parse(".#\n#.\n\n"),
        Err(ParseUniverseError::MismatchedRowLengths(2, 0))
    );
}

#[test]
fn parse_rejects_mismatched_rows() {
    assert_eq!(Universe::parse(".#\n#"), Err(ParseUniverseError::MismatchedRowLengths(2, 1)));
    assert_eq!(Universe::parse(".\n##"), Err(ParseUniverseError::MismatchedRowLengths(1, 2)));
    assert_eq!(
        Universe::parse("..\n..\n...\n."),
        Err(ParseUniverseError::MismatchedRowLengths(2, 3))
    );
    assert_eq!(Universe::parse("\n#"), Err(ParseUniverseError::MismatchedRowLengths(0, 1)));
}

#[test]
fn parse_rejects_an_invalid_character() {
    assert_eq!(Universe::parse(".#\nX."), Err(ParseUniverseError::InvalidCell('X')));
    assert_eq!(Universe::parse("a#\nX."), Err(ParseUniverseError::InvalidCell('a')));
    assert_eq!(Universe::parse("0"), Err(ParseUniverseError::InvalidCell('0')));
}

#[test]
fn parse_handles_no_whitespace_but_the_final_newline() {
    assert_eq!(Universe::parse(".# "), Err(ParseUniverseError::InvalidCell(' ')));
    assert_eq!(Universe::parse(" .#"), Err(ParseUniverseError::InvalidCell(' ')));
    assert_eq!(Universe::parse(".#\t\n#.\t"), Err(ParseUniverseError::InvalidCell('\t')));
    assert_eq!(Universe::parse(".#\r\n#.\r\n"), Err(ParseUniverseError::InvalidCell('\r')));
}

#[test]
fn parse_reports_a_mismatched_row_before_an_invalid_character() {
    assert_eq!(Universe::parse("X.\n#"), Err(ParseUniverseError::MismatchedRowLengths(2, 1)));
}

#[test]
fn parse_measures_rows_in_bytes() {
    assert_eq!(Universe::parse("é\n."), Err(ParseUniverseError::MismatchedRowLengths(2, 1)));
    assert_eq!(Universe::parse("é\n.."), Err(ParseUniverseError::InvalidCell('é')));
    assert_eq!(Universe::parse("..\n€"), Err(ParseUniverseError::MismatchedRowLengths(2, 3)));
    assert_eq!(Universe::parse("....\n🙂"), Err(ParseUniverseError::InvalidCell('🙂')));
}

#[test]
fn parse_of_the_empty_text_is_the_universe_without_cells() {
    let empty = read("");

    assert_eq!(empty.columns(), 0);
    assert_eq!(empty.rows(), 0);
    assert_eq!(empty, Universe::new_empty(0, 0));
    assert_eq!(empty.render_to_text(), "");

    let next = empty.step();

    assert_eq!(next.columns(), 0);
    assert_eq!(next.rows(), 0);
    assert_eq!(next, empty);
}

#[test]
fn parse_of_empty_rows_is_the_universe_without_cells() {
    assert_eq!(read("\n"), Universe::new_empty(0, 0));
    assert_eq!(read("\n\n\n"), Universe::new_empty(0, 0));
}

#[test]
fn render_to_text_writes_one_line_for_each_row() {
    assert_eq!(read(".#\n#.").render_to_text(), ".#\n#.\n");
    assert_eq!(read("#").render_to_text(), "#\n");
    assert_eq!(read("..#\n").render_to_text(), "..#\n");
    assert_eq!(Universe::new_empty(3, 2).render_to_text(), "...\n...\n");
}

#[test]
fn render_to_text_of_a_universe_without_cells_is_empty() {
    assert_eq!(Universe::new_empty(0, 0).render_to_text(), "");
    assert_eq!(Universe::new_empty(0, 3).render_to_text(), "");
    assert_eq!(Universe::new_empty(3, 0).render_to_text(), "");
}

#[test]
fn text_of_a_universe_reads_back_as_the_universe() {
    for (columns, rows) in [(0, 0), (1, 1), (1, 4), (4, 1), (5, 3)] {
        let empty = Universe::new_empty(columns, rows);
        let random = Universe::new_random(columns, rows);

        assert_eq!(Universe::parse(&empty.render_to_text()), Ok(empty));
        assert_eq!(Universe::parse(&random.render_to_text()), Ok(random));
    }
}

#[test]
fn text_of_a_universe_with_one_dimension_of_zero_reads_back_without_either() {
    let no_columns = Universe::new_empty(0, 3);
    let no_rows = Universe::new_empty(3, 0);

    assert_eq!(Universe::parse(&no_columns.render_to_text()), Ok(Universe::new_empty(0, 0)));
    assert_eq!(Universe::parse(&no_rows.render_to_text()), Ok(Universe::new_empty(0, 0)));
}

#[test]
fn step_preserves_a_still_life() {
    let block = read(MOCK_UNIVERSE_WITH_PADDING);

    assert_eq!(block.step(), block);
    assert_eq!(block.step().step(), block);
}

#[test]
fn step_gives_birth_with_three_live_neighbours() {
    let three = read("....\n.##.\n.#..\n....");

    assert_eq!(three.count_live_neighbours((2, 2)), 3);
    assert_eq!(three.cells().get((2, 2)), Some(&Cell::Dead));
    assert_eq!(three.get_new_state((2, 2)), Cell::Alive);
    assert_eq!(three.step(), read(MOCK_UNIVERSE_WITH_PADDING));
}

#[test]
fn step_applies_the_rule_to_every_cell() {
    let blinker = read(".....\n.....\n.###.\n.....\n.....");
    let turned = read(".....\n..#..\n..#..\n..#..\n.....");

    assert_eq!(blinker.step(), turned);
    assert_eq!(turned.step(), blinker);
}

#[test]
fn step_moves_a_glider() {
    let glider = read(".#....\n..#...\n###...\n......\n......\n......");
    let moved = read("......\n..#...\n...#..\n.###..\n......\n......");

    assert_eq!(glider.step().step().step().step(), moved);
}

#[test]
fn step_lets_a_lonely_or_crowded_cell_die() {
    assert_eq!(read("...\n.#.\n...").step(), Universe::new_empty(3, 3));
    assert_eq!(read("....\n.##.\n....\n....").step(), Universe::new_empty(4, 4));

    let crowded = read(".....\n.###.\n.###.\n.###.\n.....");

    assert_eq!(crowded.count_live_neighbours((2, 2)), 8);
    assert_eq!(crowded.get_new_state((2, 2)), Cell::Dead);
}

#[test]
fn step_wraps_around_the_edges() {
    let blinker = read("#..#\n....\n....\n#..#");

    assert_eq!(blinker.count_live_neighbours((0, 0)), 3);
    assert_eq!(blinker.step(), blinker);

    let line = read("....\n....\n....\n##.#");

    assert_eq!(line.step(), read("#...\n....\n#...\n#..."));
}

#[test]
fn step_leaves_the_receiver_as_it_was() {
    let universe = read(".....\n.....\n.###.\n.....\n.....");
    let before = universe.clone();
    let bytes = universe.cell_bytes();

    let next = universe.step();

    assert_ne!(next, universe);
    assert_eq!(universe, before);
    assert_eq!(universe.cell_bytes(), bytes);
    assert_eq!(universe.render_to_text(), ".....\n.....\n.###.\n.....\n.....\n");
}

#[test]
fn step_is_a_function_of_the_universe() {
    let universe = Universe::new_random(6, 5);

    assert_eq!(universe.step(), universe.step());
    assert_eq!(universe.clone().step(), universe.step());
    assert_eq!(universe.step().columns(), 6);
    assert_eq!(universe.step().rows(), 5);
}

#[test]
fn count_live_neighbours_counts_each_of_the_eight_displacements() {
    let single = read("#");

    assert_eq!(single.count_live_neighbours((0, 0)), 8);
    assert_eq!(single.get_new_state((0, 0)), Cell::Dead);

    let column = read("#\n.\n.");

    assert_eq!(column.count_live_neighbours((0, 0)), 2);
    assert_eq!(column.count_live_neighbours((0, 1)), 3);
    assert_eq!(column.count_live_neighbours((0, 2)), 3);

    let pair = read(MOCK_UNIVERSE_WITHOUT_PADDING);

    assert_eq!(pair.count_live_neighbours((1, 0)), 4);
    assert_eq!(pair.count_live_neighbours((1, 1)), 4);
}

#[test]
fn count_live_neighbours_reduces_coordinates_outside_the_grid() {
    let universe = read(MOCK_UNIVERSE_WITH_PADDING);

    assert_eq!(universe.count_live_neighbours((6, 5)), 3);
    assert_eq!(universe.count_live_neighbours((2 + 4 * 1000, 1 + 4 * 1000)), 3);
    assert_eq!(universe.count_live_neighbours((usize::MAX, usize::MAX)), 1);
    assert_eq!(universe.count_live_neighbours((usize::MAX - 3, usize::MAX - 2)), 2);
}

#[test]
fn get_new_state_takes_a_cell_outside_the_grid_for_dead() {
    let universe = read("###\n###\n###");

    assert_eq!(universe.get_new_state((1, 1)), Cell::Dead);
    assert_eq!(universe.get_new_state((3, 3)), Cell::Dead);

    let three = read("....\n.##.\n.#..\n....");

    assert_eq!(three.get_new_state((6, 6)), Cell::Alive);
    assert_eq!(three.get_new_state((5, 5)), Cell::Dead);
    assert_eq!(three.get_new_state((1, 1)), Cell::Alive);
}

#[test]
fn from_grid_keeps_the_cells() {
    let grid = Grid::new(3, 2, |(column, row)| Cell::from(column == row));
    let universe = Universe::from_grid(grid.clone());

    assert_eq!(universe.cells(), &grid);
    assert_eq!(universe.render_to_text(), "#..\n.#.\n");
}

#[test]
fn universes_are_equal_when_dimensions_and_cells_are() {
    assert_eq!(read(".#\n#."), read(".#\n#.\n"));
    assert_ne!(read(".#\n#."), read(".#\n.#"));
    assert_ne!(read("....").cell_bytes().len(), 0);
    assert_ne!(read("...."), read("..\n.."));
    assert_ne!(Universe::new_empty(0, 3), Universe::new_empty(0, 0));
}

#[test]
fn count_live_neighbours_on_a_torus_of_two_by_two() {
    let full = read("##\n##");

    assert_eq!(full.count_live_neighbours((1, 0)), 8);
    assert_eq!(full.get_new_state((1, 0)), Cell::Dead);
    assert_eq!(full.step(), Universe::new_empty(2, 2));
}

#[test]
fn new_with_asks_the_generator_once_for_each_cell() {
    let calls = std::cell::Cell::new(0usize);
    let universe = Universe::new_with(3, 2, || {
        calls.set(calls.get() + 1);
        calls.get() % 3 == 0
    });

    assert_eq!(calls.get(), 6);
    assert_eq!(universe, read("..#\n..#"));
}

#[test]
fn new_with_makes_a_live_cell_of_true_and_a_dead_cell_of_false() {
    assert_eq!(Universe::new_with(2, 2, || true), read("##\n##"));
    assert_eq!(Universe::new_with(2, 2, || false), Universe::new_empty(2, 2));
    assert_eq!(Universe::new_with(0, 0, || true), Universe::new_empty(0, 0));
}

#[test]
fn rule_with_neighbours_outside_the_grid_taken_for_absent() {
    let universe = read("##\n##");
    let cells = universe.cells();
    let (column, row) = (1usize, 0usize);
    let mut count = 0;
    for (column_step, row_step) in
        [(-1, -1), (0, -1), (1, -1), (-1, 0), (1, 0), (-1, 1), (0, 1), (1, 1)]
    {
        let neighbour = (column.wrapping_add_signed(column_step), row.wrapping_add_signed(row_step));
        count += cells.get(neighbour).map_or(0, |cell| cell.as_u8());
    }

    assert_eq!(count, 3);
    assert_eq!(cells.get((column, row)), Some(&Cell::Alive));
    assert_eq!(cells.get((column, row)).unwrap().next(count), Cell::Alive);
    assert_eq!(Cell::Dead.next(count), Cell::Alive);
}
