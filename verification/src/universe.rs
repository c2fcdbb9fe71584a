//! A universe of cells and the rule that takes it from one generation to
//! the next.
//!
//! The grid is a torus: the column to the left of column 0 is the last
//! column, the row above row 0 is the last row. Every cell therefore has
//! eight neighbours, one for each displacement of at most one step in each
//! direction, also where the grid is so narrow that several of them land on
//! the same cell.

use crate::cell::Cell;
use crate::errors::ParseUniverseError;
use crate::grid::Grid;
use crate::grid::GridView;
use crate::grid::lemma_coordinates_in_bounds;
use crate::grid::lemma_index_coordinates_inverse;
use crate::grid::lemma_index_in_bounds;
use crate::text_format::cells_of;
use crate::text_format::first_invalid;
use crate::text_format::first_mismatch;
use crate::text_format::glyph_width;
use crate::text_format::lemma_first_mismatch_is_first;
use crate::text_format::lemma_row_length_push;
use crate::text_format::lemma_split_rows_nonempty;
use crate::text_format::lemma_split_rows_push;
use crate::text_format::parsed;
use crate::text_format::row_length;
use crate::text_format::split_rows;
use crate::text_format::strip_final_newline;
use vstd::prelude::*;
use vstd::std_specs::cmp::PartialEqSpecImpl;
use vstd::std_specs::convert::TryFromSpecImpl;

verus! {

/// The number of live cells among the eight neighbours of `(column, row)`
/// on the torus.
pub open spec fn live_neighbours(grid: GridView<Cell>, column: int, row: int) -> nat
    recommends
        grid.columns > 0,
        grid.rows > 0,
{
    grid.at_wrapping(column - 1, row - 1).weight()
        + grid.at_wrapping(column, row - 1).weight()
        + grid.at_wrapping(column + 1, row - 1).weight()
        + grid.at_wrapping(column - 1, row).weight()
        + grid.at_wrapping(column + 1, row).weight()
        + grid.at_wrapping(column - 1, row + 1).weight()
        + grid.at_wrapping(column, row + 1).weight()
        + grid.at_wrapping(column + 1, row + 1).weight()
}

/// The rule of the game: a live cell lives on with two or three live
/// neighbours, a dead cell comes alive with exactly three, and every other
/// cell is dead in the next generation.
pub open spec fn next_state(cell: Cell, live_neighbours: nat) -> Cell {
    if live_neighbours == 3 || (cell == Cell::Alive && live_neighbours == 2) {
        Cell::Alive
    } else {
        Cell::Dead
    }
}

impl Cell {
    /// The state that the rule of the game gives the cell in the next
    /// generation, for the given number of live neighbours.
    pub fn next(self, live_neighbours: u8) -> (cell: Cell)
        ensures
            cell == next_state(self, live_neighbours as nat),
    {
        match (self, live_neighbours) {
            (Cell::Alive, 2) => Cell::Alive,
            (Cell::Alive, 3) => Cell::Alive,
            (Cell::Dead, 3) => Cell::Alive,
            _ => Cell::Dead,
        }
    }
}

/// Whether `cell` stands for a boolean that a call of `next_boolean` may
/// return.
pub open spec fn may_draw<F: Fn() -> bool>(next_boolean: F, cell: Cell) -> bool {
    exists|alive: bool| call_ensures(next_boolean, (), alive) && cell == Cell::of_bool(alive)
}

/// The state of the cell at `(column, row)`, taking every position outside
/// the grid as dead.
pub open spec fn state_at(grid: GridView<Cell>, column: int, row: int) -> Cell {
    if grid.contains(column, row) {
        grid.at(column, row)
    } else {
        Cell::Dead
    }
}

/// The generation that follows `grid`: the same dimensions, and in every
/// position the next state of the cell that was there.
pub open spec fn next_generation(grid: GridView<Cell>) -> GridView<Cell> {
    GridView {
        columns: grid.columns,
        rows: grid.rows,
        cells: Seq::new(
            grid.cells.len(),
            |index: int|
                next_state(
                    grid.cells[index],
                    live_neighbours(
                        grid,
                        index % (grid.columns as int),
                        index / (grid.columns as int),
                    ),
                ),
        ),
    }
}

/// The next generation has the dimensions of the one before it, and one
/// cell for each of its coordinate pairs.
pub proof fn lemma_next_generation_keeps_shape(grid: GridView<Cell>)
    ensures
        next_generation(grid).columns == grid.columns,
        next_generation(grid).rows == grid.rows,
        next_generation(grid).cells.len() == grid.cells.len(),
        grid.well_formed() ==> next_generation(grid).well_formed(),
{
}

/// In the next generation the cell at `(column, row)` is what the rule
/// makes of the cell that was there and of its eight neighbours.
pub proof fn lemma_next_generation_at(grid: GridView<Cell>, column: int, row: int)
    requires
        grid.well_formed(),
        grid.contains(column, row),
    ensures
        next_generation(grid).at(column, row) == next_state(
            grid.at(column, row),
            live_neighbours(grid, column, row),
        ),
{
    lemma_index_in_bounds(grid.columns, grid.rows, column, row);
    lemma_index_coordinates_inverse(grid.columns, column, row);
}

/// Every cell of a well-formed grid with at least one cell is reached by
/// wrapping, whatever the coordinates.
proof fn lemma_wrapping_in_bounds(grid: GridView<Cell>, column: int, row: int)
    requires
        grid.well_formed(),
        grid.columns > 0,
        grid.rows > 0,
    ensures
        exists|index: int|
            0 <= index < grid.cells.len() && grid.at_wrapping(column, row)
                == #[trigger] grid.cells[index],
{
    let wrapped_column = column % (grid.columns as int);
    let wrapped_row = row % (grid.rows as int);
    vstd::arithmetic::div_mod::lemma_mod_bound(column, grid.columns as int);
    vstd::arithmetic::div_mod::lemma_mod_bound(row, grid.rows as int);
    lemma_index_in_bounds(grid.columns, grid.rows, wrapped_column, wrapped_row);
    let index = crate::grid::spec_coordinates_to_index(grid.columns, wrapped_column, wrapped_row);
    assert(grid.at_wrapping(column, row) == grid.cells[index]);
}

/// A universe without a live cell stays as it is.
pub proof fn lemma_dead_universe_stays_dead(grid: GridView<Cell>)
    requires
        grid.well_formed(),
        forall|index: int| 0 <= index < grid.cells.len() ==> grid.cells[index] == Cell::Dead,
    ensures
        next_generation(grid) == grid,
{
    let next = next_generation(grid);
    assert forall|index: int| 0 <= index < grid.cells.len() implies next.cells[index]
        == grid.cells[index] by {
        lemma_coordinates_in_bounds(grid.columns, grid.rows, index);
        assert(grid.rows > 0) by (nonlinear_arith)
            requires
                0 <= index < grid.columns * grid.rows,
        ;
        let column = index % (grid.columns as int);
        let row = index / (grid.columns as int);
        lemma_wrapping_in_bounds(grid, column - 1, row - 1);
        lemma_wrapping_in_bounds(grid, column, row - 1);
        lemma_wrapping_in_bounds(grid, column + 1, row - 1);
        lemma_wrapping_in_bounds(grid, column - 1, row);
        lemma_wrapping_in_bounds(grid, column + 1, row);
        lemma_wrapping_in_bounds(grid, column - 1, row + 1);
        lemma_wrapping_in_bounds(grid, column, row + 1);
        lemma_wrapping_in_bounds(grid, column + 1, row + 1);
    }
    assert(next.cells =~= grid.cells);
}

/// Stepping one to the left on a ring of `size` positions.
proof fn lemma_step_back(position: int, size: int)
    requires
        0 <= position,
        0 < size,
    ensures
        (position - 1) % size == if position % size == 0 {
            size - 1
        } else {
            position % size - 1
        },
{
    let q = position / size;
    let r = position % size;
    vstd::arithmetic::div_mod::lemma_fundamental_div_mod(position, size);
    vstd::arithmetic::div_mod::lemma_mod_bound(position, size);
    assert(size * q == q * size) by (nonlinear_arith);
    if r == 0 {
        assert((q - 1) * size + (size - 1) == position - 1) by (nonlinear_arith)
            requires
                position == q * size + r,
                r == 0,
        ;
        vstd::arithmetic::div_mod::lemma_fundamental_div_mod_converse(
            position - 1,
            size,
            q - 1,
            size - 1,
        );
    } else {
        vstd::arithmetic::div_mod::lemma_fundamental_div_mod_converse(
            position - 1,
            size,
            q,
            r - 1,
        );
    }
}

/// Stepping one to the right on a ring of `size` positions.
proof fn lemma_step_forward(position: int, size: int)
    requires
        0 <= position,
        0 < size,
    ensures
        (position + 1) % size == if position % size == size - 1 {
            0
        } else {
            position % size + 1
        },
{
    let q = position / size;
    let r = position % size;
    vstd::arithmetic::div_mod::lemma_fundamental_div_mod(position, size);
    vstd::arithmetic::div_mod::lemma_mod_bound(position, size);
    assert(size * q == q * size) by (nonlinear_arith);
    if r == size - 1 {
        assert((q + 1) * size + 0 == position + 1) by (nonlinear_arith)
            requires
                position == q * size + r,
                r == size - 1,
        ;
        vstd::arithmetic::div_mod::lemma_fundamental_div_mod_converse(
            position + 1,
            size,
            q + 1,
            0,
        );
    } else {
        vstd::arithmetic::div_mod::lemma_fundamental_div_mod_converse(
            position + 1,
            size,
            q,
            r + 1,
        );
    }
}

/// The number of bytes that `glyph` takes in UTF-8.
fn width_of(glyph: char) -> (width: usize)
    ensures
        width == glyph_width(glyph),
        1 <= width <= 4,
{
    let code = glyph as u32;
    if code < 0x80 {
        1
    } else if code < 0x800 {
        2
    } else if code < 0x10000 {
        3
    } else {
        4
    }
}

/// What is known of the rows that have ended: the length of the first of
/// them, and the first one that differs from it in length.
struct RowCheck {
    columns: Option<usize>,
    mismatch: Option<(usize, usize)>,
}

impl RowCheck {
    /// Whether the check stands for the finished rows `done`.
    spec fn matches(self, done: Seq<Seq<char>>) -> bool {
        &&& self.columns is None <==> done.len() == 0
        &&& self.columns matches Some(columns) ==> columns == row_length(done[0])
        &&& match first_mismatch(done) {
            Some(position) => self.mismatch == Some(
                (row_length(done[0]) as usize, row_length(done[position]) as usize),
            ),
            None => self.mismatch is None,
        }
    }

    /// Takes note of one more finished row, of the given length.
    fn close_row(&mut self, length: usize, Ghost(done): Ghost<Seq<Seq<char>>>, Ghost(row): Ghost<
        Seq<char>,
    >)
        requires
            old(self).matches(done),
            length == row_length(row),
        ensures
            final(self).matches(done.push(row)),
            final(self).columns == Some(
                match old(self).columns {
                    Some(columns) => columns,
                    None => length,
                },
            ),
            final(self).mismatch is None ==> old(self).mismatch is None && final(self).columns
                == Some(length),
    {
        proof {
            assert(done.push(row).drop_last() =~= done);
            if done.len() > 0 {
                lemma_first_mismatch_is_first(done);
            }
        }
        match self.columns {
            None => {
                self.columns = Some(length);
            },
            Some(columns) => {
                if self.mismatch.is_none() && length != columns {
                    self.mismatch = Some((columns, length));
                }
            },
        }
    }
}

/// The number of cells in `finished` rows that are all as long as the
/// first of them.
spec fn cells_in_rows(columns: Option<usize>, finished: int) -> int {
    match columns {
        Some(columns) => columns * finished,
        None => 0,
    }
}

/// The cells in rows of equal length: one more row adds as many cells as a
/// row has columns.
proof fn lemma_row_added(columns: nat, finished: nat)
    ensures
        columns * (finished + 1) == columns * finished + columns,
        columns * 0 == 0,
{
    assert(columns * (finished + 1) == columns * finished + columns) by (nonlinear_arith);
    assert(columns * 0 == 0) by (nonlinear_arith);
}

/// One generation of the game.
#[derive(Debug)]
pub struct Universe {
    pub(crate) cells: Grid<Cell>,
}

impl PartialEq for Universe {
    /// Two universes are equal when they have the same dimensions and the
    /// same cells.
    fn eq(&self, other: &Self) -> (equal: bool) {
        if self.cells.columns != other.cells.columns || self.cells.rows != other.cells.rows
            || self.cells.items.len() != other.cells.items.len() {
            return false;
        }
        let mut index: usize = 0;
        while index < self.cells.items.len()
            invariant
                self.cells.items@.len() == other.cells.items@.len(),
                index <= self.cells.items@.len(),
                self.cells.items@.take(index as int) == other.cells.items@.take(index as int),
            decreases self.cells.items@.len() - index,
        {
            if self.cells.items[index] != other.cells.items[index] {
                return false;
            }
            index += 1;
        }
        proof {
            let mine = self.cells.items@;
            let theirs = other.cells.items@;
            assert(mine.take(mine.len() as int) =~= mine);
            assert(theirs.take(theirs.len() as int) =~= theirs);
        }
        true
    }
}

impl Eq for Universe {

}

impl PartialEqSpecImpl for Universe {
    open spec fn obeys_eq_spec() -> bool {
        true
    }

    open spec fn eq_spec(&self, other: &Self) -> bool {
        self@ == other@
    }
}

impl View for Universe {
    type V = GridView<Cell>;

    open(crate) spec fn view(&self) -> GridView<Cell> {
        self.cells@
    }
}

impl Clone for Universe {
    /// A universe with the same dimensions and the same cells.
    fn clone(&self) -> (copy: Self)
        ensures
            copy@ == self@,
    {
        let cells = self.cells.clone();
        proof {
            assert(cells@.cells =~= self.cells@.cells);
        }
        Universe { cells }
    }
}

impl TryFrom<&str> for Universe {
    type Error = ParseUniverseError;

    /// Reads a universe from its text form, as `Universe::parse` does.
    fn try_from(value: &str) -> (result: Result<Self, Self::Error>)
        ensures
            match result {
                Ok(universe) => parsed(value@) == Ok::<GridView<Cell>, ParseUniverseError>(
                    universe@,
                ),
                Err(error) => parsed(value@) == Err::<GridView<Cell>, ParseUniverseError>(error),
            },
    {
        Universe::parse(value)
    }
}

/// What `try_from` returns is stated on `try_from` itself, over views: two
/// universes with the same view need not be the same value, so no spec
/// function can name the universe that comes back.
impl TryFromSpecImpl<&str> for Universe {
    open spec fn obeys_try_from_spec() -> bool {
        false
    }

    open spec fn try_from_spec(value: &str) -> Result<Self, Self::Error> {
        arbitrary()
    }
}

impl Universe {
    /// The universe whose cells are those of `cells`.
    pub fn from_grid(cells: Grid<Cell>) -> (universe: Self)
        ensures
            universe@ == cells@,
    {
        Universe { cells }
    }

    /// The cells of the universe, for reading.
    pub fn cells(&self) -> (cells: &Grid<Cell>)
        ensures
            cells@ == self@,
            self@.well_formed(),
    {
        proof {
            use_type_invariant(&self.cells);
        }
        &self.cells
    }

    /// Number of columns.
    pub fn columns(&self) -> (columns: usize)
        ensures
            columns == self@.columns,
    {
        self.cells.columns()
    }

    /// Number of rows.
    pub fn rows(&self) -> (rows: usize)
        ensures
            rows == self@.rows,
    {
        self.cells.rows()
    }

    /// A universe of the given dimensions in which every cell is dead.
    pub fn new_empty(columns: usize, rows: usize) -> (universe: Self)
        requires
            columns * rows <= usize::MAX,
        ensures
            universe@.columns == columns,
            universe@.rows == rows,
            universe@.cells.len() == columns * rows,
            forall|index: int|
                0 <= index < universe@.cells.len() ==> universe@.cells[index] == Cell::Dead,
    {
        let dead = |coordinates: (usize, usize)| -> (cell: Cell)
            ensures
                cell == Cell::Dead,
            {
                Cell::Dead
            };
        let cells = Grid::new(columns, rows, dead);
        proof {
            assert forall|index: int| 0 <= index < cells@.cells.len() implies cells@.cells[index]
                == Cell::Dead by {
                lemma_coordinates_in_bounds(columns as nat, rows as nat, index);
                let column = (index % (columns as int)) as usize;
                let row = (index / (columns as int)) as usize;
                assert(cells@.at(column as int, row as int) == Cell::Dead);
            }
        }
        Universe { cells }
    }

    /// A universe of the given dimensions in which every cell is what one
    /// call of `next_boolean` made it: alive for `true`, dead for `false`.
    pub fn new_with<F>(columns: usize, rows: usize, next_boolean: F) -> (universe: Self) where
        F: Fn() -> bool,

        requires
            columns * rows <= usize::MAX,
            call_requires(next_boolean, ()),
        ensures
            universe@.columns == columns,
            universe@.rows == rows,
            universe@.well_formed(),
            forall|index: int|
                0 <= index < universe@.cells.len() ==> may_draw(
                    next_boolean,
                    #[trigger] universe@.cells[index],
                ),
    {
        let next = &next_boolean;
        let draw = |coordinates: (usize, usize)| -> (cell: Cell)
            ensures
                may_draw(*next, cell),
            {
                Cell::from(next())
            };
        let cells = Grid::new(columns, rows, draw);
        proof {
            assert forall|index: int| 0 <= index < cells@.cells.len() implies may_draw(
                next_boolean,
                #[trigger] cells@.cells[index],
            ) by {
                lemma_coordinates_in_bounds(columns as nat, rows as nat, index);
                let column = (index % (columns as int)) as usize;
                let row = (index / (columns as int)) as usize;
                assert(cells@.at(column as int, row as int) == cells@.cells[index]);
            }
        }
        Universe { cells }
    }

    /// A universe of the given dimensions in which every cell is dead or
    /// alive by the toss of a coin, one toss for each cell.
    pub fn new_random(columns: usize, rows: usize) -> (universe: Self)
        requires
            columns * rows <= usize::MAX,
        ensures
            universe@.columns == columns,
            universe@.rows == rows,
            universe@.well_formed(),
    {
        let cells = Grid::new(columns, rows, |coordinates: (usize, usize)| Cell::new_random());
        Universe { cells }
    }

    /// What the cell at `(column, row)`, a position inside the grid, adds to
    /// a count of live cells.
    fn weight_at(&self, column: usize, row: usize) -> (weight: u8)
        requires
            column < self@.columns,
            row < self@.rows,
        ensures
            weight == self@.at(column as int, row as int).weight(),
            weight <= 1,
    {
        proof {
            vstd::arithmetic::div_mod::lemma_small_mod(column as nat, self@.columns);
            vstd::arithmetic::div_mod::lemma_small_mod(row as nat, self@.rows);
        }
        self.cells.get_wrapping((column, row)).as_u8()
    }

    /// Counts the live cells among the eight neighbours of `coordinates` on
    /// the torus.
    pub fn count_live_neighbours(&self, coordinates: (usize, usize)) -> (count: u8)
        requires
            self@.columns > 0,
            self@.rows > 0,
        ensures
            count == live_neighbours(self@, coordinates.0 as int, coordinates.1 as int),
    {
        let columns = self.cells.columns();
        let rows = self.cells.rows();
        let column = coordinates.0 % columns;
        let row = coordinates.1 % rows;
        let west = if column == 0 {
            columns - 1
        } else {
            column - 1
        };
        let east = if column == columns - 1 {
            0
        } else {
            column + 1
        };
        let north = if row == 0 {
            rows - 1
        } else {
            row - 1
        };
        let south = if row == rows - 1 {
            0
        } else {
            row + 1
        };
        proof {
            let x = coordinates.0 as int;
            let y = coordinates.1 as int;
            assert((x - 1) % (columns as int) == west) by {
                lemma_step_back(x, columns as int);
            }
            assert((x + 1) % (columns as int) == east) by {
                lemma_step_forward(x, columns as int);
            }
            assert((y - 1) % (rows as int) == north) by {
                lemma_step_back(y, rows as int);
            }
            assert((y + 1) % (rows as int) == south) by {
                lemma_step_forward(y, rows as int);
            }
        }
        let above = self.weight_at(west, north) + self.weight_at(column, north)
            + self.weight_at(east, north);
        let beside = self.weight_at(west, row) + self.weight_at(east, row);
        let below = self.weight_at(west, south) + self.weight_at(column, south)
            + self.weight_at(east, south);
        above + beside + below
    }

    /// The state that the cell at `coordinates` has in the next generation.
    /// A position outside the grid counts as a dead cell with the neighbours
    /// that the torus gives it.
    pub fn get_new_state(&self, coordinates: (usize, usize)) -> (cell: Cell)
        requires
            self@.columns > 0,
            self@.rows > 0,
        ensures
            cell == next_state(
                state_at(self@, coordinates.0 as int, coordinates.1 as int),
                live_neighbours(self@, coordinates.0 as int, coordinates.1 as int),
            ),
    {
        let number_of_live_neighbours = self.count_live_neighbours(coordinates);
        let current_state = match self.cells.get(coordinates) {
            Some(cell) => *cell,
            None => Cell::Dead,
        };
        current_state.next(number_of_live_neighbours)
    }

    /// The next generation: a new universe of the same dimensions in which
    /// every cell has the state that the rule gives it. This universe is
    /// left as it is.
    pub fn step(&self) -> (next: Self)
        ensures
            self@.well_formed(),
            next@ == next_generation(self@),
    {
        proof {
            use_type_invariant(&self.cells);
            assert(self.cells.items.len() == self.cells.items@.len());
        }
        let columns = self.cells.columns();
        let rows = self.cells.rows();
        let rule = |coordinates: (usize, usize)| -> (cell: Cell)
            requires
                coordinates.0 < columns,
                coordinates.1 < rows,
                columns == self@.columns,
                rows == self@.rows,
            ensures
                cell == next_state(
                    state_at(self@, coordinates.0 as int, coordinates.1 as int),
                    live_neighbours(self@, coordinates.0 as int, coordinates.1 as int),
                ),
            {
                self.get_new_state(coordinates)
            };
        let cells = Grid::new(columns, rows, rule);
        proof {
            let ghost expected = next_generation(self@);
            assert forall|index: int| 0 <= index < expected.cells.len() implies cells@.cells[index]
                == expected.cells[index] by {
                lemma_coordinates_in_bounds(columns as nat, rows as nat, index);
                let column = (index % (columns as int)) as usize;
                let row = (index / (columns as int)) as usize;
                assert(cells@.at(column as int, row as int) == cells@.cells[index]);
            }
            assert(cells@.cells =~= expected.cells);
        }
        Universe { cells }
    }

    /// Reads a universe from its text form: rows of `.` and `#` parted by
    /// newlines, with or without a newline after the last row.
    ///
    /// The text is read once, from its first character to its last. A row
    /// is measured when it ends, and the verdict waits for the end of the
    /// text, since a row of the wrong length anywhere is reported before a
    /// character that stands for no cell.
    pub fn parse(value: &str) -> (result: Result<Universe, ParseUniverseError>)
        ensures
            match result {
                Ok(universe) => parsed(value@) == Ok::<GridView<Cell>, ParseUniverseError>(
                    universe@,
                ),
                Err(error) => parsed(value@) == Err::<GridView<Cell>, ParseUniverseError>(error),
            },
    {
        broadcast use vstd::string::group_string_axioms;

        let total = value.as_bytes().len();
        let mut cells: Vec<Cell> = Vec::new();
        let mut check = RowCheck { columns: None, mismatch: None };
        let mut invalid: Option<char> = None;
        let mut length: usize = 0;
        let mut row_open = true;
        proof {
            assert(value@.skip(0) =~= value@);
        }
        for glyph in it: value.chars()
            invariant
                it.seq() == value@,
                total == row_length(value@),
                // Of the rows of what has been read, all but the last have ended.
                split_rows(value@.take(it.index() as int)).len() >= 1,
                check.matches(split_rows(value@.take(it.index() as int)).drop_last()),
                length == row_length(split_rows(value@.take(it.index() as int)).last()),
                row_open == (it.index() == 0 || value@[it.index() - 1] != '\n'),
                // No row is longer than the text.
                length + row_length(value@.skip(it.index() as int)) <= total,
                // The cells are those read so far, unless a character stood for none.
                invalid == first_invalid(value@.take(it.index() as int)),
                invalid is None ==> cells@ == cells_of(value@.take(it.index() as int)),
                invalid is None && check.mismatch is None ==> cells@.len() == length
                    + cells_in_rows(
                    check.columns,
                    split_rows(value@.take(it.index() as int)).len() - 1,
                ),
        {
            let ghost position = it.index() as int;
            let ghost before = value@.take(position);
            let ghost after = value@.take(position + 1);
            let ghost rows = split_rows(before);
            proof {
                assert(after.drop_last() =~= before);
                lemma_split_rows_push(before, glyph);
                lemma_row_length_push(rows.last(), glyph);
                let rest = value@.skip(position);
                assert(rest.drop_first() =~= value@.skip(position + 1));
                assert(rows.drop_last().push(rows.last()) =~= rows);
            }
            if glyph == '\n' {
                proof {
                    assert(split_rows(after).drop_last() =~= rows);
                    lemma_row_added(length as nat, (rows.len() - 1) as nat);
                }
                check.close_row(length, Ghost(rows.drop_last()), Ghost(rows.last()));
                length = 0;
                row_open = false;
            } else {
                proof {
                    assert(split_rows(after).drop_last() =~= rows.drop_last());
                }
                length += width_of(glyph);
                row_open = true;
                if invalid.is_none() {
                    match Cell::try_from(glyph) {
                        Ok(cell) => {
                            cells.push(cell);
                        },
                        Err(_) => {
                            invalid = Some(glyph);
                        },
                    }
                }
            }
        }
        let ghost text = value@;
        let ghost rows = split_rows(text);
        proof {
            assert(rows.drop_last().push(rows.last()) =~= rows);
        }
        if row_open {
            proof {
                lemma_row_added(length as nat, (rows.len() - 1) as nat);
            }
            check.close_row(length, Ghost(rows.drop_last()), Ghost(rows.last()));
        } else {
            proof {
                assert(rows.drop_last() =~= split_rows(text.drop_last()));
            }
        }
        let ghost body_rows = split_rows(strip_final_newline(text));
        proof {
            lemma_split_rows_nonempty(strip_final_newline(text));
        }
        if let Some((expected, actual)) = check.mismatch {
            return Err(ParseUniverseError::MismatchedRowLengths(expected, actual));
        }
        if let Some(glyph) = invalid {
            return Err(ParseUniverseError::InvalidCell(glyph));
        }
        let columns = match check.columns {
            Some(columns) => columns,
            None => 0,
        };
        let rows = if columns == 0 {
            0
        } else {
            cells.len() / columns
        };
        proof {
            if columns > 0 {
                vstd::arithmetic::div_mod::lemma_div_multiples_vanish(
                    body_rows.len() as int,
                    columns as int,
                );
            } else {
                assert(columns * body_rows.len() == 0) by (nonlinear_arith)
                    requires
                        columns == 0,
                ;
                lemma_row_added(columns as nat, 0);
            }
        }
        Ok(Universe { cells: Grid { items: cells, columns, rows } })
    }
}

} // verus!
