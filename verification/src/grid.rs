//! A dense, fixed-size, row-major grid addressed by `(column, row)` pairs.

use vstd::prelude::*;

verus! {

/// The mathematical content of a grid: its dimensions and its cells in
/// row-major order.
pub struct GridView<T> {
    pub columns: nat,
    pub rows: nat,
    pub cells: Seq<T>,
}

impl<T> GridView<T> {
    /// There is exactly one cell per coordinate pair.
    pub open spec fn well_formed(self) -> bool {
        self.cells.len() == self.columns * self.rows
    }

    /// Whether `(column, row)` lies inside the grid.
    pub open spec fn contains(self, column: int, row: int) -> bool {
        0 <= column < self.columns && 0 <= row < self.rows
    }

    /// The cell at `(column, row)`, meaningful for coordinates inside the grid.
    pub open spec fn at(self, column: int, row: int) -> T
        recommends
            self.contains(column, row),
    {
        self.cells[spec_coordinates_to_index(self.columns, column, row)]
    }

    /// The cell that `(column, row)` lands on once both coordinates are
    /// reduced modulo the dimensions, so that opposite edges touch.
    pub open spec fn at_wrapping(self, column: int, row: int) -> T
        recommends
            self.columns > 0,
            self.rows > 0,
    {
        self.at(column % (self.columns as int), row % (self.rows as int))
    }
}

/// Position in row-major order of the cell at `(column, row)`.
pub open spec fn spec_coordinates_to_index(columns: nat, column: int, row: int) -> int {
    column + columns * row
}

/// Every coordinate pair inside a grid has a position inside its cell sequence.
pub proof fn lemma_index_in_bounds(columns: nat, rows: nat, column: int, row: int)
    requires
        0 <= column < columns,
        0 <= row < rows,
    ensures
        0 <= spec_coordinates_to_index(columns, column, row) < columns * rows,
{
    assert(columns * row + columns <= columns * rows) by (nonlinear_arith)
        requires
            0 <= row < rows,
    ;
    assert(0 <= columns * row) by (nonlinear_arith)
        requires
            0 <= row,
    ;
}

/// Splitting a position into coordinates and joining them again are inverse
/// to each other.
pub proof fn lemma_index_coordinates_inverse(columns: nat, column: int, row: int)
    requires
        0 <= column < columns,
        0 <= row,
    ensures
        spec_coordinates_to_index(columns, column, row) % (columns as int) == column,
        spec_coordinates_to_index(columns, column, row) / (columns as int) == row,
{
    let c = columns as int;
    assert(c * row == row * c) by (nonlinear_arith);
    vstd::arithmetic::div_mod::lemma_fundamental_div_mod_converse(column + c * row, c, row, column);
}

/// A position inside a grid splits into coordinates inside the grid.
pub proof fn lemma_coordinates_in_bounds(columns: nat, rows: nat, index: int)
    requires
        0 <= index < columns * rows,
    ensures
        columns > 0,
        0 <= index % (columns as int) < columns,
        0 <= index / (columns as int) < rows,
        spec_coordinates_to_index(columns, index % (columns as int), index / (columns as int))
            == index,
{
    let c = columns as int;
    assert(columns > 0) by (nonlinear_arith)
        requires
            0 <= index < columns * rows,
    ;
    vstd::arithmetic::div_mod::lemma_fundamental_div_mod(index, c);
    vstd::arithmetic::div_mod::lemma_mod_bound(index, c);
    let q = index / c;
    assert(0 <= q < rows) by (nonlinear_arith)
        requires
            c > 0,
            0 <= index < c * rows,
            index == c * q + index % c,
            0 <= index % c < c,
    ;
}

/// Splits a row-major position into its `(column, row)` pair.
pub fn index_to_coordinates(columns: usize, index: usize) -> (coordinates: (usize, usize))
    requires
        columns > 0,
    ensures
        coordinates.0 == index % columns,
        coordinates.1 == index / columns,
{
    (index % columns, index / columns)
}

/// Row-major position of a `(column, row)` pair.
pub fn coordinates_to_index(columns: usize, coordinates: (usize, usize)) -> (index: usize)
    requires
        spec_coordinates_to_index(columns as nat, coordinates.0 as int, coordinates.1 as int)
            <= usize::MAX,
    ensures
        index == spec_coordinates_to_index(
            columns as nat,
            coordinates.0 as int,
            coordinates.1 as int,
        ),
{
    assert(0 <= columns * coordinates.1) by (nonlinear_arith);
    coordinates.0 + columns * coordinates.1
}

/// A grid of `columns * rows` cells stored in row-major order.
#[derive(Debug, PartialEq, Eq)]
pub struct Grid<T> {
    pub(crate) items: Vec<T>,
    pub(crate) columns: usize,
    pub(crate) rows: usize,
}

impl<T> View for Grid<T> {
    type V = GridView<T>;

    open(crate) spec fn view(&self) -> GridView<T> {
        GridView { columns: self.columns as nat, rows: self.rows as nat, cells: self.items@ }
    }
}

impl<T: Clone> Clone for Grid<T> {
    /// A grid of the same dimensions whose cells are clones of this grid's
    /// cells, position by position.
    fn clone(&self) -> (copy: Self)
        ensures
            copy@.columns == self@.columns,
            copy@.rows == self@.rows,
            copy@.cells.len() == self@.cells.len(),
            forall|i: int|
                0 <= i < self@.cells.len() ==> cloned::<T>(self@.cells[i], #[trigger] copy@.cells[i]),
    {
        proof {
            use_type_invariant(self);
        }
        let items = self.items.clone();
        Grid { items, columns: self.columns, rows: self.rows }
    }
}

impl<T> Grid<T> {
    /// Holds of every grid: its cell sequence has one cell per coordinate
    /// pair.
    #[verifier::type_invariant]
    pub open spec fn is_valid(&self) -> bool {
        self@.well_formed()
    }

    /// Builds a grid by asking `initialiser` for the cell of every
    /// coordinate pair.
    pub fn new<F>(columns: usize, rows: usize, initialiser: F) -> (grid: Self) where
        F: Fn((usize, usize)) -> T,

        requires
            columns * rows <= usize::MAX,
            forall|column: usize, row: usize|
                column < columns && row < rows ==> call_requires(initialiser, ((column, row),)),
        ensures
            grid@.columns == columns,
            grid@.rows == rows,
            grid@.well_formed(),
            forall|column: usize, row: usize|
                column < columns && row < rows ==> call_ensures(
                    initialiser,
                    ((column, row),),
                    #[trigger] grid@.at(column as int, row as int),
                ),
    {
        let count: usize = columns * rows;
        let mut items: Vec<T> = Vec::new();
        let mut index: usize = 0;
        while index < count
            invariant
                count == columns * rows,
                index <= count,
                items@.len() == index,
                forall|column: usize, row: usize|
                    column < columns && row < rows ==> call_requires(
                        initialiser,
                        ((column, row),),
                    ),
                forall|i: int|
                    0 <= i < index ==> call_ensures(
                        initialiser,
                        (((i % (columns as int)) as usize, (i / (columns as int)) as usize),),
                        #[trigger] items@[i],
                    ),
            decreases count - index,
        {
            proof {
                lemma_coordinates_in_bounds(columns as nat, rows as nat, index as int);
            }
            let coordinates = index_to_coordinates(columns, index);
            items.push(initialiser(coordinates));
            index += 1;
        }
        let grid = Grid { items, columns, rows };
        proof {
            assert forall|column: usize, row: usize| column < columns && row < rows implies call_ensures(
                initialiser,
                ((column, row),),
                #[trigger] grid@.at(column as int, row as int),
            ) by {
                lemma_index_in_bounds(columns as nat, rows as nat, column as int, row as int);
                lemma_index_coordinates_inverse(columns as nat, column as int, row as int);
            }
        }
        grid
    }

    /// Number of columns.
    pub fn columns(&self) -> (columns: usize)
        ensures
            columns == self@.columns,
    {
        self.columns
    }

    /// Number of rows.
    pub fn rows(&self) -> (rows: usize)
        ensures
            rows == self@.rows,
    {
        self.rows
    }

    /// The cell at `coordinates`, or `None` where they lie outside the grid.
    pub fn get(&self, coordinates: (usize, usize)) -> (cell: Option<&T>)
        ensures
            self@.well_formed(),
            cell == if self@.contains(coordinates.0 as int, coordinates.1 as int) {
                Some(&self@.at(coordinates.0 as int, coordinates.1 as int))
            } else {
                None
            },
    {
        proof {
            use_type_invariant(self);
        }
        if coordinates.0 >= self.columns || coordinates.1 >= self.rows {
            return None;
        }
        proof {
            assert(self.items.len() == self.items@.len());
            lemma_index_in_bounds(
                self.columns as nat,
                self.rows as nat,
                coordinates.0 as int,
                coordinates.1 as int,
            );
        }
        let index = coordinates_to_index(self.columns, coordinates);
        Some(&self.items[index])
    }

    /// The cell that `coordinates` land on once each is reduced modulo the
    /// matching dimension. Every coordinate pair has such a cell, so long as
    /// the grid has any cell at all.
    pub fn get_wrapping(&self, coordinates: (usize, usize)) -> (cell: &T)
        requires
            self@.columns > 0,
            self@.rows > 0,
        ensures
            self@.well_formed(),
            *cell == self@.at_wrapping(coordinates.0 as int, coordinates.1 as int),
    {
        proof {
            use_type_invariant(self);
        }
        let column = coordinates.0 % self.columns;
        let row = coordinates.1 % self.rows;
        proof {
            assert(self.items.len() == self.items@.len());
            lemma_index_in_bounds(self.columns as nat, self.rows as nat, column as int, row as int);
        }
        let index = coordinates_to_index(self.columns, (column, row));
        &self.items[index]
    }

    /// Mutable access to the cell at `coordinates`, or `None` where they lie
    /// outside the grid. Writing through the reference replaces that one
    /// cell and leaves the rest of the grid as it was.
    pub fn get_mut(&mut self, coordinates: (usize, usize)) -> (cell: Option<&mut T>)
        ensures
            final(self)@.columns == old(self)@.columns,
            final(self)@.rows == old(self)@.rows,
            match cell {
                Some(slot) => {
                    &&& old(self)@.contains(coordinates.0 as int, coordinates.1 as int)
                    &&& *slot == old(self)@.at(coordinates.0 as int, coordinates.1 as int)
                    &&& final(self)@.cells == old(self)@.cells.update(
                        spec_coordinates_to_index(
                            old(self)@.columns,
                            coordinates.0 as int,
                            coordinates.1 as int,
                        ),
                        *final(slot),
                    )
                },
                None => {
                    &&& !old(self)@.contains(coordinates.0 as int, coordinates.1 as int)
                    &&& final(self)@ == old(self)@
                },
            },
    {
        proof {
            use_type_invariant(&*self);
        }
        if coordinates.0 >= self.columns || coordinates.1 >= self.rows {
            return None;
        }
        proof {
            assert(self.items.len() == self.items@.len());
            lemma_index_in_bounds(
                self.columns as nat,
                self.rows as nat,
                coordinates.0 as int,
                coordinates.1 as int,
            );
        }
        let index = coordinates_to_index(self.columns, coordinates);
        Some(&mut self.items[index])
    }
}

} // verus!
