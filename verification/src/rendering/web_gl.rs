//! What a universe hands to a GPU: two triangles for every cell, and the
//! state of every cell as a byte.

use crate::cell::Cell;
use crate::rendering::canvas::spec_cell_origin;
use crate::rendering::canvas::spec_extent;
use crate::universe::Universe;
use itertools::Itertools;
use vstd::prelude::*;

verus! {

/// The vertices of the two triangles that cover the cell at `(column, row)`
/// of a universe of `rows` rows. A vertex is four numbers: its position in
/// pixels, then the column and the row of its cell. The row is counted from
/// the bottom, as the vertical axis of the GPU points up. Each number is cut
/// down to its lowest 32 bits.
pub open spec fn cell_vertices(column: nat, row: nat, rows: nat, cell_size: nat) -> Seq<u32> {
    let x_start = spec_cell_origin(cell_size, column);
    let y_start = spec_cell_origin(cell_size, row);
    let x_end = x_start + cell_size;
    let y_end = y_start + cell_size;
    let flipped = rows - row - 1;
    seq![
        x_start as u32,
        y_end as u32,
        column as u32,
        flipped as u32,
        x_start as u32,
        y_start as u32,
        column as u32,
        flipped as u32,
        x_end as u32,
        y_start as u32,
        column as u32,
        flipped as u32,
        x_end as u32,
        y_start as u32,
        column as u32,
        flipped as u32,
        x_end as u32,
        y_end as u32,
        column as u32,
        flipped as u32,
        x_start as u32,
        y_end as u32,
        column as u32,
        flipped as u32,
    ]
}

/// The vertices of the first `count` cells, column by column and, within a
/// column, row by row.
pub open spec fn vertices_of(rows: nat, cell_size: nat, count: nat) -> Seq<u32>
    decreases count,
{
    if count == 0 {
        Seq::empty()
    } else {
        let cell = (count - 1) as nat;
        vertices_of(rows, cell_size, cell) + cell_vertices(
            cell / rows,
            cell % rows,
            rows,
            cell_size,
        )
    }
}

/// Lists the coordinate pairs of a grid with `Itertools::cartesian_product`,
/// which pairs each item of its first iterator, taken in order, with every
/// item of the second, taken in order: all pairs of column 0 come first,
/// from row 0 to the last row, then those of column 1, and so on.
#[verifier::external_body]
fn coordinates_by_column(columns: usize, rows: usize) -> (pairs: Vec<(usize, usize)>)
    requires
        columns * rows <= usize::MAX,
    ensures
        pairs@.len() == columns * rows,
        forall|i: int|
            0 <= i < pairs@.len() ==> (#[trigger] pairs@[i]).0 == i / (rows as int) && pairs@[i].1
                == i % (rows as int),
{
    (0..columns).cartesian_product(0..rows).collect()
}

/// Gathers what each cell adds to a count with `Itertools::collect_vec`,
/// which collects the items of an iterator into a vector in the order in
/// which the iterator yields them.
#[verifier::external_body]
fn collect_weights(cells: &Vec<Cell>) -> (weights: Vec<u8>)
    ensures
        weights@.len() == cells@.len(),
        forall|i: int| 0 <= i < cells@.len() ==> #[trigger] weights@[i] == cells@[i].weight(),
{
    cells.iter().map(|cell| cell.as_u8()).collect_vec()
}

impl Universe {
    /// The state of every cell as a byte, 0 for a dead cell and 1 for a live
    /// one, in row-major order.
    pub fn cell_bytes(&self) -> (bytes: Vec<u8>)
        ensures
            bytes@ == self@.cells.map_values(|cell: Cell| cell.weight() as u8),
    {
        collect_weights(&self.cells.items)
    }

    /// The vertices of the triangles that cover the cells, two triangles to
    /// a cell, for cells of `cell_size` pixels.
    pub fn vertices(&self, cell_size: usize) -> (data: Vec<u32>)
        requires
            spec_extent(cell_size as nat, self@.columns) <= usize::MAX,
            spec_extent(cell_size as nat, self@.rows) <= usize::MAX,
        ensures
            self@.well_formed(),
            data@ == vertices_of(self@.rows, cell_size as nat, self@.cells.len()),
    {
        let columns = self.cells.columns();
        let rows = self.cells.rows();
        proof {
            use_type_invariant(&self.cells);
            assert(self.cells.items.len() == self.cells.items@.len());
        }
        let pairs = coordinates_by_column(columns, rows);
        let mut data: Vec<u32> = Vec::new();
        let mut cell: usize = 0;
        while cell < pairs.len()
            invariant
                columns == self@.columns,
                rows == self@.rows,
                spec_extent(cell_size as nat, columns as nat) <= usize::MAX,
                spec_extent(cell_size as nat, rows as nat) <= usize::MAX,
                pairs@.len() == columns * rows,
                forall|i: int|
                    0 <= i < pairs@.len() ==> (#[trigger] pairs@[i]).0 == i / (rows as int)
                        && pairs@[i].1 == i % (rows as int),
                cell <= pairs@.len(),
                data@ == vertices_of(rows as nat, cell_size as nat, cell as nat),
            decreases pairs@.len() - cell,
        {
            let (column, row) = pairs[cell];
            proof {
                assert(rows > 0) by (nonlinear_arith)
                    requires
                        cell < columns * rows,
                ;
                assert(cell == rows * (cell / rows) + cell % rows) by {
                    vstd::arithmetic::div_mod::lemma_fundamental_div_mod(cell as int, rows as int);
                }
                assert(column < columns) by (nonlinear_arith)
                    requires
                        cell < columns * rows,
                        cell == rows * column + row,
                        0 <= row,
                        rows > 0,
                ;
                assert(column * (cell_size + 1) + 1 + cell_size < (cell_size + 1) * columns + 1)
                    by (nonlinear_arith)
                    requires
                        column < columns,
                ;
                assert(row * (cell_size + 1) + 1 + cell_size < (cell_size + 1) * rows + 1)
                    by (nonlinear_arith)
                    requires
                        row < rows,
                ;
                assert(0 <= column * (cell_size + 1)) by (nonlinear_arith);
                assert(0 <= row * (cell_size + 1)) by (nonlinear_arith);
            }
            let x_start = column * (cell_size + 1) + 1;
            let y_start = row * (cell_size + 1) + 1;
            let x_end = x_start + cell_size;
            let y_end = y_start + cell_size;
            let flipped = rows - row - 1;
            data.push(#[verifier::truncate] (x_start as u32));
            data.push(#[verifier::truncate] (y_end as u32));
            data.push(#[verifier::truncate] (column as u32));
            data.push(#[verifier::truncate] (flipped as u32));
            data.push(#[verifier::truncate] (x_start as u32));
            data.push(#[verifier::truncate] (y_start as u32));
            data.push(#[verifier::truncate] (column as u32));
            data.push(#[verifier::truncate] (flipped as u32));
            data.push(#[verifier::truncate] (x_end as u32));
            data.push(#[verifier::truncate] (y_start as u32));
            data.push(#[verifier::truncate] (column as u32));
            data.push(#[verifier::truncate] (flipped as u32));
            data.push(#[verifier::truncate] (x_end as u32));
            data.push(#[verifier::truncate] (y_start as u32));
            data.push(#[verifier::truncate] (column as u32));
            data.push(#[verifier::truncate] (flipped as u32));
            data.push(#[verifier::truncate] (x_end as u32));
            data.push(#[verifier::truncate] (y_end as u32));
            data.push(#[verifier::truncate] (column as u32));
            data.push(#[verifier::truncate] (flipped as u32));
            data.push(#[verifier::truncate] (x_start as u32));
            data.push(#[verifier::truncate] (y_end as u32));
            data.push(#[verifier::truncate] (column as u32));
            data.push(#[verifier::truncate] (flipped as u32));
            cell += 1;
        }
        data
    }
}

} // verus!
