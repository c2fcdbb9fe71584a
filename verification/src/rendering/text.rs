//! A universe as text.

use crate::text_format::row_text;
use crate::text_format::rows_text;
use crate::text_format::text_of;
use crate::universe::Universe;
use vstd::prelude::*;

verus! {

impl Universe {
    /// The text form of the universe: one line for each row, `.` for a dead
    /// cell and `#` for a live one, each line ended by a newline.
    pub fn render_to_text(&self) -> (text: String)
        ensures
            text@ == text_of(self@),
    {
        let columns = self.cells.columns();
        let rows = self.cells.rows();
        let mut text = String::new();
        if columns == 0 {
            return text;
        }
        let mut row: usize = 0;
        while row < rows
            invariant
                columns == self@.columns,
                rows == self@.rows,
                row <= rows,
                text@ == rows_text(self@, row as nat),
            decreases rows - row,
        {
            let ghost before = text@;
            let mut column: usize = 0;
            while column < columns
                invariant
                    columns == self@.columns,
                    rows == self@.rows,
                    row < rows,
                    column <= columns,
                    text@ == before + row_text(self@, row as int).take(column as int),
                decreases columns - column,
            {
                let cell = *self.cells.get((column, row)).unwrap();
                text.push(cell.to_char());
                column += 1;
            }
            text.push('\n');
            row += 1;
        }
        text
    }
}

} // verus!
