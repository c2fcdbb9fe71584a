//! The text form of a universe.
//!
//! A universe is written one row to a line, `.` for a dead cell and `#` for
//! a live one. Reading tolerates a text that lacks the newline after its
//! last row. All rows must be as long as the first one, and a row holds
//! nothing but the two cell characters.

use crate::cell::Cell;
use crate::errors::ParseUniverseError;
use crate::grid::GridView;
use vstd::prelude::*;

verus! {

/// The text without its last character, where that is a newline.
pub open spec fn strip_final_newline(text: Seq<char>) -> Seq<char> {
    if text.len() > 0 && text.last() == '\n' {
        text.drop_last()
    } else {
        text
    }
}

/// The rows that the newlines of `text` part it into, without the newlines.
/// There is one row more than there are newlines: an empty text is one empty
/// row, and a text that ends in a newline ends in an empty row.
pub open spec fn split_rows(text: Seq<char>) -> Seq<Seq<char>>
    decreases text.len(),
{
    if text.len() == 0 {
        seq![Seq::empty()]
    } else {
        let before = split_rows(text.drop_last());
        if text.last() == '\n' {
            before.push(Seq::empty())
        } else {
            before.update(before.len() - 1, before.last().push(text.last()))
        }
    }
}

/// The rows joined into one text, with a newline between each row and the
/// next.
pub open spec fn join_rows(rows: Seq<Seq<char>>) -> Seq<char>
    decreases rows.len(),
{
    if rows.len() == 0 {
        Seq::empty()
    } else if rows.len() == 1 {
        rows[0]
    } else {
        join_rows(rows.drop_last()).push('\n') + rows.last()
    }
}

/// Splitting is the inverse of joining: no row of a text holds a newline,
/// and the rows joined by newlines are the text again.
pub proof fn lemma_split_rows_inverts_join(text: Seq<char>)
    ensures
        split_rows(text).len() >= 1,
        forall|row: int, i: int|
            0 <= row < split_rows(text).len() && 0 <= i < split_rows(text)[row].len()
                ==> #[trigger] split_rows(text)[row][i] != '\n',
        join_rows(split_rows(text)) == text,
    decreases text.len(),
{
    let rows = split_rows(text);
    if text.len() > 0 {
        let before = split_rows(text.drop_last());
        lemma_split_rows_inverts_join(text.drop_last());
        if text.last() == '\n' {
            assert(rows.drop_last() =~= before);
        } else {
            assert(text =~= text.drop_last().push(text.last()));
            if before.len() > 1 {
                assert(rows.drop_last() =~= before.drop_last());
            }
        }
    }
}

/// The length of a row: the number of bytes that its characters take in
/// UTF-8, which for a row of cell characters is the number of cells.
pub open spec fn row_length(row: Seq<char>) -> nat {
    vstd::utf8::encode_utf8(row).len()
}

/// The position of the first row that is not as long as row 0, if there is
/// one.
pub open spec fn first_mismatch(rows: Seq<Seq<char>>) -> Option<int>
    decreases rows.len(),
{
    if rows.len() == 0 {
        None
    } else {
        match first_mismatch(rows.drop_last()) {
            Some(position) => Some(position),
            None => if row_length(rows.last()) != row_length(rows[0]) {
                Some(rows.len() - 1)
            } else {
                None
            },
        }
    }
}

/// Whether `glyph` can stand in a row: it is a newline or stands for a cell.
pub open spec fn is_valid_glyph(glyph: char) -> bool {
    glyph == '\n' || Cell::from_glyph(glyph) is Ok
}

/// The first character of `text` that is neither a newline nor stands for a
/// cell, if there is one.
pub open spec fn first_invalid(text: Seq<char>) -> Option<char>
    decreases text.len(),
{
    if text.len() == 0 {
        None
    } else {
        match first_invalid(text.drop_last()) {
            Some(glyph) => Some(glyph),
            None => if is_valid_glyph(text.last()) {
                None
            } else {
                Some(text.last())
            },
        }
    }
}

/// The cells that the characters of `text` stand for, in the order of the
/// text. Characters that stand for no cell, newlines among them, are passed
/// over.
pub open spec fn cells_of(text: Seq<char>) -> Seq<Cell>
    decreases text.len(),
{
    if text.len() == 0 {
        Seq::empty()
    } else {
        match Cell::from_glyph(text.last()) {
            Ok(cell) => cells_of(text.drop_last()).push(cell),
            Err(_) => cells_of(text.drop_last()),
        }
    }
}

/// What reading `text` gives: the universe that it describes, or the reason
/// why it describes none. A row of the wrong length is reported before a
/// character that stands for no cell. A universe without columns has no
/// rows either.
pub open spec fn parsed(text: Seq<char>) -> Result<GridView<Cell>, ParseUniverseError> {
    let rows = split_rows(strip_final_newline(text));
    let columns = row_length(rows[0]);
    match first_mismatch(rows) {
        Some(position) => Err(
            ParseUniverseError::MismatchedRowLengths(
                columns as usize,
                row_length(rows[position]) as usize,
            ),
        ),
        None => match first_invalid(text) {
            Some(glyph) => Err(ParseUniverseError::InvalidCell(glyph)),
            None => Ok(
                GridView {
                    columns,
                    rows: if columns == 0 {
                        0
                    } else {
                        rows.len()
                    },
                    cells: cells_of(text),
                },
            ),
        },
    }
}

/// The number of bytes that `glyph` takes in UTF-8.
pub open spec fn glyph_width(glyph: char) -> nat {
    vstd::utf8::encode_scalar(glyph as u32).len()
}

/// A text always has at least one row.
pub proof fn lemma_split_rows_nonempty(text: Seq<char>)
    ensures
        split_rows(text).len() >= 1,
    decreases text.len(),
{
    if text.len() > 0 {
        lemma_split_rows_nonempty(text.drop_last());
    }
}

/// A newline closes the last row and opens an empty one; any other
/// character joins the last row.
pub proof fn lemma_split_rows_push(text: Seq<char>, glyph: char)
    ensures
        split_rows(text).len() >= 1,
        glyph == '\n' ==> split_rows(text.push(glyph)) == split_rows(text).push(Seq::empty()),
        glyph != '\n' ==> split_rows(text.push(glyph)) == split_rows(text).update(
            split_rows(text).len() - 1,
            split_rows(text).last().push(glyph),
        ),
{
    lemma_split_rows_nonempty(text);
    assert(text.push(glyph).drop_last() =~= text);
}

/// A row grows by the width of the character that joins it.
pub proof fn lemma_row_length_push(row: Seq<char>, glyph: char)
    ensures
        row_length(row.push(glyph)) == row_length(row) + glyph_width(glyph),
    decreases row.len(),
{
    let longer = row.push(glyph);
    if row.len() == 0 {
        assert(vstd::utf8::encode_utf8(longer.drop_first()).len() == 0);
    } else {
        assert(longer.drop_first() =~= row.drop_first().push(glyph));
        lemma_row_length_push(row.drop_first(), glyph);
    }
}

/// A row of characters that stand for cells is as long as it has
/// characters.
pub proof fn lemma_row_length_of_cells(row: Seq<char>)
    requires
        forall|i: int| 0 <= i < row.len() ==> Cell::from_glyph(#[trigger] row[i]) is Ok,
    ensures
        row_length(row) == row.len(),
    decreases row.len(),
{
    if row.len() > 0 {
        lemma_row_length_of_cells(row.drop_last());
        assert(row.drop_last().push(row.last()) =~= row);
        lemma_row_length_push(row.drop_last(), row.last());
    }
}

/// `first_mismatch` finds a row that differs in length from row 0 and is
/// the first to do so; it finds none only where all rows are equally long.
pub proof fn lemma_first_mismatch_is_first(rows: Seq<Seq<char>>)
    ensures
        match first_mismatch(rows) {
            Some(position) => {
                &&& 0 < position < rows.len()
                &&& row_length(rows[position]) != row_length(rows[0])
                &&& forall|i: int|
                    0 <= i < position ==> row_length(#[trigger] rows[i]) == row_length(rows[0])
            },
            None => forall|i: int|
                0 <= i < rows.len() ==> row_length(#[trigger] rows[i]) == row_length(rows[0]),
        },
    decreases rows.len(),
{
    if rows.len() > 0 {
        let before = rows.drop_last();
        lemma_first_mismatch_is_first(before);
        assert forall|i: int| 0 <= i < before.len() implies before[i] == rows[i] by {}
    }
}

/// `first_invalid` finds a character that is neither a newline nor a cell
/// and is the first such character of the text; it finds none only where
/// the text holds no such character.
pub proof fn lemma_first_invalid_is_first(text: Seq<char>)
    ensures
        match first_invalid(text) {
            Some(glyph) => exists|position: int|
                {
                    &&& 0 <= position < text.len()
                    &&& #[trigger] text[position] == glyph
                    &&& !is_valid_glyph(glyph)
                    &&& forall|i: int| 0 <= i < position ==> is_valid_glyph(#[trigger] text[i])
                },
            None => forall|i: int| 0 <= i < text.len() ==> is_valid_glyph(#[trigger] text[i]),
        },
    decreases text.len(),
{
    if text.len() > 0 {
        let before = text.drop_last();
        lemma_first_invalid_is_first(before);
        assert forall|i: int| 0 <= i < before.len() implies before[i] == text[i] by {}
    }
}

/// The characters that stand for the cells of row `row`, from the first
/// column to the last.
pub open spec fn row_text(grid: GridView<Cell>, row: int) -> Seq<char> {
    Seq::new(grid.columns, |column: int| grid.at(column, row).glyph())
}

/// The text of the first `count` rows: each row followed by a newline.
pub open spec fn rows_text(grid: GridView<Cell>, count: nat) -> Seq<char>
    decreases count,
{
    if count == 0 {
        Seq::empty()
    } else {
        rows_text(grid, (count - 1) as nat) + row_text(grid, count - 1).push('\n')
    }
}

/// The text form of a universe: every row followed by a newline. A universe
/// without columns has the empty text, whatever its number of rows.
pub open spec fn text_of(grid: GridView<Cell>) -> Seq<char> {
    if grid.columns == 0 {
        Seq::empty()
    } else {
        rows_text(grid, grid.rows)
    }
}

/// Characters without a newline among them join the last row.
proof fn lemma_split_rows_append(text: Seq<char>, more: Seq<char>)
    requires
        forall|i: int| 0 <= i < more.len() ==> more[i] != '\n',
    ensures
        split_rows(text).len() >= 1,
        split_rows(text + more) == split_rows(text).update(
            split_rows(text).len() - 1,
            split_rows(text).last() + more,
        ),
    decreases more.len(),
{
    lemma_split_rows_nonempty(text);
    let rows = split_rows(text);
    if more.len() > 0 {
        let shorter = more.drop_last();
        lemma_split_rows_append(text, shorter);
        assert(text + more =~= (text + shorter).push(more.last()));
        lemma_split_rows_push(text + shorter, more.last());
        assert((rows.last() + shorter).push(more.last()) =~= rows.last() + more);
    }
}

/// The cells of a text in two parts are the cells of the first part, then
/// those of the second.
proof fn lemma_cells_of_append(text: Seq<char>, more: Seq<char>)
    ensures
        cells_of(text + more) == cells_of(text) + cells_of(more),
    decreases more.len(),
{
    if more.len() > 0 {
        let shorter = more.drop_last();
        lemma_cells_of_append(text, shorter);
        assert((text + more).drop_last() =~= text + shorter);
    }
}

/// What holds of the text of the first `count` rows of a universe with at
/// least one column: its rows are those of the universe, with an empty row
/// after the last newline; each of its characters is a newline or stands
/// for a cell; and its cells are those of the universe's first `count` rows.
proof fn lemma_rows_text(grid: GridView<Cell>, count: nat)
    requires
        grid.well_formed(),
        grid.columns > 0,
        count <= grid.rows,
    ensures
        split_rows(rows_text(grid, count)) == Seq::new(
            count + 1,
            |row: int|
                if row < count {
                    row_text(grid, row)
                } else {
                    Seq::empty()
                },
        ),
        first_invalid(rows_text(grid, count)) is None,
        cells_of(rows_text(grid, count)) == grid.cells.take((grid.columns * count) as int),
    decreases count,
{
    let columns = grid.columns as int;
    if count == 0 {
        assert(columns * 0 == 0) by (nonlinear_arith);
    } else {
        let done = (count - 1) as nat;
        let before = rows_text(grid, done);
        let row = row_text(grid, done as int);
        lemma_rows_text(grid, done);
        lemma_row_text(grid, done as int);
        lemma_split_rows_append(before, row);
        lemma_split_rows_push(before + row, '\n');
        lemma_first_invalid_append(before, row.push('\n'));
        lemma_cells_of_append(before, row.push('\n'));
        assert(row.push('\n').drop_last() =~= row);
        assert(columns * count == columns * done + columns) by (nonlinear_arith)
            requires
                count == done + 1,
        ;
        assert(0 <= columns * done) by (nonlinear_arith)
            requires
                columns >= 0,
                done >= 0,
        ;
        assert(columns * count <= columns * grid.rows) by (nonlinear_arith)
            requires
                columns >= 0,
                count <= grid.rows,
        ;
    }
}

/// The characters of a row of a universe all stand for cells, and the cells
/// they stand for are those of the row.
proof fn lemma_row_text(grid: GridView<Cell>, row: int)
    requires
        grid.well_formed(),
        0 <= row < grid.rows,
    ensures
        row_text(grid, row).len() == grid.columns,
        forall|i: int|
            0 <= i < grid.columns ==> Cell::from_glyph(#[trigger] row_text(grid, row)[i]) is Ok,
        forall|i: int| 0 <= i < grid.columns ==> #[trigger] row_text(grid, row)[i] != '\n',
        first_invalid(row_text(grid, row).push('\n')) is None,
        cells_of(row_text(grid, row)) == grid.cells.subrange(
            (grid.columns * row) as int,
            (grid.columns * row + grid.columns) as int,
        ),
{
    let columns = grid.columns as int;
    let text = row_text(grid, row);
    assert(columns * row + columns <= columns * grid.rows) by (nonlinear_arith)
        requires
            0 <= row < grid.rows,
            columns >= 0,
    ;
    assert(0 <= columns * row) by (nonlinear_arith)
        requires
            0 <= row,
            columns >= 0,
    ;
    let cells = grid.cells.subrange(columns * row, columns * row + columns);
    assert forall|i: int| 0 <= i < columns implies text[i] == (#[trigger] cells[i]).glyph() by {}
    lemma_cells_of_glyphs(text, cells);
    lemma_first_invalid_is_first(text.push('\n'));
}

/// A text in which every character is the glyph of the cell in the same
/// position stands for exactly those cells.
proof fn lemma_cells_of_glyphs(text: Seq<char>, cells: Seq<Cell>)
    requires
        text.len() == cells.len(),
        forall|i: int| 0 <= i < text.len() ==> text[i] == (#[trigger] cells[i]).glyph(),
    ensures
        cells_of(text) == cells,
    decreases text.len(),
{
    if text.len() > 0 {
        lemma_cells_of_glyphs(text.drop_last(), cells.drop_last());
        assert(text.last() == cells[cells.len() - 1].glyph());
    }
}

/// Where neither of two parts holds a character that stands for nothing,
/// neither does the whole.
proof fn lemma_first_invalid_append(text: Seq<char>, more: Seq<char>)
    requires
        first_invalid(text) is None,
        first_invalid(more) is None,
    ensures
        first_invalid(text + more) is None,
{
    lemma_first_invalid_is_first(text);
    lemma_first_invalid_is_first(more);
    lemma_first_invalid_is_first(text + more);
}

/// Reading the text form of a universe gives the universe back, so long as
/// the universe has a cell or has neither columns nor rows. (A universe with
/// columns but no rows, or with rows but no columns, has the empty text,
/// which reads as the universe without columns and rows.)
pub proof fn lemma_parse_inverts_text(grid: GridView<Cell>)
    requires
        grid.well_formed(),
        (grid.columns > 0 && grid.rows > 0) || (grid.columns == 0 && grid.rows == 0),
    ensures
        parsed(text_of(grid)) == Ok::<GridView<Cell>, ParseUniverseError>(grid),
{
    let text = text_of(grid);
    if grid.columns == 0 {
        assert(grid.columns * grid.rows == 0) by (nonlinear_arith)
            requires
                grid.columns == 0,
        ;
        assert(grid.cells =~= Seq::<Cell>::empty());
        let rows = split_rows(strip_final_newline(text));
        assert(first_mismatch(rows.drop_last()) is None);
    } else {
        let columns = grid.columns as int;
        let done = (grid.rows - 1) as nat;
        let before = rows_text(grid, done);
        let row = row_text(grid, done as int);
        lemma_rows_text(grid, grid.rows);
        lemma_rows_text(grid, done);
        lemma_row_text(grid, done as int);
        let body = strip_final_newline(text);
        assert(body =~= before + row);
        lemma_split_rows_append(before, row);
        let rows = split_rows(body);
        assert forall|i: int| 0 <= i < rows.len() implies row_length(#[trigger] rows[i])
            == grid.columns by {
            lemma_row_text(grid, i);
            lemma_row_length_of_cells(row_text(grid, i));
        }
        lemma_first_mismatch_is_first(rows);
        assert(grid.cells.take(columns * grid.rows) =~= grid.cells);
    }
}

} // verus!
