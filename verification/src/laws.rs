//! What holds of the layout engine across calls, stated over what an engine
//! holds (`LayoutView`) and proved from the definitions that the contracts of
//! `ModelLayout` use.

use vstd::prelude::*;
use crate::cell::Cell;
use crate::model_layout::{grown_rows, LayoutView, ROWS_STEP};
use crate::wrap::{
    batch_estimate_exact,
    batch_extent,
    lemma_batch_estimate,
    lemma_batch_step,
    lemma_batch_width_bounds,
    lemma_cursor_after,
    lemma_rows_written_prefix,
    lemma_write_lines_outside,
    lemma_write_lines_row,
    lemma_write_lines_shape,
    lemma_write_lines_len,
    line_row,
    line_rows_written,
    line_start,
    rows_estimated,
    rows_of_width,
    rows_written,
    trailing_extent,
};

verus! {

/// The rows that the estimator counts for a batch are the rows that
/// writing it runs through, on every batch whose lines are all empty or have
/// at most one full row more than `(len - 1) % columns + 1`. On any other
/// batch the estimator counts fewer rows than are written.
pub proof fn lemma_estimate_is_rows_written(batch: Seq<Seq<Cell>>, columns: int)
    requires
        columns > 0,
        batch_estimate_exact(batch, columns),
    ensures
        rows_estimated(batch, columns) == rows_written(batch, columns),
{
    lemma_batch_estimate(batch, columns);
}

/// Growth makes a whole number of steps of rows. It makes at least the rows
/// asked for exactly when `rows / 11 + rows % 11 <= 10`.
pub proof fn lemma_grown_rows(rows: int)
    requires
        0 <= rows,
    ensures
        grown_rows(rows) >= ROWS_STEP,
        grown_rows(rows) % (ROWS_STEP as int) == 0,
        grown_rows(rows) >= rows <==> rows / (ROWS_STEP + 1) + rows % (ROWS_STEP + 1) <= ROWS_STEP,
{
}

/// Asking for rows keeps the engine well formed and never takes rows away.
/// Growth keeps every filled row as it was, cell by cell, and keeps the
/// cursor, the width and the filled extent.
pub proof fn lemma_growth_keeps_content(state: LayoutView, rows: int)
    requires
        state.wf(),
        state.rows_after(rows) >= rows,
    ensures
        state.ensure_rows(rows).wf(),
        state.ensure_rows(rows).grid.rows() == state.rows_after(rows),
        state.ensure_rows(rows).grid.rows() >= state.grid.rows(),
        state.ensure_rows(rows).grid.rows() >= rows,
        state.ensure_rows(rows).grid.columns == state.grid.columns,
        state.ensure_rows(rows).grid.cursor == state.grid.cursor,
        state.ensure_rows(rows).rows_filled == state.rows_filled,
        state.ensure_rows(rows).cols_filled == state.cols_filled,
        forall|r: int|
            0 <= r < state.rows_filled ==> #[trigger] state.ensure_rows(rows).grid.cells[r]
                == state.grid.cells[r],
{
    if rows > state.grid.rows() {
        lemma_grown_rows(rows);
    }
}

/// A layout call that fits keeps the engine well formed, never takes rows
/// away from the grid and never changes its width.
pub proof fn lemma_replace_wf(state: LayoutView, offset: int, batch: Seq<Seq<Cell>>)
    requires
        state.wf(),
        0 <= offset,
        state.fits(offset, batch),
    ensures
        state.replace(offset, batch).wf(),
        state.replace(offset, batch).grid.rows() >= state.grid.rows(),
        state.replace(offset, batch).grid.columns == state.grid.columns,
{
    let columns = state.grid.columns as int;
    let filled = offset + rows_estimated(batch, columns);
    let grown = state.ensure_rows(filled);
    lemma_batch_estimate(batch, columns);
    lemma_growth_keeps_content(state, filled);
    assert(rows_of_width(grown.grid.cells, columns)) by {
        assert forall|r: int| 0 <= r < grown.grid.cells.len() implies (#[trigger] grown.grid.cells[r]).len()
            == columns by {}
    }
    lemma_write_lines_shape(grown.grid.cells, offset, batch, columns);
    lemma_cursor_after(grown.grid.cursor, offset, batch, columns);
    lemma_batch_width_bounds(batch, columns);
}

/// After a layout from the first row on, the height of the content is the
/// estimator's row count. Its width is the filled width, and one more than
/// the characters in the row where the cursor ended where those reach the
/// filled width and leave a column free. After a batch without characters
/// the cursor stays, and the width reaches to it.
pub proof fn lemma_size_after_layout(state: LayoutView, batch: Seq<Seq<Cell>>)
    requires
        state.wf(),
        state.fits(0, batch),
    ensures
        ({
            let columns = state.grid.columns as int;
            let after = state.replace(0, batch);
            let extent = trailing_extent(batch, columns);
            &&& after.size().1 == rows_estimated(batch, columns)
            &&& extent <= after.cols_filled
            &&& extent > 0 ==> after.size().0 == if after.cols_filled == extent && extent
                < columns {
                extent + 1
            } else {
                after.cols_filled as int
            }
            &&& extent == 0 ==> after.size().0 == if after.cols_filled < state.grid.cursor.1 + 1 {
                state.grid.cursor.1 + 1
            } else {
                after.cols_filled
            }
        }),
{
    let columns = state.grid.columns as int;
    let filled = rows_estimated(batch, columns);
    lemma_batch_estimate(batch, columns);
    lemma_growth_keeps_content(state, filled);
    lemma_cursor_after(state.ensure_rows(filled).grid.cursor, 0, batch, columns);
    lemma_batch_width_bounds(batch, columns);
}

/// Appending a batch below the filled rows adds the estimator's row count
/// of the batch to the filled rows and leaves every row that was filled
/// before as it was, cell by cell.
pub proof fn lemma_append_keeps_filled_rows(state: LayoutView, batch: Seq<Seq<Cell>>)
    requires
        state.wf(),
        state.fits(state.rows_filled as int, batch),
    ensures
        ({
            let after = state.replace(state.rows_filled as int, batch);
            &&& after.rows_filled == state.rows_filled + rows_estimated(
                batch,
                state.grid.columns as int,
            )
            &&& forall|r: int|
                0 <= r < state.rows_filled ==> #[trigger] after.grid.cells[r]
                    == state.grid.cells[r]
        }),
{
    let columns = state.grid.columns as int;
    let offset = state.rows_filled as int;
    let filled = offset + rows_estimated(batch, columns);
    let grown = state.ensure_rows(filled);
    let after = state.replace(offset, batch);
    lemma_batch_estimate(batch, columns);
    lemma_growth_keeps_content(state, filled);
    assert forall|r: int| 0 <= r < state.rows_filled implies #[trigger] after.grid.cells[r]
        == state.grid.cells[r] by {
        lemma_write_lines_outside(grown.grid.cells, offset, batch, columns, r);
        assert(grown.grid.cells[r] == state.grid.cells[r]);
    }
}

/// The filled width after a layout call: where the call leaves exactly one
/// row filled, it is the width of the batch, whatever it was before. Else
/// it is the larger of what it was and the width of the batch, so it does
/// not shrink.
pub proof fn lemma_width_tracking(state: LayoutView, offset: int, batch: Seq<Seq<Cell>>)
    requires
        state.wf(),
        0 <= offset,
        state.fits(offset, batch),
    ensures
        ({
            let columns = state.grid.columns as int;
            let after = state.replace(offset, batch);
            &&& 1 <= batch_extent(batch, columns) <= columns
            &&& after.rows_filled == 1 ==> after.cols_filled == batch_extent(batch, columns)
            &&& after.rows_filled != 1 ==> after.cols_filled >= state.cols_filled
            &&& after.rows_filled != 1 ==> after.cols_filled >= batch_extent(batch, columns)
            &&& after.rows_filled != 1 ==> after.cols_filled == state.cols_filled
                || after.cols_filled == batch_extent(batch, columns)
        }),
{
    let columns = state.grid.columns as int;
    lemma_batch_estimate(batch, columns);
    lemma_batch_width_bounds(batch, columns);
}

/// After a layout call, row `a` of line `i` of the batch stands in the grid
/// in the row `a` below the row where the line starts, from column 0 on and
/// with blanks behind its last character. With
/// `lemma_lines_start_fresh_rows` this says that no two lines share a row.
pub proof fn lemma_line_in_grid(
    state: LayoutView,
    offset: int,
    batch: Seq<Seq<Cell>>,
    i: int,
    a: int,
)
    requires
        state.wf(),
        0 <= offset,
        state.fits(offset, batch),
        0 <= i < batch.len(),
        0 <= a < line_rows_written(batch[i].len() as int, state.grid.columns as int),
    ensures
        ({
            let columns = state.grid.columns as int;
            let after = state.replace(offset, batch);
            let row = line_start(offset, batch, i, columns) + a;
            &&& offset <= row < after.grid.rows()
            &&& after.grid.cells[row] == line_row(batch[i], a, columns)
        }),
{
    let columns = state.grid.columns as int;
    let filled = offset + rows_estimated(batch, columns);
    let grown = state.ensure_rows(filled);
    lemma_batch_estimate(batch, columns);
    lemma_growth_keeps_content(state, filled);
    lemma_rows_written_prefix(batch, i, columns);
    lemma_rows_written_prefix(batch, i + 1, columns);
    lemma_batch_step(batch, i, columns);
    lemma_write_lines_len(grown.grid.cells, offset, batch, columns);
    lemma_write_lines_row(grown.grid.cells, offset, batch, columns, i, a);
}

} // verus!
