//! The layout engine: it wraps batches of logical lines onto a grid that it
//! owns, grows the grid in steps of `ROWS_STEP` rows, and keeps track of how
//! many rows and columns hold content.

use vstd::prelude::*;
use vstd::string::StrSliceExecFns;
use crate::cell::{Attrs, Cell};
use crate::laws::{
    lemma_append_keeps_filled_rows,
    lemma_growth_keeps_content,
    lemma_replace_wf,
};
use crate::line::blank_row;
use crate::ui_model::{GridView, UiModel};
use crate::wrap::{
    batch_cells,
    batch_extent,
    cursor_after,
    cursor_after_line,
    lemma_batch_estimate,
    lemma_batch_step,
    lemma_batch_width_bounds,
    lemma_line_cells_index,
    lemma_line_cells_prefix,
    lemma_line_cells_step,
    lemma_line_estimate,
    lemma_line_rows_written_bounds,
    lemma_position,
    lemma_rows_estimated_prefix,
    lemma_rows_written_prefix,
    lemma_write_chars_all,
    lemma_write_chars_none,
    lemma_write_chars_put,
    lemma_write_step,
    line_cells,
    line_rows_written,
    line_width,
    rows_estimated,
    rows_of_width,
    rows_written,
    write_chars,
    write_line,
    write_lines,
};

verus! {

/// The number of rows by which the grid grows.
pub const ROWS_STEP: usize = 10;

/// The number of rows of the grid that is made when `rows` rows are asked
/// for and the grid at hand has fewer.
pub open spec fn grown_rows(rows: int) -> int {
    (rows / (ROWS_STEP + 1) + 1) * ROWS_STEP
}

/// What a layout engine holds: its grid, and how many rows and columns of it
/// are filled.
pub struct LayoutView {
    pub grid: GridView,
    pub rows_filled: nat,
    pub cols_filled: nat,
}

impl LayoutView {
    /// The grid is well formed, its rows come in whole steps, and what is
    /// filled lies inside it.
    pub open spec fn wf(self) -> bool {
        &&& self.grid.wf()
        &&& self.grid.rows() % (ROWS_STEP as nat) == 0
        &&& self.rows_filled <= self.grid.rows()
        &&& self.cols_filled <= self.grid.columns
    }

    /// An engine that has laid out nothing yet: one step of blank rows.
    pub open spec fn fresh(columns: nat) -> LayoutView {
        LayoutView {
            grid: GridView::blank(ROWS_STEP as nat, columns),
            rows_filled: 0,
            cols_filled: 0,
        }
    }

    /// The number of rows of the grid once `rows` rows were asked for.
    pub open spec fn rows_after(self, rows: int) -> int {
        if rows <= self.grid.rows() {
            self.grid.rows() as int
        } else {
            grown_rows(rows)
        }
    }

    /// The engine once `rows` rows were asked for. Where the grid has that
    /// many, nothing changes. Else the grid is replaced by one of
    /// `grown_rows(rows)` rows that holds the filled rows and the cursor of
    /// the old one, and blank rows below them.
    pub open spec fn ensure_rows(self, rows: int) -> LayoutView {
        if rows <= self.grid.rows() {
            self
        } else {
            LayoutView {
                grid: GridView {
                    cells: Seq::new(
                        grown_rows(rows) as nat,
                        |r: int|
                            if r < self.rows_filled {
                                self.grid.cells[r]
                            } else {
                                blank_row(self.grid.columns)
                            },
                    ),
                    columns: self.grid.columns,
                    cursor: self.grid.cursor,
                },
                ..self
            }
        }
    }

    /// Laying out `batch` from row `offset` on stays inside the grid: the
    /// rows that the estimator counts are asked for, and the rows that are
    /// then there take what is written.
    pub open spec fn fits(self, offset: int, batch: Seq<Seq<Cell>>) -> bool {
        let columns = self.grid.columns as int;
        offset + rows_written(batch, columns) <= self.rows_after(
            offset + rows_estimated(batch, columns),
        )
    }

    /// The engine after `batch` was laid out from row `offset` on.
    ///
    /// The rows that the estimator counts for the batch are asked for, then
    /// the batch is written. The filled rows end where the estimate ends.
    /// The filled width is that of the batch where exactly one row is filled,
    /// and else the larger of what it was and that of the batch.
    pub open spec fn replace(self, offset: int, batch: Seq<Seq<Cell>>) -> LayoutView {
        let columns = self.grid.columns as int;
        let filled = offset + rows_estimated(batch, columns);
        let grown = self.ensure_rows(filled);
        let extent = batch_extent(batch, columns);
        LayoutView {
            grid: GridView {
                cells: write_lines(grown.grid.cells, offset, batch, columns),
                columns: self.grid.columns,
                cursor: cursor_after(grown.grid.cursor, offset, batch, columns),
            },
            rows_filled: filled as nat,
            cols_filled: if filled == 1 || self.cols_filled < extent {
                extent as nat
            } else {
                self.cols_filled
            },
        }
    }

    /// The row in which the cursor is placed: the last filled one, or the
    /// first row where none is filled.
    pub open spec fn cursor_row(self) -> nat {
        if self.rows_filled > 0 {
            (self.rows_filled - 1) as nat
        } else {
            0
        }
    }

    /// The engine with the cursor placed in column `col` of `cursor_row()`.
    pub open spec fn with_cursor(self, col: nat) -> LayoutView {
        LayoutView { grid: self.grid.with_cursor(self.cursor_row(), col), ..self }
    }

    /// The size of the content, as (width, height): the width reaches to the
    /// filled columns and to the cursor's cell, the height is that of the
    /// filled rows.
    pub open spec fn size(self) -> (nat, nat) {
        (
            if self.cols_filled < self.grid.cursor.1 + 1 {
                self.grid.cursor.1 + 1
            } else {
                self.cols_filled
            },
            self.rows_filled,
        )
    }

    /// The engine after `text` was inserted. Only the first character of a
    /// plain insert is written, without style, under the cursor; an empty
    /// text and a shifted insert change nothing.
    pub open spec fn inserted(self, text: Seq<char>, shift: bool) -> LayoutView {
        if text.len() == 0 || shift {
            self
        } else {
            LayoutView { grid: self.grid.put(Cell::styled(text[0], None)), ..self }
        }
    }
}

/// A batch that fits leaves its last row inside the largest grid that can be
/// made: one of as many rows as the grid has, or of eleven steps.
pub proof fn lemma_fits_bounded(state: LayoutView, offset: int, batch: Seq<Seq<Cell>>)
    requires
        state.wf(),
        0 <= offset,
    ensures
        state.fits(offset, batch) ==> ({
            let below = offset + rows_written(batch, state.grid.columns as int);
            below <= state.grid.rows() || below <= (ROWS_STEP + 1) * ROWS_STEP
        }),
{
    lemma_batch_estimate(batch, state.grid.columns as int);
}

/// A quotient by a positive divisor is not larger than what is divided.
proof fn lemma_div_bound(x: int, d: int)
    requires
        0 <= x,
        0 < d,
    ensures
        0 <= x / d <= x,
{
    assert(0 <= x / d <= x) by (nonlinear_arith)
        requires
            0 <= x,
            0 < d,
    ;
}

/// A layout engine: a grid and the extent of what was laid out on it.
pub struct ModelLayout {
    pub model: UiModel,
    pub rows_filled: usize,
    pub cols_filled: usize,
}

impl View for ModelLayout {
    type V = LayoutView;

    open spec fn view(&self) -> LayoutView {
        LayoutView {
            grid: self.model@,
            rows_filled: self.rows_filled as nat,
            cols_filled: self.cols_filled as nat,
        }
    }
}

impl ModelLayout {
    pub const ROWS_STEP: usize = ROWS_STEP;

    /// The engine is well formed, and one more than its width is a `usize`.
    pub open spec fn wf(&self) -> bool {
        &&& self.model.wf()
        &&& self@.wf()
        &&& self.model.columns < usize::MAX
    }

    /// Every line of `lines` has a length that is a `usize`, and the batch
    /// fits the engine from row `row_offset` on.
    pub open spec fn accepts(
        &self,
        row_offset: usize,
        lines: &Vec<Vec<(Option<Attrs>, Vec<char>)>>,
    ) -> bool {
        &&& forall|i: int|
            0 <= i < lines@.len() ==> line_cells((#[trigger] lines@[i])@).len() <= usize::MAX
        &&& self@.fits(row_offset as int, batch_cells(lines@))
    }

    /// An engine with a blank grid of `columns` columns and one step of rows.
    pub fn new(columns: u64) -> (layout: ModelLayout)
        requires
            0 < columns < usize::MAX,
        ensures
            layout.wf(),
            layout@ == LayoutView::fresh(columns as nat),
    {
        let model = UiModel::new(ROWS_STEP as u64, columns);
        proof {
            model.lemma_view_wf();
        }
        ModelLayout { model, rows_filled: 0, cols_filled: 0 }
    }

    /// Places the cursor in column `col` of the last filled row, or of the
    /// first row where none is filled. A column outside the grid is ignored.
    pub fn set_cursor(&mut self, col: usize)
        requires
            old(self).wf(),
        ensures
            final(self).wf(),
            final(self)@ == old(self)@.with_cursor(col as nat),
    {
        let row = if self.rows_filled > 0 {
            self.rows_filled - 1
        } else {
            0
        };
        self.model.set_cursor(row, col);
        proof {
            self.model.lemma_view_wf();
        }
    }

    /// The size of the content, as (width, height).
    pub fn size(&self) -> (size: (usize, usize))
        requires
            self.wf(),
        ensures
            size.0 == self@.size().0,
            size.1 == self@.size().1,
    {
        let cursor_col = self.model.get_cursor().1;
        let width = if self.cols_filled < cursor_col + 1 {
            cursor_col + 1
        } else {
            self.cols_filled
        };
        (width, self.rows_filled)
    }

    /// Writes the first character of `c` under the cursor. An empty `c`
    /// changes nothing, and neither does a shifted insert.
    pub fn insert(&mut self, c: &str, shift: bool)
        requires
            old(self).wf(),
        ensures
            final(self).wf(),
            final(self)@ == old(self)@.inserted(c@, shift),
    {
        if c.is_empty() {
            return ;
        }
        if !shift {
            self.model.put(c.get_char(0), false, None);
            proof {
                self.model.lemma_view_wf();
            }
        }
    }

    /// Whether `lines` may be laid out from row `row_offset` on: whether
    /// every character would be written inside the grid as it is after the
    /// rows that the estimator counts were asked for.
    pub fn can_layout(
        &self,
        row_offset: usize,
        lines: &Vec<Vec<(Option<Attrs>, Vec<char>)>>,
    ) -> (ok: bool)
        requires
            self.wf(),
        ensures
            ok == self.accepts(row_offset, lines),
    {
        let columns = self.model.columns;
        let ghost batch = batch_cells(lines@);
        let mut estimated: usize = 0;
        let mut written: usize = 0;
        let mut i: usize = 0;
        proof {
            assert(batch.take(0) =~= Seq::empty());
            self.model.lemma_view_wf();
        }
        while i < lines.len()
            invariant
                self.wf(),
                columns == self.model.columns,
                batch == batch_cells(lines@),
                i <= lines.len(),
                forall|k: int|
                    0 <= k < i ==> line_cells((#[trigger] lines@[k])@).len() <= usize::MAX,
                estimated == rows_estimated(batch.take(i as int), columns as int),
                written == rows_written(batch.take(i as int), columns as int),
                estimated <= written,
            decreases lines.len() - i,
        {
            let line = &lines[i];
            let mut len: usize = 0;
            let mut j: usize = 0;
            assert(line@.take(0) =~= Seq::empty());
            while j < line.len()
                invariant
                    i < lines.len(),
                    *line == lines@[i as int],
                    j <= line.len(),
                    len == line_cells(line@.take(j as int)).len(),
                decreases line.len() - j,
            {
                let span_len = line[j].1.len();
                proof {
                    lemma_line_cells_step(line@, j as int);
                    lemma_line_cells_prefix(line@, j + 1);
                }
                if span_len > usize::MAX - len {
                    assert(line_cells(lines@[i as int]@).len() > usize::MAX);
                    return false;
                }
                len += span_len;
                j += 1;
            }
            proof {
                assert(line@.take(j as int) =~= line@);
                lemma_batch_step(batch, i as int, columns as int);
                lemma_rows_written_prefix(batch, i + 1, columns as int);
                lemma_line_estimate(len as int, columns as int);
                lemma_line_rows_written_bounds(len as int, columns as int);
                lemma_batch_estimate(batch, columns as int);
                if len > 0 {
                    lemma_div_bound((len - 1) as int, columns as int);
                }
            }
            let line_written = if len == 0 {
                1
            } else {
                (len - 1) / columns + 1
            };
            if line_written > usize::MAX - written {
                proof {
                    lemma_fits_bounded(self@, row_offset as int, batch);
                }
                return false;
            }
            estimated += len / (columns + 1) + 1;
            written += line_written;
            i += 1;
        }
        proof {
            assert(batch.take(i as int) =~= batch);
            lemma_fits_bounded(self@, row_offset as int, batch);
        }
        if row_offset > usize::MAX - written {
            return false;
        }
        let rows = row_offset + estimated;
        let rows_after = if rows <= self.model.rows {
            self.model.rows
        } else {
            ((rows / (ROWS_STEP + 1)) + 1) * ROWS_STEP
        };
        row_offset + written <= rows_after
    }

    /// The number of rows that the estimator counts for `lines` at a width of
    /// `max_columns`.
    pub fn count_lines(lines: &Vec<Vec<(Option<Attrs>, Vec<char>)>>, max_columns: usize) -> (row_count:
        usize)
        requires
            max_columns < usize::MAX,
            forall|i: int|
                0 <= i < lines@.len() ==> line_cells((#[trigger] lines@[i])@).len() <= usize::MAX,
            rows_estimated(batch_cells(lines@), max_columns as int) <= usize::MAX,
        ensures
            row_count == rows_estimated(batch_cells(lines@), max_columns as int),
    {
        let ghost batch = batch_cells(lines@);
        let mut row_count: usize = 0;
        let mut i: usize = 0;
        assert(batch.take(0) =~= Seq::empty());
        while i < lines.len()
            invariant
                i <= lines.len(),
                batch == batch_cells(lines@),
                max_columns < usize::MAX,
                forall|i: int|
                    0 <= i < lines@.len() ==> line_cells((#[trigger] lines@[i])@).len()
                        <= usize::MAX,
                rows_estimated(batch, max_columns as int) <= usize::MAX,
                row_count == rows_estimated(batch.take(i as int), max_columns as int),
            decreases lines.len() - i,
        {
            let line = &lines[i];
            let mut len: usize = 0;
            let mut j: usize = 0;
            assert(line@.take(0) =~= Seq::empty());
            while j < line.len()
                invariant
                    j <= line.len(),
                    line_cells(line@).len() <= usize::MAX,
                    len == line_cells(line@.take(j as int)).len(),
                decreases line.len() - j,
            {
                proof {
                    lemma_line_cells_step(line@, j as int);
                    lemma_line_cells_prefix(line@, j + 1);
                }
                len += line[j].1.len();
                j += 1;
            }
            proof {
                assert(line@.take(j as int) =~= line@);
                lemma_batch_step(batch, i as int, max_columns as int);
                lemma_rows_estimated_prefix(batch, i + 1, max_columns as int);
            }
            row_count += len / (max_columns + 1) + 1;
            i += 1;
        }
        assert(batch.take(i as int) =~= batch);
        row_count
    }

    /// Makes sure that the grid has `rows` rows. Where it has fewer, it is
    /// replaced by a grid of `grown_rows(rows)` rows with the same filled
    /// rows and the same cursor.
    pub fn check_model_size(&mut self, rows: usize)
        requires
            old(self).wf(),
            old(self)@.rows_after(rows as int) >= rows,
        ensures
            final(self).wf(),
            final(self)@ == old(self)@.ensure_rows(rows as int),
            final(self)@.grid.rows() == old(self)@.rows_after(rows as int),
            final(self)@.grid.rows() >= rows,
            final(self)@.grid.rows() >= old(self)@.grid.rows(),
            final(self)@.grid.cursor == old(self)@.grid.cursor,
            forall|r: int|
                0 <= r < old(self)@.rows_filled ==> #[trigger] final(self)@.grid.cells[r]
                    == old(self)@.grid.cells[r],
    {
        proof {
            lemma_growth_keeps_content(self@, rows as int);
        }
        if rows > self.model.rows {
            let model_cols = self.model.columns;
            let model_rows = ((rows / (ROWS_STEP + 1)) + 1) * ROWS_STEP;
            let (cur_row, cur_col) = self.model.get_cursor();

            proof {
                self.model.lemma_view_wf();
            }
            assert(model_rows == grown_rows(rows as int));
            let mut model = UiModel::new(model_rows as u64, model_cols as u64);
            if self.rows_filled > 0 {
                self.model.copy_rows(&mut model, self.rows_filled - 1);
            }
            model.set_cursor(cur_row, cur_col);
            proof {
                let grown = old(self)@.ensure_rows(rows as int).grid;
                assert forall|r: int| 0 <= r < model_rows implies #[trigger] model@.cells[r]
                    == grown.cells[r] by {
                    if r < self.rows_filled {
                        assert(self.model@.cells[r].len() == model_cols);
                        assert(model@.cells[r] =~= self.model@.cells[r]);
                    }
                }
                assert(model@.cells =~= grown.cells);
            }
            self.model = model;
        }
    }

    /// Writes one logical line into `model` from row `row` on, wrapping at
    /// the last column, and clears what is left of its last row. Returns the
    /// row below the line and the largest column that was written so far,
    /// `max_col_idx` or one of this line.
    fn layout_line(
        model: &mut UiModel,
        row: usize,
        line: &Vec<(Option<Attrs>, Vec<char>)>,
        max_col_idx: usize,
    ) -> (res: (usize, usize))
        requires
            old(model).wf(),
            row + line_rows_written(
                line_cells(line@).len() as int,
                old(model).columns as int,
            ) <= old(model).rows,
            max_col_idx < old(model).columns,
        ensures
            final(model).wf(),
            final(model).rows == old(model).rows,
            final(model).columns == old(model).columns,
            final(model)@.cells == write_line(
                old(model)@.cells,
                row as int,
                line_cells(line@),
                old(model).columns as int,
            ),
            final(model)@.cursor == if line_cells(line@).len() == 0 {
                old(model)@.cursor
            } else {
                cursor_after_line(
                    row as int,
                    line_cells(line@).len() as int,
                    old(model).columns as int,
                )
            },
            res.0 == row + line_rows_written(
                line_cells(line@).len() as int,
                old(model).columns as int,
            ),
            res.1 == if max_col_idx + 1 < line_width(
                line_cells(line@).len() as int,
                old(model).columns as int,
            ) {
                line_width(line_cells(line@).len() as int, old(model).columns as int) - 1
            } else {
                max_col_idx as int
            },
    {
        let columns = model.columns;
        let ghost before = model@;
        let ghost chars = line_cells(line@);
        let ghost mut count: int = 0;
        let mut max_col = max_col_idx;
        let mut col_idx: usize = 0;
        let mut row_idx: usize = row;
        let mut j: usize = 0;
        proof {
            lemma_write_chars_none(before.cells, row as int, chars, columns as int);
            lemma_line_rows_written_bounds(chars.len() as int, columns as int);
            assert(line@.take(0) =~= Seq::empty());
            assert((row_idx - row) * columns == 0) by (nonlinear_arith)
                requires
                    row_idx == row,
            ;
        }
        while j < line.len()
            invariant
                model.wf(),
                model.rows == old(model).rows,
                model.columns == columns,
                columns == old(model).columns,
                before == old(model)@,
                rows_of_width(before.cells, columns as int),
                before.cells.len() == model.rows,
                chars == line_cells(line@),
                row + line_rows_written(chars.len() as int, columns as int) <= model.rows,
                max_col_idx < columns,
                j <= line.len(),
                count == line_cells(line@.take(j as int)).len(),
                count <= chars.len(),
                count == (row_idx - row) * columns + col_idx,
                row <= row_idx < model.rows,
                col_idx <= columns,
                count > 0 ==> col_idx >= 1,
                model@.cells == write_chars(before.cells, row as int, chars, count, columns as int),
                model@.cursor == if count == 0 {
                    before.cursor
                } else {
                    (
                        row_idx as nat,
                        if col_idx < columns {
                            col_idx as nat
                        } else {
                            (columns - 1) as nat
                        },
                    )
                },
                max_col == if max_col_idx + 1 < line_width(count, columns as int) {
                    line_width(count, columns as int) - 1
                } else {
                    max_col_idx as int
                },
            decreases line.len() - j,
        {
            let attr = &line[j].0;
            let ch_list = &line[j].1;
            let ghost span_start = count;
            let mut k: usize = 0;
            proof {
                lemma_line_cells_step(line@, j as int);
                lemma_line_cells_prefix(line@, j + 1);
            }
            while k < ch_list.len()
                invariant
                    model.wf(),
                    model.rows == old(model).rows,
                    model.columns == columns,
                    columns == old(model).columns,
                    rows_of_width(before.cells, columns as int),
                    before.cells.len() == model.rows,
                    chars == line_cells(line@),
                    row + line_rows_written(chars.len() as int, columns as int) <= model.rows,
                    max_col_idx < columns,
                    j < line.len(),
                    *attr == line@[j as int].0,
                    *ch_list == line@[j as int].1,
                    k <= ch_list.len(),
                    span_start == line_cells(line@.take(j as int)).len(),
                    span_start + ch_list@.len() <= chars.len(),
                    count == span_start + k,
                    count == (row_idx - row) * columns + col_idx,
                    row <= row_idx < model.rows,
                    col_idx <= columns,
                    count > 0 ==> col_idx >= 1,
                    model@.cells == write_chars(
                        before.cells,
                        row as int,
                        chars,
                        count,
                        columns as int,
                    ),
                    model@.cursor == if count == 0 {
                        before.cursor
                    } else {
                        (
                            row_idx as nat,
                            if col_idx < columns {
                                col_idx as nat
                            } else {
                                (columns - 1) as nat
                            },
                        )
                    },
                    max_col == if max_col_idx + 1 < line_width(count, columns as int) {
                        line_width(count, columns as int) - 1
                    } else {
                        max_col_idx as int
                    },
                decreases ch_list.len() - k,
            {
                proof {
                    lemma_line_cells_index(line@, j as int, k as int);
                    lemma_line_rows_written_bounds(chars.len() as int, columns as int);
                }
                if col_idx >= columns {
                    proof {
                        assert((row_idx - row + 1) * columns == (row_idx - row) * columns
                            + columns) by (nonlinear_arith);
                        // the rows of the line are not used up while a character is left
                        assert(row_idx - row + 1 < line_rows_written(
                            chars.len() as int,
                            columns as int,
                        )) by (nonlinear_arith)
                            requires
                                (row_idx - row + 1) * columns == count,
                                count < chars.len(),
                                chars.len() <= line_rows_written(
                                    chars.len() as int,
                                    columns as int,
                                ) * columns,
                                columns > 0,
                        ;
                    }
                    col_idx = 0;
                    row_idx += 1;
                }
                proof {
                    assert(row_idx - row < line_rows_written(chars.len() as int, columns as int))
                        by (nonlinear_arith)
                        requires
                            (row_idx - row) * columns + col_idx == count,
                            0 <= col_idx,
                            count < chars.len(),
                            chars.len() <= line_rows_written(chars.len() as int, columns as int)
                                * columns,
                            columns > 0,
                    ;
                    lemma_write_chars_put(
                        before.cells,
                        row as int,
                        chars,
                        count,
                        columns as int,
                        row_idx as int,
                        col_idx as int,
                    );
                    if count < columns {
                        lemma_position(count, columns as int, 0, count);
                        lemma_position(count, columns as int, row_idx - row, col_idx as int);
                    }
                }

                model.set_cursor(row_idx, col_idx);
                model.put(ch_list[k], false, attr.as_ref());

                if max_col < col_idx {
                    max_col = col_idx;
                }
                col_idx += 1;
                k += 1;
                proof {
                    count = count + 1;
                }
            }
            j += 1;
        }
        proof {
            assert(line@.take(j as int) =~= line@);
            lemma_write_chars_all(
                before.cells,
                row as int,
                chars,
                columns as int,
                row_idx as int,
                col_idx as int,
            );
        }
        if col_idx < columns {
            model.clear_line(row_idx, col_idx, columns - 1);
        }
        (row_idx + 1, max_col)
    }

    /// Lays out `lines` from row `row_offset` on: asks for the rows that the
    /// estimator counts, writes every line from a row of its own on, and
    /// brings the filled rows and columns up to date.
    pub fn layout_replace(
        &mut self,
        row_offset: usize,
        lines: &Vec<Vec<(Option<Attrs>, Vec<char>)>>,
    )
        requires
            old(self).wf(),
            old(self).accepts(row_offset, lines),
        ensures
            final(self).wf(),
            final(self)@ == old(self)@.replace(row_offset as int, batch_cells(lines@)),
            final(self)@.grid.columns == old(self)@.grid.columns,
            final(self)@.grid.rows() >= old(self)@.grid.rows(),
    {
        let ghost batch = batch_cells(lines@);
        let ghost columns = self.model.columns as int;
        proof {
            lemma_batch_estimate(batch, columns);
            lemma_replace_wf(self@, row_offset as int, batch);
        }
        let rows = ModelLayout::count_lines(lines, self.model.columns);

        self.check_model_size(rows + row_offset);
        self.rows_filled = rows + row_offset;

        let ghost grown = self.model@;
        let mut max_col_idx: usize = 0;
        let mut row_idx: usize = row_offset;
        let mut i: usize = 0;
        proof {
            assert(batch.take(0) =~= Seq::empty());
            self.model.lemma_view_wf();
        }
        while i < lines.len()
            invariant
                self.model.wf(),
                self.model.rows == grown.rows(),
                self.model.columns == columns,
                grown.columns == columns,
                rows_of_width(grown.cells, columns),
                batch == batch_cells(lines@),
                row_offset + rows_written(batch, columns) <= self.model.rows,
                self.rows_filled == rows + row_offset,
                self.cols_filled == old(self).cols_filled,
                i <= lines.len(),
                row_idx == row_offset + rows_written(batch.take(i as int), columns),
                self.model@.cells == write_lines(
                    grown.cells,
                    row_offset as int,
                    batch.take(i as int),
                    columns,
                ),
                self.model@.cursor == cursor_after(
                    grown.cursor,
                    row_offset as int,
                    batch.take(i as int),
                    columns,
                ),
                max_col_idx + 1 == batch_extent(batch.take(i as int), columns),
            decreases lines.len() - i,
        {
            proof {
                lemma_batch_step(batch, i as int, columns);
                lemma_write_step(grown.cells, grown.cursor, row_offset as int, batch, i as int, columns);
                lemma_rows_written_prefix(batch, i + 1, columns);
                lemma_batch_width_bounds(batch.take(i as int), columns);
            }
            let (next_row, max_col) = ModelLayout::layout_line(
                &mut self.model,
                row_idx,
                &lines[i],
                max_col_idx,
            );
            row_idx = next_row;
            max_col_idx = max_col;
            i += 1;
        }
        proof {
            assert(batch.take(i as int) =~= batch);
            lemma_batch_width_bounds(batch, columns);
        }

        if self.rows_filled == 1 || self.cols_filled < max_col_idx + 1 {
            self.cols_filled = max_col_idx + 1;
        }
    }

    /// Lays out `lines` below the filled rows.
    pub fn layout_append(&mut self, lines: &Vec<Vec<(Option<Attrs>, Vec<char>)>>)
        requires
            old(self).wf(),
            old(self).accepts(old(self).rows_filled, lines),
        ensures
            final(self).wf(),
            final(self)@ == old(self)@.replace(
                old(self)@.rows_filled as int,
                batch_cells(lines@),
            ),
            final(self)@.rows_filled == old(self)@.rows_filled + rows_estimated(
                batch_cells(lines@),
                old(self)@.grid.columns as int,
            ),
            forall|r: int|
                0 <= r < old(self)@.rows_filled ==> #[trigger] final(self)@.grid.cells[r]
                    == old(self)@.grid.cells[r],
            final(self)@.grid.columns == old(self)@.grid.columns,
            final(self)@.grid.rows() >= old(self)@.grid.rows(),
    {
        let rows_filled = self.rows_filled;
        proof {
            lemma_append_keeps_filled_rows(self@, batch_cells(lines@));
        }
        self.layout_replace(rows_filled, lines);
    }

    /// Lays out `lines` from the first row on, in place of what was filled.
    pub fn layout(&mut self, lines: &Vec<Vec<(Option<Attrs>, Vec<char>)>>)
        requires
            old(self).wf(),
            old(self).accepts(0, lines),
        ensures
            final(self).wf(),
            final(self)@ == old(self)@.replace(0, batch_cells(lines@)),
            final(self)@.rows_filled == rows_estimated(
                batch_cells(lines@),
                old(self)@.grid.columns as int,
            ),
            final(self)@.grid.columns == old(self)@.grid.columns,
            final(self)@.grid.rows() >= old(self)@.grid.rows(),
    {
        proof {
            lemma_batch_estimate(batch_cells(lines@), self.model.columns as int);
        }
        self.layout_replace(0, lines);
    }
}

} // verus!
