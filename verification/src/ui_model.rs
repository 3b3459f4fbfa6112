//! The character grid: a fixed number of rows and columns of cells, and one
//! cursor position.

use vstd::prelude::*;
use crate::cell::{Attrs, Cell};
use crate::line::{blank_row, cleared, overlaid, Line};

verus! {

/// What a grid holds: its rows of cells, its width and its cursor.
pub struct GridView {
    pub cells: Seq<Seq<Cell>>,
    pub columns: nat,
    pub cursor: (nat, nat),
}

impl GridView {
    /// The number of rows.
    pub open spec fn rows(self) -> nat {
        self.cells.len()
    }

    /// A grid has at least one cell, every row has `columns` cells, and the
    /// cursor stands on a cell.
    pub open spec fn wf(self) -> bool {
        &&& self.rows() >= 1
        &&& self.columns >= 1
        &&& forall|r: int| 0 <= r < self.rows() ==> (#[trigger] self.cells[r]).len() == self.columns
        &&& self.cursor.0 < self.rows()
        &&& self.cursor.1 < self.columns
    }

    /// The grid of `rows` by `columns` blank cells with the cursor in its
    /// first cell.
    pub open spec fn blank(rows: nat, columns: nat) -> GridView {
        GridView {
            cells: Seq::new(rows, |r: int| blank_row(columns)),
            columns,
            cursor: (0, 0),
        }
    }

    /// Moves the cursor to (`row`, `col`) where that is a cell of the grid;
    /// a position outside the grid leaves the cursor where it is.
    pub open spec fn with_cursor(self, row: nat, col: nat) -> GridView {
        if row < self.rows() && col < self.columns {
            GridView { cursor: (row, col), ..self }
        } else {
            self
        }
    }

    /// Writes `cell` under the cursor, then moves the cursor one column to the
    /// right unless it stands in the last column.
    pub open spec fn put(self, cell: Cell) -> GridView {
        let (row, col) = self.cursor;
        GridView {
            cells: self.cells.update(row as int, self.cells[row as int].update(col as int, cell)),
            columns: self.columns,
            cursor: (
                row,
                if col + 1 < self.columns {
                    col + 1
                } else {
                    col
                },
            ),
        }
    }

    /// Resets the columns `left..=right` of row `row` to blank.
    pub open spec fn with_cleared(self, row: int, left: int, right: int) -> GridView {
        GridView { cells: self.cells.update(row, cleared(self.cells[row], left, right)), ..self }
    }

    /// Takes the first `source.columns` columns of the rows `0..=to_row` from
    /// `source`. Everything else, the cursor included, stays.
    pub open spec fn with_rows_from(self, source: GridView, to_row: int) -> GridView {
        GridView {
            cells: Seq::new(
                self.rows(),
                |r: int|
                    if r <= to_row {
                        overlaid(self.cells[r], source.cells[r], 0, source.columns - 1)
                    } else {
                        self.cells[r]
                    },
            ),
            ..self
        }
    }
}

/// A grid of cells with a cursor. The numbers of rows and columns are fixed
/// when the grid is made.
pub struct UiModel {
    pub columns: usize,
    pub rows: usize,
    pub cur_row: usize,
    pub cur_col: usize,
    pub model: Vec<Line>,
}

impl View for UiModel {
    type V = GridView;

    open spec fn view(&self) -> GridView {
        GridView {
            cells: Seq::new(self.model@.len(), |r: int| self.model@[r]@),
            columns: self.columns as nat,
            cursor: (self.cur_row as nat, self.cur_col as nat),
        }
    }
}

impl UiModel {
    /// The grid has `rows` rows of `columns` cells each, at least one cell,
    /// and the cursor stands on a cell.
    pub open spec fn wf(&self) -> bool {
        &&& self.rows >= 1
        &&& self.columns >= 1
        &&& self.model@.len() == self.rows
        &&& forall|r: int|
            0 <= r < self.rows ==> (#[trigger] self.model@[r])@.len() == self.columns
        &&& self.cur_row < self.rows
        &&& self.cur_col < self.columns
    }

    /// What a well-formed grid holds is well formed.
    pub proof fn lemma_view_wf(&self)
        requires
            self.wf(),
        ensures
            self@.wf(),
            self@.rows() == self.rows,
            self@.columns == self.columns,
    {
    }

    /// A grid of `rows` by `columns` blank cells, the cursor in its first
    /// cell.
    pub fn new(rows: u64, columns: u64) -> (grid: UiModel)
        requires
            1 <= rows <= usize::MAX,
            1 <= columns <= usize::MAX,
        ensures
            grid.wf(),
            grid.rows == rows,
            grid.columns == columns,
            grid@ == GridView::blank(rows as nat, columns as nat),
    {
        let n_rows: usize = rows as usize;
        let n_cols: usize = columns as usize;
        let mut model: Vec<Line> = Vec::new();
        let mut r: usize = 0;
        while r < n_rows
            invariant
                r <= n_rows,
                model@.len() == r,
                forall|k: int| 0 <= k < r ==> (#[trigger] model@[k])@ == blank_row(n_cols as nat),
            decreases n_rows - r,
        {
            model.push(Line::new(n_cols));
            r += 1;
        }
        let grid = UiModel { columns: n_cols, rows: n_rows, cur_row: 0, cur_col: 0, model };
        assert(grid@.cells =~= GridView::blank(rows as nat, columns as nat).cells);
        grid
    }

    /// The rows of the grid, for reading.
    pub fn model(&self) -> (lines: &Vec<Line>)
        ensures
            lines@.len() == self@.rows(),
            forall|r: int| 0 <= r < lines@.len() ==> (#[trigger] lines@[r])@ == self@.cells[r],
    {
        &self.model
    }

    /// Moves the cursor to (`row`, `col`). A position outside the grid is
    /// ignored.
    pub fn set_cursor(&mut self, row: usize, col: usize)
        requires
            old(self).wf(),
        ensures
            final(self).wf(),
            final(self)@ == old(self)@.with_cursor(row as nat, col as nat),
            final(self).rows == old(self).rows,
            final(self).columns == old(self).columns,
    {
        if row >= self.model.len() || col >= self.columns {
            return ;
        }
        self.cur_row = row;
        self.cur_col = col;
    }

    /// The cursor, as (row, column).
    pub fn get_cursor(&self) -> (cursor: (usize, usize))
        ensures
            cursor.0 == self@.cursor.0,
            cursor.1 == self@.cursor.1,
    {
        (self.cur_row, self.cur_col)
    }

    /// Writes `ch` with the given attributes under the cursor and moves the
    /// cursor one column to the right, unless it stands in the last column.
    pub fn put(&mut self, ch: char, double_width: bool, attrs: Option<&Attrs>)
        requires
            old(self).wf(),
        ensures
            final(self).wf(),
            final(self)@ == old(self)@.put(
                Cell {
                    ch,
                    attrs: match attrs {
                        Some(a) => Some(*a),
                        None => None,
                    },
                    double_width,
                },
            ),
            final(self).rows == old(self).rows,
            final(self).columns == old(self).columns,
    {
        let cell = Cell {
            ch,
            attrs: match attrs {
                Some(a) => Some(*a),
                None => None,
            },
            double_width,
        };
        self.model[self.cur_row].line[self.cur_col] = cell;
        if self.cur_col + 1 < self.columns {
            self.cur_col += 1;
        }
        assert(self@.cells =~= old(self)@.put(cell).cells);
    }

    /// Resets the columns `left..=right` of row `row` to blank.
    pub fn clear_line(&mut self, row: usize, left: usize, right: usize)
        requires
            old(self).wf(),
            row < old(self).rows,
            left <= right + 1 <= old(self).columns,
        ensures
            final(self).wf(),
            final(self)@ == old(self)@.with_cleared(row as int, left as int, right as int),
            final(self).rows == old(self).rows,
            final(self).columns == old(self).columns,
    {
        self.model[row].clear(left, right);
        assert(self@.cells =~= old(self)@.with_cleared(row as int, left as int, right as int).cells);
    }

    /// Copies the rows `0..=to_row` of this grid, over its whole width, into
    /// `target`, which has at least as many columns and more than `to_row`
    /// rows.
    pub fn copy_rows(&self, target: &mut UiModel, to_row: usize)
        requires
            self.wf(),
            old(target).wf(),
            to_row < self.rows,
            to_row < old(target).rows,
            self.columns <= old(target).columns,
        ensures
            final(target).wf(),
            final(target)@ == old(target)@.with_rows_from(self@, to_row as int),
            final(target).rows == old(target).rows,
            final(target).columns == old(target).columns,
    {
        let mut row_idx: usize = 0;
        assert(target@.cells =~= old(target)@.with_rows_from(self@, -1).cells);
        while row_idx <= to_row
            invariant
                self.wf(),
                old(target).wf(),
                target.wf(),
                row_idx <= to_row + 1,
                to_row < self.rows,
                to_row < target.rows,
                self.columns <= target.columns,
                target.rows == old(target).rows,
                target.columns == old(target).columns,
                target@ == old(target)@.with_rows_from(self@, row_idx - 1),
            decreases to_row + 1 - row_idx,
        {
            let ghost before = target@;
            self.model[row_idx].copy_to(&mut target.model[row_idx], 0, self.columns - 1);
            row_idx += 1;
            proof {
                let after = old(target)@.with_rows_from(self@, row_idx - 1);
                assert forall|r: int| 0 <= r < target@.rows() implies target@.cells[r]
                    == after.cells[r] by {
                    let prior = old(target)@.with_rows_from(self@, row_idx - 2);
                    assert(before.cells[r] == prior.cells[r]);
                    if r != row_idx - 1 {
                        assert(target@.cells[r] == before.cells[r]);
                    } else {
                        assert(self@.cells[r] == self.model@[r]@);
                    }
                }
                assert(target@.cells =~= after.cells);
            }
        }
    }
}

} // verus!
