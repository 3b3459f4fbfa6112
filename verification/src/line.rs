//! One row of the grid.

use vstd::prelude::*;
use crate::cell::Cell;

verus! {

/// The row of `columns` blank cells.
pub open spec fn blank_row(columns: nat) -> Seq<Cell> {
    Seq::new(columns, |c: int| Cell::blank())
}

/// `row` with the columns `left..=right` reset to blank.
pub open spec fn cleared(row: Seq<Cell>, left: int, right: int) -> Seq<Cell> {
    Seq::new(row.len(), |c: int| if left <= c <= right { Cell::blank() } else { row[c] })
}

/// `target` with the columns `left..=right` taken from `source`.
pub open spec fn overlaid(target: Seq<Cell>, source: Seq<Cell>, left: int, right: int) -> Seq<Cell> {
    Seq::new(target.len(), |c: int| if left <= c <= right { source[c] } else { target[c] })
}

/// A row of cells. Its length is fixed when it is made.
pub struct Line {
    pub line: Vec<Cell>,
}

impl View for Line {
    type V = Seq<Cell>;

    open spec fn view(&self) -> Seq<Cell> {
        self.line@
    }
}

impl Line {
    /// A row of `columns` blank cells.
    pub fn new(columns: usize) -> (line: Line)
        ensures
            line@ == blank_row(columns as nat),
    {
        let mut line: Vec<Cell> = Vec::new();
        let mut i: usize = 0;
        while i < columns
            invariant
                i <= columns,
                line@ == blank_row(i as nat),
            decreases columns - i,
        {
            line.push(Cell::new_empty());
            i += 1;
        }
        Line { line }
    }

    /// Resets the columns `left..=right` to blank.
    pub fn clear(&mut self, left: usize, right: usize)
        requires
            left <= right + 1 <= old(self)@.len(),
        ensures
            final(self)@ == cleared(old(self)@, left as int, right as int),
    {
        let mut c: usize = left;
        while c <= right
            invariant
                left <= c <= right + 1 <= self.line.len(),
                self@.len() == old(self)@.len(),
                self@ == cleared(old(self)@, left as int, c - 1),
            decreases right + 1 - c,
        {
            self.line[c].clear();
            c += 1;
        }
    }

    /// Copies the columns `left..=right` of this row into `target`.
    pub fn copy_to(&self, target: &mut Line, left: usize, right: usize)
        requires
            left <= right + 1 <= self@.len(),
            right + 1 <= old(target)@.len(),
        ensures
            final(target)@ == overlaid(old(target)@, self@, left as int, right as int),
    {
        let mut c: usize = left;
        while c <= right
            invariant
                left <= c <= right + 1 <= self.line.len(),
                right + 1 <= target.line.len(),
                target@.len() == old(target)@.len(),
                target@ == overlaid(old(target)@, self@, left as int, c - 1),
            decreases right + 1 - c,
        {
            target.line[c] = self.line[c];
            c += 1;
        }
    }
}

} // verus!
