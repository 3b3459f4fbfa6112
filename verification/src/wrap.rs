//! How logical lines fall onto rows of a fixed width.
//!
//! A logical line is the sequence of its styled characters. A batch is a
//! sequence of logical lines. Written at width `columns`, character `p` of a
//! line that starts in row `start` lands in row `start + p / columns`, column
//! `p % columns`, and the next line starts in the row below the last one
//! that this line reached.

use vstd::prelude::*;
use vstd::arithmetic::div_mod::{
    lemma_div_is_ordered,
    lemma_fundamental_div_mod,
    lemma_fundamental_div_mod_converse,
    lemma_mod_bound,
};
use crate::cell::{Attrs, Cell};

verus! {

/// The cells of one span: each of its characters with the span's attributes.
pub open spec fn span_cells(span: (Option<Attrs>, Vec<char>)) -> Seq<Cell> {
    Seq::new(span.1@.len(), |k: int| Cell::styled(span.1@[k], span.0))
}

/// The cells of a logical line: those of its spans, one after the other.
pub open spec fn line_cells(spans: Seq<(Option<Attrs>, Vec<char>)>) -> Seq<Cell>
    decreases spans.len(),
{
    if spans.len() == 0 {
        Seq::empty()
    } else {
        line_cells(spans.drop_last()) + span_cells(spans.last())
    }
}

/// The batch that a vector of lines stands for.
pub open spec fn batch_cells(lines: Seq<Vec<(Option<Attrs>, Vec<char>)>>) -> Seq<Seq<Cell>> {
    Seq::new(lines.len(), |i: int| line_cells(lines[i]@))
}

/// The rows that the estimator counts for a line of `len` characters: one,
/// and one more for every full `columns + 1` characters.
pub open spec fn line_rows_estimated(len: int, columns: int) -> int {
    len / (columns + 1) + 1
}

/// The rows that a line of `len` characters runs through when it is
/// written: one for an empty line, else as many as `len` characters need at
/// `columns` to the row.
pub open spec fn line_rows_written(len: int, columns: int) -> int {
    if len <= 0 {
        1
    } else {
        (len - 1) / columns + 1
    }
}

/// The widest row of a written line of `len` characters.
pub open spec fn line_width(len: int, columns: int) -> int {
    if len < columns {
        len
    } else {
        columns
    }
}

/// The estimator's row count for a batch.
pub open spec fn rows_estimated(batch: Seq<Seq<Cell>>, columns: int) -> int
    decreases batch.len(),
{
    if batch.len() == 0 {
        0
    } else {
        rows_estimated(batch.drop_last(), columns) + line_rows_estimated(
            batch.last().len() as int,
            columns,
        )
    }
}

/// The rows that writing a batch runs through.
pub open spec fn rows_written(batch: Seq<Seq<Cell>>, columns: int) -> int
    decreases batch.len(),
{
    if batch.len() == 0 {
        0
    } else {
        rows_written(batch.drop_last(), columns) + line_rows_written(
            batch.last().len() as int,
            columns,
        )
    }
}

/// The widest row of a written batch; 0 for a batch without characters.
pub open spec fn batch_width(batch: Seq<Seq<Cell>>, columns: int) -> int
    decreases batch.len(),
{
    if batch.len() == 0 {
        0
    } else {
        let rest = batch_width(batch.drop_last(), columns);
        let last = line_width(batch.last().len() as int, columns);
        if rest < last {
            last
        } else {
            rest
        }
    }
}

/// The width that a layout call reports for a batch: its widest row, and at
/// least one column.
pub open spec fn batch_extent(batch: Seq<Seq<Cell>>, columns: int) -> int {
    if batch_width(batch, columns) < 1 {
        1
    } else {
        batch_width(batch, columns)
    }
}

/// Row `a` of a written line: the characters `a * columns ..` of the line,
/// then blanks to the end of the row.
pub open spec fn line_row(chars: Seq<Cell>, a: int, columns: int) -> Seq<Cell> {
    Seq::new(
        columns as nat,
        |c: int|
            if a * columns + c < chars.len() {
                chars[a * columns + c]
            } else {
                Cell::blank()
            },
    )
}

/// `cells` after a line was written from row `start` on: the rows that the
/// line runs through hold the line, every other row is as before.
pub open spec fn write_line(
    cells: Seq<Seq<Cell>>,
    start: int,
    chars: Seq<Cell>,
    columns: int,
) -> Seq<Seq<Cell>> {
    Seq::new(
        cells.len(),
        |r: int|
            if start <= r < start + line_rows_written(chars.len() as int, columns) {
                line_row(chars, r - start, columns)
            } else {
                cells[r]
            },
    )
}

/// `cells` after a batch was written from row `offset` on, each line
/// starting in the row below the last row of the line before it.
pub open spec fn write_lines(
    cells: Seq<Seq<Cell>>,
    offset: int,
    batch: Seq<Seq<Cell>>,
    columns: int,
) -> Seq<Seq<Cell>>
    decreases batch.len(),
{
    if batch.len() == 0 {
        cells
    } else {
        write_line(
            write_lines(cells, offset, batch.drop_last(), columns),
            offset + rows_written(batch.drop_last(), columns),
            batch.last(),
            columns,
        )
    }
}

/// Where the cursor stands after a line of `len > 0` characters was written
/// from row `start` on: behind the last character, or on it where that
/// stands in the last column.
pub open spec fn cursor_after_line(start: int, len: int, columns: int) -> (nat, nat) {
    let last = len - 1;
    (
        (start + last / columns) as nat,
        if last % columns + 1 < columns {
            (last % columns + 1) as nat
        } else {
            (columns - 1) as nat
        },
    )
}

/// Where the cursor stands after a batch was written from row `offset` on:
/// where the last line with a character left it, and at `cursor` if the
/// batch has no character.
pub open spec fn cursor_after(
    cursor: (nat, nat),
    offset: int,
    batch: Seq<Seq<Cell>>,
    columns: int,
) -> (nat, nat)
    decreases batch.len(),
{
    if batch.len() == 0 {
        cursor
    } else if batch.last().len() == 0 {
        cursor_after(cursor, offset, batch.drop_last(), columns)
    } else {
        cursor_after_line(
            offset + rows_written(batch.drop_last(), columns),
            batch.last().len() as int,
            columns,
        )
    }
}

/// The estimator and the writer agree on a line of `len` characters: the
/// line is empty, or the number of its full rows is at most one more than
/// what stands in the row after them.
pub open spec fn line_estimate_exact(len: int, columns: int) -> bool {
    len <= 0 || (len - 1) / columns <= (len - 1) % columns + 1
}

/// The estimator and the writer agree on every line of the batch.
pub open spec fn batch_estimate_exact(batch: Seq<Seq<Cell>>, columns: int) -> bool {
    forall|i: int|
        0 <= i < batch.len() ==> line_estimate_exact((#[trigger] batch[i]).len() as int, columns)
}

/// The position `p = q * columns + c` of a line lies in row `q`, column `c`.
pub proof fn lemma_position(p: int, columns: int, q: int, c: int)
    requires
        columns > 0,
        0 <= c < columns,
        p == q * columns + c,
    ensures
        p / columns == q,
        p % columns == c,
{
    lemma_fundamental_div_mod_converse(p, columns, q, c);
}

/// Two cells of a row-major grid with the same position are the same cell.
pub proof fn lemma_position_unique(columns: int, q1: int, c1: int, q2: int, c2: int)
    requires
        columns > 0,
        0 <= c1 < columns,
        0 <= c2 < columns,
        q1 * columns + c1 == q2 * columns + c2,
    ensures
        q1 == q2,
        c1 == c2,
{
    lemma_position(q1 * columns + c1, columns, q1, c1);
    lemma_position(q1 * columns + c1, columns, q2, c2);
}

/// A written line of `len` characters fits in its rows, and needs them all.
pub proof fn lemma_line_rows_written_bounds(len: int, columns: int)
    requires
        len >= 0,
        columns > 0,
    ensures
        line_rows_written(len, columns) >= 1,
        len <= line_rows_written(len, columns) * columns,
        len > 0 ==> (line_rows_written(len, columns) - 1) * columns < len,
{
    if len > 0 {
        let q = (len - 1) / columns;
        let r = (len - 1) % columns;
        lemma_fundamental_div_mod(len - 1, columns);
        lemma_mod_bound(len - 1, columns);
        lemma_div_is_ordered(0, len - 1, columns);
        assert(0int / columns == 0) by (nonlinear_arith)
            requires
                columns > 0,
        ;
        assert((q + 1) * columns == columns * q + columns) by (nonlinear_arith);
        assert((q + 1 - 1) * columns == columns * q) by (nonlinear_arith);
    } else {
        assert(1 * columns == columns) by (nonlinear_arith);
    }
}

/// The estimator never counts more rows for a line than are written, and
/// counts as many exactly on the lines described by `line_estimate_exact`.
pub proof fn lemma_line_estimate(len: int, columns: int)
    requires
        len >= 0,
        columns > 0,
    ensures
        1 <= line_rows_estimated(len, columns) <= line_rows_written(len, columns),
        line_rows_estimated(len, columns) == line_rows_written(len, columns)
            <==> line_estimate_exact(len, columns),
{
    if len == 0 {
        assert(0int / (columns + 1) == 0) by (nonlinear_arith)
            requires
                columns > 0,
        ;
    } else {
        let a = (len - 1) / columns;
        let b = (len - 1) % columns;
        lemma_fundamental_div_mod(len - 1, columns);
        lemma_mod_bound(len - 1, columns);
        lemma_div_is_ordered(0, len - 1, columns);
        assert(0int / columns == 0) by (nonlinear_arith)
            requires
                columns > 0,
        ;
        let e = len / (columns + 1);
        let f = len % (columns + 1);
        lemma_fundamental_div_mod(len, columns + 1);
        lemma_mod_bound(len, columns + 1);
        lemma_div_is_ordered(0, len, columns + 1);
        assert(0int / (columns + 1) == 0) by (nonlinear_arith)
            requires
                columns > 0,
        ;
        // len == a * columns + b + 1 == e * (columns + 1) + f
        assert(e <= a) by (nonlinear_arith)
            requires
                len == columns * a + b + 1,
                len == (columns + 1) * e + f,
                0 <= b < columns,
                0 <= f <= columns,
                0 <= a,
                0 <= e,
                columns > 0,
        ;
        if a <= b + 1 {
            assert(len == a * (columns + 1) + (b + 1 - a)) by (nonlinear_arith)
                requires
                    len == columns * a + b + 1,
            ;
            lemma_fundamental_div_mod_converse(len, columns + 1, a, b + 1 - a);
        } else {
            assert(e != a) by (nonlinear_arith)
                requires
                    len == columns * a + b + 1,
                    len == (columns + 1) * e + f,
                    0 <= f,
                    a > b + 1,
            ;
        }
    }
}

/// The cells of the first `j + 1` spans are those of the first `j` spans,
/// then those of span `j`.
pub proof fn lemma_line_cells_step(spans: Seq<(Option<Attrs>, Vec<char>)>, j: int)
    requires
        0 <= j < spans.len(),
    ensures
        line_cells(spans.take(j + 1)) == line_cells(spans.take(j)) + span_cells(spans[j]),
{
    assert(spans.take(j + 1).drop_last() =~= spans.take(j));
}

/// The cells of the first `j` spans are the first cells of the line.
pub proof fn lemma_line_cells_prefix(spans: Seq<(Option<Attrs>, Vec<char>)>, j: int)
    requires
        0 <= j <= spans.len(),
    ensures
        line_cells(spans.take(j)).len() <= line_cells(spans).len(),
        line_cells(spans.take(j)) == line_cells(spans).take(line_cells(spans.take(j)).len() as int),
    decreases spans.len(),
{
    if j == spans.len() {
        assert(spans.take(j) =~= spans);
        assert(line_cells(spans) =~= line_cells(spans).take(line_cells(spans).len() as int));
    } else {
        let front = spans.drop_last();
        lemma_line_cells_prefix(front, j);
        assert(front.take(j) =~= spans.take(j));
        let n = line_cells(spans.take(j)).len() as int;
        assert(line_cells(front).take(n) =~= line_cells(spans).take(n));
    }
}

/// Character `k` of span `j` is the cell of the line that stands behind
/// the cells of the first `j` spans and `k` more.
pub proof fn lemma_line_cells_index(spans: Seq<(Option<Attrs>, Vec<char>)>, j: int, k: int)
    requires
        0 <= j < spans.len(),
        0 <= k < spans[j].1@.len(),
    ensures
        line_cells(spans.take(j)).len() + k < line_cells(spans).len(),
        line_cells(spans)[line_cells(spans.take(j)).len() + k] == Cell::styled(
            spans[j].1@[k],
            spans[j].0,
        ),
{
    lemma_line_cells_step(spans, j);
    lemma_line_cells_prefix(spans, j + 1);
    let m = line_cells(spans.take(j)).len() + k;
    let upto = line_cells(spans.take(j + 1));
    assert(upto[m] == span_cells(spans[j])[k]);
    assert(line_cells(spans).take(upto.len() as int)[m] == line_cells(spans)[m]);
}

/// What the functions on batches say of the first `i + 1` lines, from what
/// they say of the first `i`.
pub proof fn lemma_batch_step(batch: Seq<Seq<Cell>>, i: int, columns: int)
    requires
        0 <= i < batch.len(),
    ensures
        rows_estimated(batch.take(i + 1), columns) == rows_estimated(batch.take(i), columns)
            + line_rows_estimated(batch[i].len() as int, columns),
        rows_written(batch.take(i + 1), columns) == rows_written(batch.take(i), columns)
            + line_rows_written(batch[i].len() as int, columns),
        batch_width(batch.take(i + 1), columns) == if batch_width(batch.take(i), columns)
            < line_width(batch[i].len() as int, columns) {
            line_width(batch[i].len() as int, columns)
        } else {
            batch_width(batch.take(i), columns)
        },
{
    assert(batch.take(i + 1).drop_last() =~= batch.take(i));
}

/// The grid and the cursor after the first `i + 1` lines, from what they are
/// after the first `i`.
pub proof fn lemma_write_step(
    cells: Seq<Seq<Cell>>,
    cursor: (nat, nat),
    offset: int,
    batch: Seq<Seq<Cell>>,
    i: int,
    columns: int,
)
    requires
        0 <= i < batch.len(),
    ensures
        write_lines(cells, offset, batch.take(i + 1), columns) == write_line(
            write_lines(cells, offset, batch.take(i), columns),
            offset + rows_written(batch.take(i), columns),
            batch[i],
            columns,
        ),
        cursor_after(cursor, offset, batch.take(i + 1), columns) == if batch[i].len() == 0 {
            cursor_after(cursor, offset, batch.take(i), columns)
        } else {
            cursor_after_line(
                offset + rows_written(batch.take(i), columns),
                batch[i].len() as int,
                columns,
            )
        },
{
    assert(batch.take(i + 1).drop_last() =~= batch.take(i));
}

/// Every line takes at least one row: the first `i` lines of a batch leave
/// at least one row of what the batch runs through to each line after them.
pub proof fn lemma_rows_written_prefix(batch: Seq<Seq<Cell>>, i: int, columns: int)
    requires
        0 <= i <= batch.len(),
        columns > 0,
    ensures
        i <= rows_written(batch.take(i), columns),
        rows_written(batch.take(i), columns) + (batch.len() - i) <= rows_written(batch, columns),
    decreases batch.len(),
{
    if batch.len() == 0 {
        assert(batch.take(i) =~= batch);
    } else {
        let front = batch.drop_last();
        lemma_line_rows_written_bounds(batch.last().len() as int, columns);
        if i == batch.len() {
            assert(batch.take(i) =~= batch);
            lemma_rows_written_prefix(front, i - 1, columns);
            assert(front.take(i - 1) =~= front);
        } else {
            lemma_rows_written_prefix(front, i, columns);
            assert(front.take(i) =~= batch.take(i));
        }
    }
}

/// The estimator counts at least one row for each line and never more rows
/// than are written; it counts as many where it is exact on every line.
pub proof fn lemma_batch_estimate(batch: Seq<Seq<Cell>>, columns: int)
    requires
        columns > 0,
    ensures
        batch.len() <= rows_estimated(batch, columns) <= rows_written(batch, columns),
        batch_estimate_exact(batch, columns) ==> rows_estimated(batch, columns) == rows_written(
            batch,
            columns,
        ),
    decreases batch.len(),
{
    if batch.len() > 0 {
        let front = batch.drop_last();
        lemma_batch_estimate(front, columns);
        lemma_line_estimate(batch.last().len() as int, columns);
        if batch_estimate_exact(batch, columns) {
            assert(line_estimate_exact(batch[batch.len() - 1].len() as int, columns));
            assert forall|i: int| 0 <= i < front.len() implies line_estimate_exact(
                (#[trigger] front[i]).len() as int,
                columns,
            ) by {
                assert(front[i] == batch[i]);
            }
        }
    }
}

/// The widest row of a batch is no wider than the grid.
pub proof fn lemma_batch_width_bounds(batch: Seq<Seq<Cell>>, columns: int)
    requires
        columns > 0,
    ensures
        0 <= batch_width(batch, columns) <= columns,
        1 <= batch_extent(batch, columns) <= columns,
    decreases batch.len(),
{
    if batch.len() > 0 {
        lemma_batch_width_bounds(batch.drop_last(), columns);
    }
}

/// The rows that the estimator counts for the first `i` lines of a batch
/// are among those that it counts for the batch.
pub proof fn lemma_rows_estimated_prefix(batch: Seq<Seq<Cell>>, i: int, columns: int)
    requires
        0 <= i <= batch.len(),
        columns >= 0,
    ensures
        0 <= rows_estimated(batch.take(i), columns) <= rows_estimated(batch, columns),
    decreases batch.len(),
{
    if batch.len() == 0 {
        assert(batch.take(i) =~= batch);
    } else {
        let front = batch.drop_last();
        let len = batch.last().len() as int;
        assert(0 <= len / (columns + 1)) by (nonlinear_arith)
            requires
                len >= 0,
                columns >= 0,
        ;
        if i == batch.len() {
            assert(batch.take(i) =~= batch);
            lemma_rows_estimated_prefix(front, i - 1, columns);
        } else {
            lemma_rows_estimated_prefix(front, i, columns);
            assert(front.take(i) =~= batch.take(i));
        }
    }
}

/// Every row of `cells` has `columns` cells.
pub open spec fn rows_of_width(cells: Seq<Seq<Cell>>, columns: int) -> bool {
    forall|r: int| 0 <= r < cells.len() ==> (#[trigger] cells[r]).len() == columns
}

/// `cells` while a line is being written from row `start` on, when its first
/// `count` characters stand in their places.
pub open spec fn write_chars(
    cells: Seq<Seq<Cell>>,
    start: int,
    chars: Seq<Cell>,
    count: int,
    columns: int,
) -> Seq<Seq<Cell>> {
    Seq::new(
        cells.len(),
        |r: int|
            Seq::new(
                cells[r].len(),
                |c: int|
                    if start <= r && c < columns && (r - start) * columns + c < count {
                        chars[(r - start) * columns + c]
                    } else {
                        cells[r][c]
                    },
            ),
    )
}

/// Before the first character of a line is written, the grid is as it was.
pub proof fn lemma_write_chars_none(
    cells: Seq<Seq<Cell>>,
    start: int,
    chars: Seq<Cell>,
    columns: int,
)
    requires
        columns > 0,
    ensures
        write_chars(cells, start, chars, 0, columns) == cells,
{
    let written = write_chars(cells, start, chars, 0, columns);
    assert forall|r: int| 0 <= r < cells.len() implies #[trigger] written[r] == cells[r] by {
        assert forall|c: int| 0 <= c < cells[r].len() implies written[r][c] == cells[r][c] by {
            if start <= r {
                assert(0 <= (r - start) * columns) by (nonlinear_arith)
                    requires
                        start <= r,
                        columns > 0,
                ;
            }
        }
        assert(written[r] =~= cells[r]);
    }
    assert(written =~= cells);
}

/// Writing character `count` of a line into its cell takes the grid from
/// `count` characters in place to `count + 1`.
pub proof fn lemma_write_chars_put(
    cells: Seq<Seq<Cell>>,
    start: int,
    chars: Seq<Cell>,
    count: int,
    columns: int,
    row: int,
    col: int,
)
    requires
        columns > 0,
        rows_of_width(cells, columns),
        0 <= start <= row < cells.len(),
        0 <= col < columns,
        count == (row - start) * columns + col,
        count < chars.len(),
    ensures
        ({
            let so_far = write_chars(cells, start, chars, count, columns);
            so_far.update(row, so_far[row].update(col, chars[count]))
        }) == write_chars(cells, start, chars, count + 1, columns),
{
    let so_far = write_chars(cells, start, chars, count, columns);
    let put = so_far.update(row, so_far[row].update(col, chars[count]));
    let next = write_chars(cells, start, chars, count + 1, columns);
    assert forall|r: int| 0 <= r < cells.len() implies #[trigger] put[r] == next[r] by {
        assert(cells[r].len() == columns);
        assert forall|c: int| 0 <= c < columns implies put[r][c] == next[r][c] by {
            if start <= r && (r - start) * columns + c == count {
                lemma_position_unique(columns, r - start, c, row - start, col);
            }
        }
        assert(put[r] =~= next[r]);
    }
    assert(put =~= next);
}

/// Once all characters of a line stand in their places, with the last one
/// in row `row` and `col` characters in that row, clearing the rest of that
/// row leaves the grid as `write_line` describes it, and the line has run
/// through the rows from `start` to `row`.
pub proof fn lemma_write_chars_all(
    cells: Seq<Seq<Cell>>,
    start: int,
    chars: Seq<Cell>,
    columns: int,
    row: int,
    col: int,
)
    requires
        columns > 0,
        rows_of_width(cells, columns),
        0 <= start <= row < cells.len(),
        0 <= col <= columns,
        chars.len() > 0 ==> col >= 1,
        chars.len() == (row - start) * columns + col,
    ensures
        line_rows_written(chars.len() as int, columns) == row - start + 1,
        chars.len() > 0 ==> cursor_after_line(start, chars.len() as int, columns) == (
            row as nat,
            if col < columns {
                col as nat
            } else {
                (columns - 1) as nat
            },
        ),
        ({
            let all = write_chars(cells, start, chars, chars.len() as int, columns);
            if col < columns {
                all.update(row, crate::line::cleared(all[row], col, columns - 1))
            } else {
                all
            }
        }) == write_line(cells, start, chars, columns),
{
    let n = chars.len() as int;
    let all = write_chars(cells, start, chars, n, columns);
    let done = if col < columns {
        all.update(row, crate::line::cleared(all[row], col, columns - 1))
    } else {
        all
    };
    let line = write_line(cells, start, chars, columns);
    assert(0 <= (row - start) * columns) by (nonlinear_arith)
        requires
            start <= row,
            columns > 0,
    ;
    if n > 0 {
        lemma_position(n - 1, columns, row - start, col - 1);
    } else {
        assert(row == start) by (nonlinear_arith)
            requires
                start <= row,
                columns > 0,
                0 == (row - start) * columns + col,
                0 <= col,
        ;
    }
    assert(line_rows_written(n, columns) == row - start + 1);
    assert forall|r: int| 0 <= r < cells.len() implies #[trigger] done[r] == line[r] by {
        assert(cells[r].len() == columns);
        assert forall|c: int| 0 <= c < columns implies done[r][c] == line[r][c] by {
            if start <= r {
                let p = (r - start) * columns + c;
                if r < row {
                    assert(p < n) by (nonlinear_arith)
                        requires
                            p == (r - start) * columns + c,
                            n == (row - start) * columns + col,
                            r < row,
                            c < columns,
                            0 <= col,
                            columns > 0,
                    ;
                } else if r > row {
                    assert(p >= n) by (nonlinear_arith)
                        requires
                            p == (r - start) * columns + c,
                            n == (row - start) * columns + col,
                            r > row,
                            0 <= c,
                            col <= columns,
                            columns > 0,
                    ;
                }
            }
        }
        assert(done[r] =~= line[r]);
    }
    assert(done =~= line);
}

/// The row in which line `i` of a batch starts when the batch is written
/// from row `offset` on.
pub open spec fn line_start(offset: int, batch: Seq<Seq<Cell>>, i: int, columns: int) -> int {
    offset + rows_written(batch.take(i), columns)
}

/// The number of characters in the last row of the last line of the batch
/// that has a character; 0 for a batch without characters.
pub open spec fn trailing_extent(batch: Seq<Seq<Cell>>, columns: int) -> int
    decreases batch.len(),
{
    if batch.len() == 0 {
        0
    } else if batch.last().len() == 0 {
        trailing_extent(batch.drop_last(), columns)
    } else {
        (batch.last().len() - 1) % columns + 1
    }
}

/// Every line starts in a row of its own, below all rows of the lines
/// before it: line `j` starts at or below the row behind the last row of any
/// earlier line `i`, however short that line is.
pub proof fn lemma_lines_start_fresh_rows(
    offset: int,
    batch: Seq<Seq<Cell>>,
    i: int,
    j: int,
    columns: int,
)
    requires
        columns > 0,
        0 <= i < j < batch.len(),
    ensures
        line_rows_written(batch[i].len() as int, columns) >= 1,
        line_start(offset, batch, i, columns) + line_rows_written(batch[i].len() as int, columns)
            <= line_start(offset, batch, j, columns),
        line_start(offset, batch, j, columns) + line_rows_written(batch[j].len() as int, columns)
            <= offset + rows_written(batch, columns),
{
    let upto = batch.take(j);
    lemma_rows_written_prefix(upto, i + 1, columns);
    assert(upto.take(i + 1) =~= batch.take(i + 1));
    lemma_batch_step(batch, i, columns);
    lemma_line_rows_written_bounds(batch[i].len() as int, columns);
    lemma_batch_step(batch, j, columns);
    lemma_rows_written_prefix(batch, j + 1, columns);
}

/// Writing a batch keeps the number of rows and their width.
pub proof fn lemma_write_lines_shape(
    cells: Seq<Seq<Cell>>,
    offset: int,
    batch: Seq<Seq<Cell>>,
    columns: int,
)
    requires
        columns > 0,
        rows_of_width(cells, columns),
    ensures
        write_lines(cells, offset, batch, columns).len() == cells.len(),
        rows_of_width(write_lines(cells, offset, batch, columns), columns),
    decreases batch.len(),
{
    if batch.len() > 0 {
        lemma_write_lines_shape(cells, offset, batch.drop_last(), columns);
    }
}

/// Writing a batch from row `offset` on leaves every row above `offset`,
/// and every row below the rows that the batch runs through, as it was.
pub proof fn lemma_write_lines_outside(
    cells: Seq<Seq<Cell>>,
    offset: int,
    batch: Seq<Seq<Cell>>,
    columns: int,
    r: int,
)
    requires
        columns > 0,
        0 <= r < cells.len(),
        r < offset || r >= offset + rows_written(batch, columns),
    ensures
        write_lines(cells, offset, batch, columns)[r] == cells[r],
    decreases batch.len(),
{
    if batch.len() > 0 {
        let front = batch.drop_last();
        lemma_line_rows_written_bounds(batch.last().len() as int, columns);
        lemma_rows_written_prefix(front, front.len() as int, columns);
        assert(front.take(front.len() as int) =~= front);
        lemma_write_lines_outside(cells, offset, front, columns, r);
        lemma_write_lines_len(cells, offset, front, columns);
    }
}

/// Writing a batch keeps the number of rows.
pub proof fn lemma_write_lines_len(
    cells: Seq<Seq<Cell>>,
    offset: int,
    batch: Seq<Seq<Cell>>,
    columns: int,
)
    ensures
        write_lines(cells, offset, batch, columns).len() == cells.len(),
    decreases batch.len(),
{
    if batch.len() > 0 {
        lemma_write_lines_len(cells, offset, batch.drop_last(), columns);
    }
}

/// After a batch was written, row `a` of line `i` stands in the row `a`
/// below the row in which the line starts: its characters from column 0 on,
/// then blanks.
pub proof fn lemma_write_lines_row(
    cells: Seq<Seq<Cell>>,
    offset: int,
    batch: Seq<Seq<Cell>>,
    columns: int,
    i: int,
    a: int,
)
    requires
        columns > 0,
        0 <= offset,
        0 <= i < batch.len(),
        0 <= a < line_rows_written(batch[i].len() as int, columns),
        line_start(offset, batch, i, columns) + a < cells.len(),
    ensures
        write_lines(cells, offset, batch, columns)[line_start(offset, batch, i, columns) + a]
            == line_row(batch[i], a, columns),
    decreases batch.len(),
{
    let front = batch.drop_last();
    let row = line_start(offset, batch, i, columns) + a;
    lemma_write_lines_len(cells, offset, front, columns);
    lemma_rows_written_prefix(batch, i, columns);
    if i == batch.len() - 1 {
        assert(batch.take(i) =~= front);
    } else {
        assert(front.take(i) =~= batch.take(i));
        assert(front.take(i + 1) =~= batch.take(i + 1));
        lemma_write_lines_row(cells, offset, front, columns, i, a);
        lemma_batch_step(front, i, columns);
        lemma_rows_written_prefix(front, i + 1, columns);
    }
}

/// Where the cursor stands after a batch with a character was written: in a
/// row that the batch ran through, in the column behind the last character,
/// or on it where that stands in the last column. A batch without
/// characters leaves the cursor where it was.
pub proof fn lemma_cursor_after(
    cursor: (nat, nat),
    offset: int,
    batch: Seq<Seq<Cell>>,
    columns: int,
)
    requires
        columns > 0,
        0 <= offset,
    ensures
        0 <= trailing_extent(batch, columns) <= batch_width(batch, columns),
        trailing_extent(batch, columns) == 0 ==> cursor_after(cursor, offset, batch, columns)
            == cursor,
        trailing_extent(batch, columns) > 0 ==> ({
            let after = cursor_after(cursor, offset, batch, columns);
            &&& offset <= after.0 < offset + rows_written(batch, columns)
            &&& after.1 == if trailing_extent(batch, columns) < columns {
                trailing_extent(batch, columns)
            } else {
                columns - 1
            }
        }),
    decreases batch.len(),
{
    if batch.len() > 0 {
        let front = batch.drop_last();
        let len = batch.last().len() as int;
        lemma_cursor_after(cursor, offset, front, columns);
        lemma_batch_width_bounds(front, columns);
        lemma_line_rows_written_bounds(len, columns);
        lemma_rows_written_prefix(front, front.len() as int, columns);
        assert(front.take(front.len() as int) =~= front);
        if len > 0 {
            lemma_mod_bound(len - 1, columns);
            lemma_fundamental_div_mod(len - 1, columns);
            lemma_div_is_ordered(0, len - 1, columns);
            assert(0int / columns == 0) by (nonlinear_arith)
                requires
                    columns > 0,
            ;
            let q = (len - 1) / columns;
            assert(columns * q >= 0) by (nonlinear_arith)
                requires
                    columns > 0,
                    q >= 0,
            ;
        }
    }
}

} // verus!
