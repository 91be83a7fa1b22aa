//! Span visibility: which cells are rendered given the spans of a row, and
//! the repair passes that run after all mutations and before width
//! resolution — zeroing the span of covered cells, promoting a later
//! visible cell into an invisible first column, and widening the last
//! visible cell before an absorbed cell.

use vstd::prelude::*;

use crate::text::capped_add;
use crate::types::Style;

verus! {

/// Whether an earlier cell of the row spans over column `col`.
pub open spec fn overridden(row: Seq<Style>, col: int) -> bool {
    exists|i: int| 0 <= i < col && row[i].span > col - i
}

/// Whether the cell at `col` is rendered: its own span is not zero and no
/// earlier cell spans over it.
pub open spec fn visible(row: Seq<Style>, col: int) -> bool {
    row[col].span != 0 && !overridden(row, col)
}

/// Whether the span of the cell at `col` stays inside a range ending at
/// `end`.
pub open spec fn in_scope(row: Seq<Style>, col: int, end: int) -> bool {
    col + row[col].span <= end
}

/// Whether an earlier cell of the row spans over column `col`.
pub fn is_cell_overriden(row_styles: &Vec<Style>, column: usize) -> (r: bool)
    requires
        column <= row_styles@.len(),
    ensures
        r == overridden(row_styles@, column as int),
{
    let mut i: usize = 0;
    while i < column
        invariant
            i <= column,
            column <= row_styles@.len(),
            forall|j: int| 0 <= j < i ==> !(row_styles@[j].span > column - j),
        decreases column - i,
    {
        if row_styles[i].span > column - i {
            return true;
        }
        i = i + 1;
    }
    false
}

/// Whether the cell at `column` is rendered.
pub fn is_cell_visible(row_styles: &Vec<Style>, column: usize) -> (r: bool)
    requires
        column < row_styles@.len(),
    ensures
        r == visible(row_styles@, column as int),
{
    if row_styles[column].span == 0 {
        return false;
    }
    !is_cell_overriden(row_styles, column)
}

/// Whether the row's span layout does not fit a direct width comparison
/// over `[start, end)`: its first cell in range is not rendered, or some
/// rendered cell's span runs past the end of the range.
pub open spec fn out_of_scope_row(row: Seq<Style>, start: int, end: int) -> bool {
    !visible(row, start) || exists|c: int|
        start <= c < end && visible(row, c) && !in_scope(row, c, end)
}

/// Whether the row's span layout does not fit a direct width comparison
/// over `[start, end)`.
pub fn is_there_out_of_scope_cell(row_styles: &Vec<Style>, start: usize, end: usize) -> (r: bool)
    requires
        start < row_styles@.len(),
        start <= end,
        end <= row_styles@.len(),
    ensures
        r == out_of_scope_row(row_styles@, start as int, end as int),
{
    if !is_cell_visible(row_styles, start) {
        return true;
    }
    let mut c: usize = start;
    while c < end
        invariant
            start <= c <= end,
            end <= row_styles@.len(),
            forall|j: int|
                start <= j < c ==> !(visible(row_styles@, j) && !in_scope(row_styles@, j, end as int)),
        decreases end - c,
    {
        if is_cell_visible(row_styles, c) && row_styles[c].span > end - c {
            return true;
        }
        c = c + 1;
    }
    false
}

/// A style equal to `st` except for its span.
pub open spec fn with_span(st: Style, span: int) -> Style {
    Style { span: span as usize, ..st }
}

/// The row after the first `i` cells were checked in order and every cell
/// found covered by an earlier span got its own span set to zero.
pub open spec fn fix_invisible_upto(row: Seq<Style>, i: int) -> Seq<Style>
    decreases i,
{
    if i <= 0 {
        row
    } else {
        let prev = fix_invisible_upto(row, i - 1);
        if visible(prev, i - 1) || i - 1 >= row.len() {
            prev
        } else {
            prev.update(i - 1, with_span(prev[i - 1], 0))
        }
    }
}

/// The row with the span of every covered cell set to zero, checking the
/// cells in order.
pub open spec fn fix_invisible(row: Seq<Style>) -> Seq<Style> {
    fix_invisible_upto(row, row.len() as int)
}

proof fn lemma_fix_invisible_len(row: Seq<Style>, i: int)
    ensures
        fix_invisible_upto(row, i).len() == row.len(),
    decreases i,
{
    if i > 0 {
        lemma_fix_invisible_len(row, i - 1);
    }
}

/// Zero the span of every cell covered by an earlier span, in order.
pub fn fix_invisible_cells(row_styles: &mut Vec<Style>)
    ensures
        final(row_styles)@ == fix_invisible(old(row_styles)@),
{
    let n = row_styles.len();
    let mut i: usize = 0;
    while i < n
        invariant
            i <= n,
            n == old(row_styles)@.len(),
            row_styles@.len() == n,
            row_styles@ == fix_invisible_upto(old(row_styles)@, i as int),
        decreases n - i,
    {
        proof {
            lemma_fix_invisible_len(old(row_styles)@, i as int);
        }
        if !is_cell_visible(row_styles, i) {
            let mut st = row_styles[i];
            st.span = 0;
            row_styles[i] = st;
        }
        i = i + 1;
    }
    proof {
        lemma_fix_invisible_len(old(row_styles)@, n as int);
    }
}

/// The least position at or after `from` whose span is not zero, or -1.
pub open spec fn first_visible_pos(row: Seq<Style>, from: int) -> int
    decreases row.len() - from,
{
    if from < 0 || from >= row.len() {
        -1
    } else if row[from].span > 0 {
        from
    } else {
        first_visible_pos(row, from + 1)
    }
}

/// The greatest position before `before` whose span is not zero, or -1.
pub open spec fn last_visible_pos(row: Seq<Style>, before: int) -> int
    decreases before,
{
    if before <= 0 {
        -1
    } else if row[before - 1].span > 0 {
        before - 1
    } else {
        last_visible_pos(row, before - 1)
    }
}

/// First-column repair on the styles of one row: if column 0 is absorbed
/// (span 0) but a later cell at `i` is not, that cell's span grows by `i`
/// and the two positions are swapped. The condition and target position.
pub open spec fn first_fix_pos(row: Seq<Style>) -> int {
    if row.len() == 0 || row[0].span != 0 {
        -1
    } else {
        first_visible_pos(row, 1)
    }
}

/// The styles of a row after the first-column repair.
pub open spec fn fix_first_styles(row: Seq<Style>) -> Seq<Style> {
    let i = first_fix_pos(row);
    if i < 0 {
        row
    } else {
        let bumped = row.update(i, with_span(row[i], capped_add(row[i].span as int, i)));
        bumped.update(0, bumped[i]).update(i, bumped[0])
    }
}

/// The cell contents of a row after the same swap as
/// [`fix_first_styles`].
pub open spec fn fix_first_cells<T>(row: Seq<Style>, cells: Seq<T>) -> Seq<T> {
    let i = first_fix_pos(row);
    if i < 0 || i >= cells.len() || cells.len() == 0 {
        cells
    } else {
        cells.update(0, cells[i]).update(i, cells[0])
    }
}

proof fn lemma_first_visible_range(row: Seq<Style>, from: int)
    requires
        0 <= from,
    ensures
        first_visible_pos(row, from) == -1 || (from <= first_visible_pos(row, from) < row.len()
            && row[first_visible_pos(row, from)].span > 0),
        first_visible_pos(row, from) == -1 ==> forall|j: int|
            from <= j < row.len() ==> row[j].span == 0,
    decreases row.len() - from,
{
    if from < row.len() && row[from].span == 0 {
        lemma_first_visible_range(row, from + 1);
    }
}

/// Apply the first-column repair to one row's styles and cell contents.
#[verifier::loop_isolation(false)]
pub fn fix_first_column_span(row_styles: &mut Vec<Style>, cells: &mut Vec<Vec<String>>)
    requires
        old(row_styles)@.len() > 0,
        old(cells)@.len() == old(row_styles)@.len(),
    ensures
        final(row_styles)@ == fix_first_styles(old(row_styles)@),
        final(cells)@ == fix_first_cells(old(row_styles)@, old(cells)@),
{
    if row_styles[0].span != 0 {
        return ;
    }
    let n = row_styles.len();
    let mut i: usize = 1;
    while i < n
        invariant
            1 <= i <= n,
            n == row_styles@.len(),
            row_styles@ == old(row_styles)@,
            cells@ == old(cells)@,
            cells@.len() == n,
            first_visible_pos(row_styles@, 1) == first_visible_pos(row_styles@, i as int),
            forall|j: int| 1 <= j < i ==> row_styles@[j].span == 0,
        decreases n - i,
    {
        if row_styles[i].span > 0 {
            proof {
                lemma_first_visible_range(row_styles@, i as int);
                assert(first_visible_pos(row_styles@, i as int) == i as int);
            }
            let mut st = row_styles[i];
            st.span = crate::text::add_capped(st.span, i);
            row_styles[i] = st;
            let tmp0 = row_styles[0];
            let tmpi = row_styles[i];
            row_styles[0] = tmpi;
            row_styles[i] = tmp0;
            let ci = cells.remove(i);
            let c0 = cells.remove(0);
            cells.insert(0, ci);
            cells.insert(i, c0);
            proof {
                assert(row_styles@ =~= fix_first_styles(old(row_styles)@));
                assert(cells@ =~= fix_first_cells(old(row_styles)@, old(cells)@));
            }
            return ;
        }
        i = i + 1;
    }
    proof {
        assert(first_visible_pos(old(row_styles)@, n as int) == -1);
        assert(first_fix_pos(old(row_styles)@) == -1);
    }
}

/// The row after the first `i` cells were checked in order and, before
/// every absorbed cell that is not covered by an earlier span, the last
/// cell with a nonzero span was widened to reach it.
pub open spec fn fix_zero_upto(row: Seq<Style>, i: int) -> Seq<Style>
    decreases i,
{
    if i <= 0 {
        row
    } else {
        let prev = fix_zero_upto(row, i - 1);
        if i - 1 >= prev.len() || prev[i - 1].span > 0 || overridden(prev, i - 1) {
            prev
        } else {
            let pos = last_visible_pos(prev, i - 1);
            if pos < 0 {
                prev
            } else {
                prev.update(pos, with_span(prev[pos], i - pos))
            }
        }
    }
}

/// The row after the absorbed-cell repair ran over every cell in order.
pub open spec fn fix_zero_spans(row: Seq<Style>) -> Seq<Style> {
    fix_zero_upto(row, row.len() as int)
}

proof fn lemma_fix_zero_len(row: Seq<Style>, i: int)
    ensures
        fix_zero_upto(row, i).len() == row.len(),
    decreases i,
{
    if i > 0 {
        lemma_fix_zero_len(row, i - 1);
        let prev = fix_zero_upto(row, i - 1);
        assert(prev.len() == row.len());
        if i - 1 >= prev.len() || prev[i - 1].span > 0 || overridden(prev, i - 1) {
            assert(fix_zero_upto(row, i) == prev);
            assert(fix_zero_upto(row, i).len() == row.len());
        } else {
            let pos = last_visible_pos(prev, i - 1);
            lemma_last_visible_range(prev, i - 1);
            if pos < 0 {
                assert(fix_zero_upto(row, i) == prev);
                assert(fix_zero_upto(row, i).len() == row.len());
            } else {
                assert(0 <= pos < prev.len());
                assert(fix_zero_upto(row, i) == prev.update(pos, with_span(prev[pos], i - pos)));
                assert(prev.update(pos, with_span(prev[pos], i - pos)).len() == prev.len());
                assert(fix_zero_upto(row, i).len() == row.len());
            }
        }
    } else {
        assert(fix_zero_upto(row, i) == row);
    }
}

proof fn lemma_last_visible_range(row: Seq<Style>, before: int)
    ensures
        last_visible_pos(row, before) == -1 || (0 <= last_visible_pos(row, before) < before
            && row[last_visible_pos(row, before)].span > 0),
        last_visible_pos(row, before) == -1 ==> forall|j: int|
            0 <= j < before ==> row[j].span == 0,
    decreases before,
{
    if before > 0 && row[before - 1].span == 0 {
        lemma_last_visible_range(row, before - 1);
    }
}

/// Widen, before every absorbed and uncovered cell, the last cell with a
/// nonzero span, checking the cells in order.
#[verifier::loop_isolation(false)]
pub fn fix_zero_column_span(row_styles: &mut Vec<Style>)
    ensures
        final(row_styles)@ == fix_zero_spans(old(row_styles)@),
{
    let n = row_styles.len();
    let mut i: usize = 0;
    while i < n
        invariant
            i <= n,
            n == old(row_styles)@.len(),
            row_styles@.len() == n,
            row_styles@ == fix_zero_upto(old(row_styles)@, i as int),
        decreases n - i,
    {
        proof {
            lemma_fix_zero_len(old(row_styles)@, i as int);
            lemma_fix_zero_len(old(row_styles)@, i as int + 1);
        }
        if row_styles[i].span == 0 && !is_cell_overriden(row_styles, i) {
            proof {
                lemma_last_visible_range(row_styles@, i as int);
            }
            let mut pos: usize = i;
            let mut found = false;
            let mut j: usize = i;
            while j > 0 && !found
                invariant
                    j <= i,
                    i < n,
                    n == row_styles@.len(),
                    !found ==> last_visible_pos(row_styles@, i as int) == last_visible_pos(
                        row_styles@,
                        j as int,
                    ),
                    found ==> last_visible_pos(row_styles@, i as int) == pos as int && pos < i,
                decreases 2 * j + (if found {
                    0int
                } else {
                    1
                }),
            {
                if row_styles[j - 1].span > 0 {
                    pos = j - 1;
                    found = true;
                } else {
                    j = j - 1;
                }
            }
            proof {
                if !found {
                    assert(last_visible_pos(row_styles@, 0) == -1);
                }
            }
            if found {
                let mut st = row_styles[pos];
                st.span = i - pos + 1;
                row_styles[pos] = st;
                proof {
                    assert(row_styles@ =~= fix_zero_upto(old(row_styles)@, i as int + 1));
                }
            } else {
                proof {
                    assert(last_visible_pos(row_styles@, i as int) == -1);
                }
            }
        }
        i = i + 1;
    }
}

} // verus!

verus! {

/// The repair passes keep the number of cells of a row.
pub proof fn lemma_prep_lens(row: Seq<Style>)
    ensures
        fix_invisible(row).len() == row.len(),
        fix_first_styles(fix_invisible(row)).len() == row.len(),
        fix_zero_spans(fix_first_styles(fix_invisible(row))).len() == row.len(),
{
    lemma_fix_invisible_len(row, row.len() as int);
    let f = fix_invisible(row);
    lemma_fix_first_len(f);
    lemma_fix_zero_len(fix_first_styles(f), fix_first_styles(f).len() as int);
}

/// The first-column repair keeps the number of cells of a row.
pub proof fn lemma_fix_first_len(row: Seq<Style>)
    ensures
        fix_first_styles(row).len() == row.len(),
{
    let i = first_fix_pos(row);
    if i >= 0 {
        lemma_first_visible_range(row, 1);
        assert(0 <= i < row.len());
    }
}

/// The first-column repair keeps the number of cells of a row's contents.
pub proof fn lemma_fix_first_cells_len<T>(row: Seq<Style>, cells: Seq<T>)
    ensures
        fix_first_cells(row, cells).len() == cells.len(),
{
    let i = first_fix_pos(row);
    if i >= 0 && i < cells.len() && cells.len() > 0 {
        assert(fix_first_cells(row, cells) == cells.update(0, cells[i]).update(i, cells[0]));
    }
}

} // verus!
