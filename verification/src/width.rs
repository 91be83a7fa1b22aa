//! The width resolver: seeds every visible cell with its intrinsic content
//! width, then, for each span value present and each column range of that
//! width, raises every in-scope row to the widest row's total by handing
//! out one unit at a time over the row's visible cells, patches rows whose
//! span layout does not fit the range from rows where it does, and re-runs
//! a range once if later adjustments desynchronized it. Also row heights
//! and the per-column widths used for ruling lines.

use vstd::prelude::*;

use crate::borders::BorderLine;
use crate::spans::in_scope;
use crate::spans::is_cell_visible;
use crate::spans::is_there_out_of_scope_cell;
use crate::spans::out_of_scope_row;
use crate::spans::visible;
use crate::text::add_capped;
use crate::text::cap_usize;
use crate::text::max_line_width;
use crate::text::sub_clamped;
use crate::types::Style;

verus! {

/// The view of a vector of vectors as a sequence of sequences.
pub open spec fn view2<T>(v: Seq<Vec<T>>) -> Seq<Seq<T>> {
    v.map_values(|x: Vec<T>| x@)
}

/// `a + b` on widths, stopping at the machine limit.
pub open spec fn cadd(a: usize, b: usize) -> usize {
    cap_usize(a + b)
}

/// `a - b` on widths, stopping at zero.
pub open spec fn csub(a: usize, b: usize) -> usize {
    cap_usize(a - b)
}

/// The total rendered width of columns `[start, i)` of one row: the widths
/// of the visible, in-scope cells plus one unit for each interior vertical
/// split line met at such a cell.
pub open spec fn row_width_upto(
    st: Seq<Style>,
    w: Seq<usize>,
    bl: Seq<BorderLine>,
    start: int,
    end: int,
    i: int,
) -> usize
    decreases i - start,
{
    if i <= start {
        0
    } else {
        let p = row_width_upto(st, w, bl, start, end, i - 1);
        if visible(st, i - 1) && in_scope(st, i - 1, end) {
            let b: usize = if i - 1 > start && bl[i - 1].connector1 is Some {
                1
            } else {
                0
            };
            cadd(cadd(p, w[i - 1]), b)
        } else {
            p
        }
    }
}

/// The total rendered width of columns `[start, end)` of one row.
pub open spec fn spec_row_width(
    st: Seq<Style>,
    w: Seq<usize>,
    bl: Seq<BorderLine>,
    start: int,
    end: int,
) -> usize {
    row_width_upto(st, w, bl, start, end, end)
}

/// The total rendered width of columns `[start, end)` of one row.
pub fn row_width(
    st: &Vec<Style>,
    w: &Vec<usize>,
    bl: &Vec<BorderLine>,
    start: usize,
    end: usize,
) -> (r: usize)
    requires
        end <= st@.len(),
        end <= w@.len(),
        end <= bl@.len(),
    ensures
        r == spec_row_width(st@, w@, bl@, start as int, end as int),
{
    let mut acc: usize = 0;
    let mut i: usize = start;
    if end <= start {
        return 0;
    }
    while i < end
        invariant
            start <= i <= end,
            end <= st@.len(),
            end <= w@.len(),
            end <= bl@.len(),
            acc == row_width_upto(st@, w@, bl@, start as int, end as int, i as int),
        decreases end - i,
    {
        if is_cell_visible(st, i) && st[i].span <= end - i {
            let b: usize = if i > start && bl[i].connector1.is_some() {
                1
            } else {
                0
            };
            acc = add_capped(add_capped(acc, w[i]), b);
        }
        i = i + 1;
    }
    acc
}

/// The positions of the visible cells in `[start, end)`.
pub open spec fn vis_positions(st: Seq<Style>, start: int, end: int) -> Seq<int>
    decreases end - start,
{
    if start >= end {
        Seq::empty()
    } else if visible(st, start) {
        seq![start] + vis_positions(st, start + 1, end)
    } else {
        vis_positions(st, start + 1, end)
    }
}

proof fn lemma_vis_positions_range(st: Seq<Style>, start: int, end: int)
    ensures
        forall|k: int|
            0 <= k < vis_positions(st, start, end).len() ==> start <= #[trigger] vis_positions(
                st,
                start,
                end,
            )[k] < end,
    decreases end - start,
{
    if start < end {
        lemma_vis_positions_range(st, start + 1, end);
        let rest = vis_positions(st, start + 1, end);
        if visible(st, start) {
            let s = seq![start] + rest;
            assert forall|k: int| 0 <= k < s.len() implies start <= #[trigger] s[k] < end by {
                if k == 0 {
                    assert(s[0] == start);
                } else {
                    assert(s[k] == rest[k - 1]);
                }
            }
            assert(vis_positions(st, start, end) == s);
        }
    }
}

/// The widths after `inc` one-unit increments were handed out over the
/// positions `vis`, cycling from position index `idx` on.
pub open spec fn inc_cells(w: Seq<usize>, vis: Seq<int>, inc: int, idx: int) -> Seq<usize>
    decreases inc,
{
    if inc <= 0 || vis.len() == 0 {
        w
    } else {
        let c = vis[idx];
        let next = if idx + 1 >= vis.len() {
            0
        } else {
            idx + 1
        };
        inc_cells(w.update(c, cadd(w[c], 1)), vis, inc - 1, next)
    }
}

proof fn lemma_inc_cells_len(w: Seq<usize>, vis: Seq<int>, inc: int, idx: int)
    requires
        forall|k: int| 0 <= k < vis.len() ==> 0 <= #[trigger] vis[k] < w.len(),
        0 <= idx < vis.len() || vis.len() == 0,
    ensures
        inc_cells(w, vis, inc, idx).len() == w.len(),
    decreases inc,
{
    if inc > 0 && vis.len() > 0 {
        let c = vis[idx];
        let next: int = if idx + 1 >= vis.len() {
            0
        } else {
            idx + 1
        };
        lemma_inc_cells_len(w.update(c, cadd(w[c], 1)), vis, inc - 1, next);
    }
}

/// Hand out `inc` one-unit width increments over the visible cells of
/// `[start, end)`, cycling left to right.
#[verifier::loop_isolation(false)]
pub fn inc_cells_width(w: &mut Vec<usize>, st: &Vec<Style>, start: usize, end: usize, inc: usize)
    requires
        start <= end,
        end <= st@.len(),
        end <= old(w)@.len(),
    ensures
        final(w)@ == inc_cells(old(w)@, vis_positions(st@, start as int, end as int), inc as int, 0),
{
    let mut vis: Vec<usize> = Vec::new();
    let mut i: usize = start;
    proof {
        assert(vis@.map_values(|x: usize| x as int) =~= Seq::<int>::empty());
    }
    while i < end
        invariant
            start <= i <= end,
            vis@.map_values(|x: usize| x as int) + vis_positions(st@, i as int, end as int)
                =~= vis_positions(st@, start as int, end as int),
            forall|k: int| 0 <= k < vis@.len() ==> start <= #[trigger] vis@[k] < end,
        decreases end - i,
    {
        if is_cell_visible(st, i) {
            vis.push(i);
            proof {
                assert(vis@.map_values(|x: usize| x as int) =~= vis@.drop_last().map_values(
                    |x: usize| x as int,
                ).push(i as int));
            }
        }
        i = i + 1;
    }
    proof {
        assert(vis_positions(st@, end as int, end as int) =~= Seq::<int>::empty());
        assert(vis@.map_values(|x: usize| x as int) =~= vis_positions(
            st@,
            start as int,
            end as int,
        ));
    }
    let ghost gvis = vis_positions(st@, start as int, end as int);
    if vis.len() == 0 {
        return ;
    }
    let mut k: usize = 0;
    let mut idx: usize = 0;
    while k < inc
        invariant
            k <= inc,
            idx < vis@.len(),
            w@.len() == old(w)@.len(),
            inc_cells(w@, gvis, inc - k, idx as int) == inc_cells(old(w)@, gvis, inc as int, 0),
        decreases inc - k,
    {
        let c = vis[idx];
        proof {
            assert(gvis[idx as int] == c as int);
        }
        let cur = w[c];
        w[c] = add_capped(cur, 1);
        idx = idx + 1;
        if idx >= vis.len() {
            idx = 0;
        }
        k = k + 1;
    }
    proof {
        assert(inc_cells(w@, gvis, 0, idx as int) == w@);
    }
}

/// The row holding the widest `[start, end)` total among the first `r`
/// rows, later rows winning ties, with that width; `(0, 0)` when there is
/// no row.
pub open spec fn scoped_max_upto(
    st2: Seq<Seq<Style>>,
    w2: Seq<Seq<usize>>,
    bl2: Seq<Seq<BorderLine>>,
    start: int,
    end: int,
    r: int,
) -> (int, usize)
    decreases r,
{
    if r <= 0 {
        (0int, 0usize)
    } else {
        let p = scoped_max_upto(st2, w2, bl2, start, end, r - 1);
        let cur = spec_row_width(st2[r - 1], w2[r - 1], bl2[r - 1], start, end);
        if cur >= p.1 {
            (r - 1, cur)
        } else {
            p
        }
    }
}

/// The row holding the widest `[start, end)` total, and that width.
#[verifier::loop_isolation(false)]
pub fn scoped_max_row(
    st: &Vec<Vec<Style>>,
    w: &Vec<Vec<usize>>,
    bl: &Vec<Vec<BorderLine>>,
    count_rows: usize,
    start: usize,
    end: usize,
) -> (r: (usize, usize))
    requires
        count_rows <= st@.len(),
        count_rows <= w@.len(),
        count_rows <= bl@.len(),
        forall|j: int| 0 <= j < count_rows ==> end <= (#[trigger] st@[j])@.len(),
        forall|j: int| 0 <= j < count_rows ==> end <= (#[trigger] w@[j])@.len(),
        forall|j: int| 0 <= j < count_rows ==> end <= (#[trigger] bl@[j])@.len(),
    ensures
        r.0 as int == scoped_max_upto(
            view2(st@),
            view2(w@),
            view2(bl@),
            start as int,
            end as int,
            count_rows as int,
        ).0,
        r.1 == scoped_max_upto(
            view2(st@),
            view2(w@),
            view2(bl@),
            start as int,
            end as int,
            count_rows as int,
        ).1,
{
    let mut best_row: usize = 0;
    let mut best: usize = 0;
    let mut j: usize = 0;
    while j < count_rows
        invariant
            j <= count_rows,
            best_row as int == scoped_max_upto(
                view2(st@),
                view2(w@),
                view2(bl@),
                start as int,
                end as int,
                j as int,
            ).0,
            best == scoped_max_upto(
                view2(st@),
                view2(w@),
                view2(bl@),
                start as int,
                end as int,
                j as int,
            ).1,
        decreases count_rows - j,
    {
        let cur = row_width(&st[j], &w[j], &bl[j], start, end);
        proof {
            assert(view2(st@)[j as int] == st@[j as int]@);
            assert(view2(w@)[j as int] == w@[j as int]@);
            assert(view2(bl@)[j as int] == bl@[j as int]@);
        }
        if cur >= best {
            best_row = j;
            best = cur;
        }
        j = j + 1;
    }
    (best_row, best)
}

} // verus!

verus! {

/// The least row before `rows`, from `from` on, that is not the widest row
/// `mr`, not `row` itself, fits the range, and holds the same span at
/// `col` as `row` does; -1 if there is none.
pub open spec fn same_span_source(
    st2: Seq<Seq<Style>>,
    rows: int,
    start: int,
    end: int,
    mr: int,
    row: int,
    col: int,
    from: int,
) -> int
    decreases rows - from,
{
    if from >= rows {
        -1
    } else if from != mr && from != row && !out_of_scope_row(st2[from], start, end)
        && st2[from][col].span == st2[row][col].span {
        from
    } else {
        same_span_source(st2, rows, start, end, mr, row, col, from + 1)
    }
}

/// The widths of row `row` after its visible cells in `[start, c)` were
/// patched from a row with the same span layout, where one exists.
pub open spec fn patch_row_upto(
    st2: Seq<Seq<Style>>,
    w2: Seq<Seq<usize>>,
    rows: int,
    start: int,
    end: int,
    mr: int,
    row: int,
    c: int,
) -> Seq<usize>
    decreases c - start,
{
    if c <= start {
        w2[row]
    } else {
        let p = patch_row_upto(st2, w2, rows, start, end, mr, row, c - 1);
        if visible(st2[row], c - 1) {
            let r = same_span_source(st2, rows, start, end, mr, row, c - 1, 0);
            if r >= 0 {
                p.update(c - 1, w2[r][c - 1])
            } else {
                p
            }
        } else {
            p
        }
    }
}

/// The widths after the first `r` rows that do not fit the range were
/// patched, in order.
pub open spec fn patch_rows_upto(
    st2: Seq<Seq<Style>>,
    w2: Seq<Seq<usize>>,
    rows: int,
    start: int,
    end: int,
    mr: int,
    r: int,
) -> Seq<Seq<usize>>
    decreases r,
{
    if r <= 0 {
        w2
    } else {
        let p = patch_rows_upto(st2, w2, rows, start, end, mr, r - 1);
        if r - 1 != mr && out_of_scope_row(st2[r - 1], start, end) {
            p.update(r - 1, patch_row_upto(st2, p, rows, start, end, mr, r - 1, end))
        } else {
            p
        }
    }
}

/// The widths after every row that fits the range was raised to the widest
/// row's total, one unit at a time over its visible cells, in row order.
pub open spec fn raise_rows_upto(
    st2: Seq<Seq<Style>>,
    bl2: Seq<Seq<BorderLine>>,
    w2: Seq<Seq<usize>>,
    start: int,
    end: int,
    mr: int,
    mw: usize,
    r: int,
) -> Seq<Seq<usize>>
    decreases r,
{
    if r <= 0 {
        w2
    } else {
        let p = raise_rows_upto(st2, bl2, w2, start, end, mr, mw, r - 1);
        if r - 1 == mr || out_of_scope_row(st2[r - 1], start, end) {
            p
        } else {
            let rw = spec_row_width(st2[r - 1], p[r - 1], bl2[r - 1], start, end);
            p.update(
                r - 1,
                inc_cells(p[r - 1], vis_positions(st2[r - 1], start, end), csub(mw, rw) as int, 0),
            )
        }
    }
}

/// One balancing pass over the column range `[start, end)`: find the
/// widest row, raise every other in-scope row to its total, then patch the
/// rows whose span layout does not fit the range.
pub open spec fn spec_adjust_range(
    st2: Seq<Seq<Style>>,
    bl2: Seq<Seq<BorderLine>>,
    w2: Seq<Seq<usize>>,
    rows: int,
    start: int,
    end: int,
) -> Seq<Seq<usize>> {
    if rows <= 0 {
        w2
    } else {
        let m = scoped_max_upto(st2, w2, bl2, start, end, rows);
        if m.1 == 0 {
            w2
        } else {
            let a = raise_rows_upto(st2, bl2, w2, start, end, m.0, m.1, rows);
            patch_rows_upto(st2, a, rows, start, end, m.0, rows)
        }
    }
}

/// The fold deciding whether every in-scope row of `[start, end)` renders
/// the same total width, mirroring the order rows are visited in.
pub open spec fn complete_fold(
    st2: Seq<Seq<Style>>,
    w2: Seq<Seq<usize>>,
    bl2: Seq<Seq<BorderLine>>,
    start: int,
    end: int,
    r: int,
) -> Option<(usize, bool)>
    decreases r,
{
    if r <= 0 {
        None
    } else {
        let acc = complete_fold(st2, w2, bl2, start, end, r - 1);
        if out_of_scope_row(st2[r - 1], start, end) {
            acc
        } else {
            let width = spec_row_width(st2[r - 1], w2[r - 1], bl2[r - 1], start, end);
            match acc {
                None => Some((width, true)),
                Some((w0, true)) => if w0 != width {
                    Some((0usize, false))
                } else {
                    Some((w0, true))
                },
                Some((w0, false)) => Some((w0, false)),
            }
        }
    }
}

/// Whether some row fits the range and all rows that fit render it to the
/// same total width.
pub open spec fn range_complete(
    st2: Seq<Seq<Style>>,
    w2: Seq<Seq<usize>>,
    bl2: Seq<Seq<BorderLine>>,
    rows: int,
    start: int,
    end: int,
) -> bool {
    match complete_fold(st2, w2, bl2, start, end, rows) {
        Some(p) => p.1,
        None => false,
    }
}

/// Whether every in-scope row renders `[start, end)` to the same width.
#[verifier::loop_isolation(false)]
pub fn is_range_complete(
    st: &Vec<Vec<Style>>,
    w: &Vec<Vec<usize>>,
    bl: &Vec<Vec<BorderLine>>,
    count_rows: usize,
    start: usize,
    end: usize,
) -> (r: bool)
    requires
        count_rows <= st@.len(),
        count_rows <= w@.len(),
        count_rows <= bl@.len(),
        start < end,
        forall|j: int| 0 <= j < count_rows ==> end <= (#[trigger] st@[j])@.len(),
        forall|j: int| 0 <= j < count_rows ==> end <= (#[trigger] w@[j])@.len(),
        forall|j: int| 0 <= j < count_rows ==> end <= (#[trigger] bl@[j])@.len(),
    ensures
        r == range_complete(
            view2(st@),
            view2(w@),
            view2(bl@),
            count_rows as int,
            start as int,
            end as int,
        ),
{
    let mut seen: bool = false;
    let mut w0: usize = 0;
    let mut ok: bool = false;
    let mut j: usize = 0;
    while j < count_rows
        invariant
            j <= count_rows,
            complete_fold(view2(st@), view2(w@), view2(bl@), start as int, end as int, j as int)
                == (if seen {
                Some((w0, ok))
            } else {
                Option::<(usize, bool)>::None
            }),
        decreases count_rows - j,
    {
        proof {
            assert(view2(st@)[j as int] == st@[j as int]@);
            assert(view2(w@)[j as int] == w@[j as int]@);
            assert(view2(bl@)[j as int] == bl@[j as int]@);
        }
        if !is_there_out_of_scope_cell(&st[j], start, end) {
            let width = row_width(&st[j], &w[j], &bl[j], start, end);
            if !seen {
                seen = true;
                w0 = width;
                ok = true;
            } else if ok && w0 != width {
                w0 = 0;
                ok = false;
            }
        }
        j = j + 1;
    }
    seen && ok
}

/// One balancing pass over `[start, end)`, in place.
#[verifier::loop_isolation(false)]
pub fn adjust_range_width(
    widths: &mut Vec<Vec<usize>>,
    styles: &Vec<Vec<Style>>,
    borders: &Vec<Vec<BorderLine>>,
    count_rows: usize,
    start: usize,
    end: usize,
)
    requires
        count_rows <= styles@.len(),
        count_rows == old(widths)@.len(),
        count_rows <= borders@.len(),
        start < end,
        forall|j: int| 0 <= j < count_rows ==> end <= (#[trigger] styles@[j])@.len(),
        forall|j: int| 0 <= j < count_rows ==> end <= (#[trigger] old(widths)@[j])@.len(),
        forall|j: int| 0 <= j < count_rows ==> end <= (#[trigger] borders@[j])@.len(),
    ensures
        view2(final(widths)@) == spec_adjust_range(
            view2(styles@),
            view2(borders@),
            view2(old(widths)@),
            count_rows as int,
            start as int,
            end as int,
        ),
        final(widths)@.len() == old(widths)@.len(),
        forall|j: int|
            0 <= j < count_rows ==> (#[trigger] final(widths)@[j])@.len() == old(
                widths,
            )@[j]@.len(),
{
    if count_rows == 0 {
        return ;
    }
    let m = scoped_max_row(styles, widths, borders, count_rows, start, end);
    let max_row = m.0;
    let max_width = m.1;
    if max_width == 0 {
        return ;
    }
    proof {
        lemma_scoped_max_row_range(
            view2(styles@),
            view2(old(widths)@),
            view2(borders@),
            start as int,
            end as int,
            count_rows as int,
        );
    }
    let ghost st2 = view2(styles@);
    let ghost bl2 = view2(borders@);
    let ghost w0 = view2(old(widths)@);
    let mut r: usize = 0;
    while r < count_rows
        invariant
            r <= count_rows,
            widths@.len() == count_rows,
            view2(widths@) == raise_rows_upto(
                st2,
                bl2,
                w0,
                start as int,
                end as int,
                max_row as int,
                max_width,
                r as int,
            ),
            forall|j: int|
                0 <= j < count_rows ==> (#[trigger] widths@[j])@.len() == old(widths)@[j]@.len(),
        decreases count_rows - r,
    {
        let skip = r == max_row || is_there_out_of_scope_cell(&styles[r], start, end);
        proof {
            assert(st2[r as int] == styles@[r as int]@);
            assert(view2(widths@)[r as int] == widths@[r as int]@);
            assert(bl2[r as int] == borders@[r as int]@);
        }
        if !skip {
            let rw = row_width(&styles[r], &widths[r], &borders[r], start, end);
            let diff = sub_clamped(max_width, rw);
            let mut rowv = widths.remove(r);
            let ghost pre_row = rowv@;
            inc_cells_width(&mut rowv, &styles[r], start, end, diff);
            widths.insert(r, rowv);
            proof {
                lemma_vis_positions_range(st2[r as int], start as int, end as int);
                lemma_inc_cells_len(
                    pre_row,
                    vis_positions(st2[r as int], start as int, end as int),
                    diff as int,
                    0,
                );
                assert(view2(widths@) =~= raise_rows_upto(
                    st2,
                    bl2,
                    w0,
                    start as int,
                    end as int,
                    max_row as int,
                    max_width,
                    r as int + 1,
                ));
            }
        }
        r = r + 1;
    }
    let ghost wa = view2(widths@);
    let mut r2: usize = 0;
    while r2 < count_rows
        invariant
            r2 <= count_rows,
            widths@.len() == count_rows,
            view2(widths@) == patch_rows_upto(
                st2,
                wa,
                count_rows as int,
                start as int,
                end as int,
                max_row as int,
                r2 as int,
            ),
            forall|j: int|
                0 <= j < count_rows ==> (#[trigger] widths@[j])@.len() == old(widths)@[j]@.len(),
        decreases count_rows - r2,
    {
        proof {
            assert(st2[r2 as int] == styles@[r2 as int]@);
        }
        if !(r2 == max_row) && is_there_out_of_scope_cell(&styles[r2], start, end) {
            let ghost pw = view2(widths@);
            let mut c: usize = start;
            let mut rowv = widths.remove(r2);
            proof {
                assert(rowv@ == pw[r2 as int]);
                assert(patch_row_upto(
                    st2,
                    pw,
                    count_rows as int,
                    start as int,
                    end as int,
                    max_row as int,
                    r2 as int,
                    start as int,
                ) == pw[r2 as int]);
            }
            while c < end
                invariant
                    start <= c <= end,
                    r2 < count_rows,
                    widths@.len() == count_rows - 1,
                    rowv@ == patch_row_upto(
                        st2,
                        pw,
                        count_rows as int,
                        start as int,
                        end as int,
                        max_row as int,
                        r2 as int,
                        c as int,
                    ),
                    rowv@.len() == pw[r2 as int].len(),
                    forall|j: int|
                        0 <= j < count_rows && j != r2 ==> #[trigger] pw[j] == (if j < r2 {
                            widths@[j]@
                        } else {
                            widths@[j - 1]@
                        }),
                decreases end - c,
            {
                if is_cell_visible(&styles[r2], c) {
                    let mut found: bool = false;
                    let mut src: usize = 0;
                    let mut f: usize = 0;
                    while f < count_rows && !found
                        invariant
                            f <= count_rows,
                            !found ==> same_span_source(
                                st2,
                                count_rows as int,
                                start as int,
                                end as int,
                                max_row as int,
                                r2 as int,
                                c as int,
                                0,
                            ) == same_span_source(
                                st2,
                                count_rows as int,
                                start as int,
                                end as int,
                                max_row as int,
                                r2 as int,
                                c as int,
                                f as int,
                            ),
                            found ==> same_span_source(
                                st2,
                                count_rows as int,
                                start as int,
                                end as int,
                                max_row as int,
                                r2 as int,
                                c as int,
                                0,
                            ) == src as int && src < count_rows && src != r2,
                        decreases 2 * (count_rows - f) + (if found {
                            0int
                        } else {
                            1
                        }),
                    {
                        proof {
                            assert(st2[f as int] == styles@[f as int]@);
                        }
                        if f != max_row && f != r2 && !is_there_out_of_scope_cell(
                            &styles[f],
                            start,
                            end,
                        ) && styles[f][c].span == styles[r2][c].span {
                            src = f;
                            found = true;
                        } else {
                            f = f + 1;
                        }
                    }
                    if found {
                        let sidx = if src < r2 {
                            src
                        } else {
                            src - 1
                        };
                        let v = widths[sidx][c];
                        proof {
                            assert(pw[src as int][c as int] == v);
                        }
                        rowv[c] = v;
                    } else {
                        proof {
                            assert(same_span_source(
                                st2,
                                count_rows as int,
                                start as int,
                                end as int,
                                max_row as int,
                                r2 as int,
                                c as int,
                                count_rows as int,
                            ) == -1);
                        }
                    }
                }
                c = c + 1;
            }
            widths.insert(r2, rowv);
            proof {
                assert(view2(widths@) =~= patch_rows_upto(
                    st2,
                    wa,
                    count_rows as int,
                    start as int,
                    end as int,
                    max_row as int,
                    r2 as int + 1,
                ));
            }
        }
        r2 = r2 + 1;
    }
}

proof fn lemma_scoped_max_row_range(
    st2: Seq<Seq<Style>>,
    w2: Seq<Seq<usize>>,
    bl2: Seq<Seq<BorderLine>>,
    start: int,
    end: int,
    r: int,
)
    ensures
        0 <= scoped_max_upto(st2, w2, bl2, start, end, r).0,
        r > 0 ==> scoped_max_upto(st2, w2, bl2, start, end, r).0 < r,
        r <= 0 ==> scoped_max_upto(st2, w2, bl2, start, end, r).0 == 0,
    decreases r,
{
    if r > 0 {
        lemma_scoped_max_row_range(st2, w2, bl2, start, end, r - 1);
    }
}

} // verus!

verus! {

/// The widths after one balancing pass ran over every range of width
/// `span` starting before `s`, in ascending start order.
pub open spec fn pass_one_upto(
    st2: Seq<Seq<Style>>,
    bl2: Seq<Seq<BorderLine>>,
    w2: Seq<Seq<usize>>,
    rows: int,
    cols: int,
    span: int,
    s: int,
) -> Seq<Seq<usize>>
    decreases s,
{
    if s <= 0 {
        w2
    } else {
        let p = pass_one_upto(st2, bl2, w2, rows, cols, span, s - 1);
        if s - 1 + span <= cols {
            spec_adjust_range(st2, bl2, p, rows, s - 1, s - 1 + span)
        } else {
            p
        }
    }
}

/// The widths after every range of width `span` was checked again, in
/// ascending start order, and balanced once more where rows no longer
/// agreed.
pub open spec fn pass_two_upto(
    st2: Seq<Seq<Style>>,
    bl2: Seq<Seq<BorderLine>>,
    w2: Seq<Seq<usize>>,
    rows: int,
    cols: int,
    span: int,
    s: int,
) -> Seq<Seq<usize>>
    decreases s,
{
    if s <= 0 {
        w2
    } else {
        let p = pass_two_upto(st2, bl2, w2, rows, cols, span, s - 1);
        if s - 1 + span <= cols {
            if !range_complete(st2, p, bl2, rows, s - 1, s - 1 + span) {
                spec_adjust_range(st2, bl2, p, rows, s - 1, s - 1 + span)
            } else {
                p
            }
        } else {
            p
        }
    }
}

/// The widths after the two passes for one span value: balance every range
/// of that width, then re-balance once each range that later ranges
/// desynchronized.
pub open spec fn spec_adjust_width(
    st2: Seq<Seq<Style>>,
    bl2: Seq<Seq<BorderLine>>,
    w2: Seq<Seq<usize>>,
    rows: int,
    cols: int,
    span: int,
) -> Seq<Seq<usize>> {
    pass_two_upto(
        st2,
        bl2,
        pass_one_upto(st2, bl2, w2, rows, cols, span, cols),
        rows,
        cols,
        span,
        cols,
    )
}

proof fn lemma_pass_one_stable(
    st2: Seq<Seq<Style>>,
    bl2: Seq<Seq<BorderLine>>,
    w2: Seq<Seq<usize>>,
    rows: int,
    cols: int,
    span: int,
    s0: int,
    s1: int,
)
    requires
        0 <= s0 <= s1,
        s0 + span > cols,
        span >= 1,
    ensures
        pass_one_upto(st2, bl2, w2, rows, cols, span, s1) == pass_one_upto(
            st2,
            bl2,
            w2,
            rows,
            cols,
            span,
            s0,
        ),
        pass_two_upto(st2, bl2, w2, rows, cols, span, s1) == pass_two_upto(
            st2,
            bl2,
            w2,
            rows,
            cols,
            span,
            s0,
        ),
    decreases s1 - s0,
{
    if s1 > s0 {
        lemma_pass_one_stable(st2, bl2, w2, rows, cols, span, s0, s1 - 1);
    }
}

/// Run the two balancing passes for one span value, in place.
#[verifier::loop_isolation(false)]
pub fn adjust_width(
    widths: &mut Vec<Vec<usize>>,
    styles: &Vec<Vec<Style>>,
    borders: &Vec<Vec<BorderLine>>,
    count_rows: usize,
    count_columns: usize,
    span: usize,
)
    requires
        span >= 1,
        count_rows <= styles@.len(),
        count_rows == old(widths)@.len(),
        count_rows <= borders@.len(),
        forall|j: int| 0 <= j < count_rows ==> count_columns <= (#[trigger] styles@[j])@.len(),
        forall|j: int| 0 <= j < count_rows ==> count_columns <= (#[trigger] old(widths)@[j])@.len(),
        forall|j: int| 0 <= j < count_rows ==> count_columns <= (#[trigger] borders@[j])@.len(),
    ensures
        view2(final(widths)@) == spec_adjust_width(
            view2(styles@),
            view2(borders@),
            view2(old(widths)@),
            count_rows as int,
            count_columns as int,
            span as int,
        ),
        final(widths)@.len() == old(widths)@.len(),
        forall|j: int|
            0 <= j < count_rows ==> (#[trigger] final(widths)@[j])@.len() == old(
                widths,
            )@[j]@.len(),
{
    let ghost st2 = view2(styles@);
    let ghost bl2 = view2(borders@);
    let ghost w0 = view2(old(widths)@);
    let mut start: usize = 0;
    while span <= count_columns - start
        invariant
            widths@.len() == count_rows,
            start <= count_columns,
            view2(widths@) == pass_one_upto(
                st2,
                bl2,
                w0,
                count_rows as int,
                count_columns as int,
                span as int,
                start as int,
            ),
            forall|j: int|
                0 <= j < count_rows ==> (#[trigger] widths@[j])@.len() == old(widths)@[j]@.len(),
        decreases count_columns - start,
    {
        adjust_range_width(widths, styles, borders, count_rows, start, start + span);
        start = start + 1;
    }
    proof {
        lemma_pass_one_stable(
            st2,
            bl2,
            w0,
            count_rows as int,
            count_columns as int,
            span as int,
            start as int,
            count_columns as int,
        );
    }
    let ghost w1 = view2(widths@);
    let mut start2: usize = 0;
    while span <= count_columns - start2
        invariant
            widths@.len() == count_rows,
            start2 <= count_columns,
            view2(widths@) == pass_two_upto(
                st2,
                bl2,
                w1,
                count_rows as int,
                count_columns as int,
                span as int,
                start2 as int,
            ),
            forall|j: int|
                0 <= j < count_rows ==> (#[trigger] widths@[j])@.len() == old(widths)@[j]@.len(),
        decreases count_columns - start2,
    {
        if !is_range_complete(styles, widths, borders, count_rows, start2, start2 + span) {
            adjust_range_width(widths, styles, borders, count_rows, start2, start2 + span);
        }
        start2 = start2 + 1;
    }
    proof {
        lemma_pass_one_stable(
            st2,
            bl2,
            w1,
            count_rows as int,
            count_columns as int,
            span as int,
            start2 as int,
            count_columns as int,
        );
    }
}

/// The intrinsic width of a cell: its widest line plus its left and right
/// padding.
pub open spec fn spec_cell_width(lines: Seq<Seq<char>>, st: Style) -> usize {
    cap_usize(max_line_width(lines) + st.padding.left.size + st.padding.right.size)
}

/// The intrinsic width of a cell.
pub fn cell_width(cell: &Vec<String>, style: &Style) -> (r: usize)
    ensures
        r == spec_cell_width(cell.deep_view(), *style),
{
    let mut best: usize = 0;
    let mut i: usize = 0;
    while i < cell.len()
        invariant
            i <= cell@.len(),
            best == max_line_width(cell.deep_view().take(i as int)),
        decreases cell@.len() - i,
    {
        let w = crate::text::display_width(cell[i].as_str());
        proof {
            assert(cell.deep_view()[i as int] == cell@[i as int]@);
            assert(cell.deep_view().take(i as int + 1).drop_last() =~= cell.deep_view().take(
                i as int,
            ));
            assert(cell.deep_view().take(i as int + 1).last() == cell.deep_view()[i as int]);
        }
        if w > best {
            best = w;
        }
        i = i + 1;
    }
    proof {
        assert(cell.deep_view().take(i as int) =~= cell.deep_view());
    }
    add_capped(add_capped(best, style.padding.left.size), style.padding.right.size)
}

/// Whether any cell of the grid carries the span value `k`.
pub open spec fn span_present(st2: Seq<Seq<Style>>, rows: int, cols: int, k: int) -> bool {
    exists|r: int, c: int| 0 <= r < rows && 0 <= c < cols && st2[r][c].span == k
}

/// Whether any cell of the grid carries the span value `k`.
#[verifier::loop_isolation(false)]
pub fn has_span(styles: &Vec<Vec<Style>>, count_rows: usize, count_columns: usize, k: usize) -> (r:
    bool)
    requires
        count_rows <= styles@.len(),
        forall|j: int| 0 <= j < count_rows ==> count_columns <= (#[trigger] styles@[j])@.len(),
    ensures
        r == span_present(view2(styles@), count_rows as int, count_columns as int, k as int),
{
    let mut r0: usize = 0;
    while r0 < count_rows
        invariant
            r0 <= count_rows,
            forall|r1: int, c1: int|
                0 <= r1 < r0 && 0 <= c1 < count_columns ==> (#[trigger] view2(styles@)[r1][c1]).span
                    != k,
        decreases count_rows - r0,
    {
        let mut c0: usize = 0;
        while c0 < count_columns
            invariant
                r0 < count_rows,
                c0 <= count_columns,
                forall|c1: int|
                    0 <= c1 < c0 ==> (#[trigger] view2(styles@)[r0 as int][c1]).span != k,
            decreases count_columns - c0,
        {
            proof {
                assert(view2(styles@)[r0 as int] == styles@[r0 as int]@);
            }
            if styles[r0][c0].span == k {
                return true;
            }
            c0 = c0 + 1;
        }
        r0 = r0 + 1;
    }
    false
}

/// The seed widths: the intrinsic width for every visible cell, zero for
/// every other cell.
pub open spec fn seed_widths(
    st2: Seq<Seq<Style>>,
    cells2: Seq<Seq<Seq<Seq<char>>>>,
    rows: int,
    cols: int,
) -> Seq<Seq<usize>> {
    Seq::new(
        rows as nat,
        |r: int|
            Seq::new(
                cols as nat,
                |c: int|
                    if visible(st2[r], c) {
                        spec_cell_width(cells2[r][c], st2[r][c])
                    } else {
                        0usize
                    },
            ),
    )
}

/// The widths after the balancing passes ran for every span value from 1
/// to `k` that is present, in ascending order.
pub open spec fn widths_after_span(
    st2: Seq<Seq<Style>>,
    bl2: Seq<Seq<BorderLine>>,
    cells2: Seq<Seq<Seq<Seq<char>>>>,
    rows: int,
    cols: int,
    k: int,
) -> Seq<Seq<usize>>
    decreases k,
{
    if k <= 0 {
        seed_widths(st2, cells2, rows, cols)
    } else {
        let p = widths_after_span(st2, bl2, cells2, rows, cols, k - 1);
        if span_present(st2, rows, cols, k) {
            spec_adjust_width(st2, bl2, p, rows, cols, k)
        } else {
            p
        }
    }
}

/// The resolved widths of every cell: seed with content widths, then
/// balance every span value present, smallest first.
pub open spec fn spec_columns_width(
    st2: Seq<Seq<Style>>,
    bl2: Seq<Seq<BorderLine>>,
    cells2: Seq<Seq<Seq<Seq<char>>>>,
    rows: int,
    cols: int,
) -> Seq<Seq<usize>> {
    widths_after_span(st2, bl2, cells2, rows, cols, cols)
}

/// Resolve the widths of every cell of the grid.
#[verifier::loop_isolation(false)]
pub fn columns_width(
    cells: &Vec<Vec<Vec<String>>>,
    styles: &Vec<Vec<Style>>,
    borders: &Vec<Vec<BorderLine>>,
    count_rows: usize,
    count_columns: usize,
) -> (r: Vec<Vec<usize>>)
    requires
        count_rows == styles@.len(),
        count_rows == cells@.len(),
        count_rows <= borders@.len(),
        count_columns < usize::MAX,
        forall|j: int| 0 <= j < count_rows ==> count_columns == (#[trigger] styles@[j])@.len(),
        forall|j: int| 0 <= j < count_rows ==> count_columns == (#[trigger] cells@[j])@.len(),
        forall|j: int| 0 <= j < count_rows ==> count_columns <= (#[trigger] borders@[j])@.len(),
    ensures
        view2(r@) == spec_columns_width(
            view2(styles@),
            view2(borders@),
            cells.deep_view(),
            count_rows as int,
            count_columns as int,
        ),
        r@.len() == count_rows,
        forall|j: int| 0 <= j < count_rows ==> (#[trigger] r@[j])@.len() == count_columns,
{
    let ghost st2 = view2(styles@);
    let ghost bl2 = view2(borders@);
    let ghost cells2 = cells.deep_view();
    let mut widths: Vec<Vec<usize>> = Vec::new();
    let mut r0: usize = 0;
    proof {
        assert(view2(widths@) =~= seed_widths(
            st2,
            cells2,
            count_rows as int,
            count_columns as int,
        ).take(0));
    }
    while r0 < count_rows
        invariant
            r0 <= count_rows,
            widths@.len() == r0,
            forall|j: int| 0 <= j < r0 ==> (#[trigger] widths@[j])@.len() == count_columns,
            view2(widths@) == seed_widths(
                st2,
                cells2,
                count_rows as int,
                count_columns as int,
            ).take(r0 as int),
        decreases count_rows - r0,
    {
        let mut roww: Vec<usize> = Vec::new();
        let mut c0: usize = 0;
        while c0 < count_columns
            invariant
                r0 < count_rows,
                c0 <= count_columns,
                roww@.len() == c0,
                forall|j: int|
                    0 <= j < c0 ==> #[trigger] roww@[j] == seed_widths(
                        st2,
                        cells2,
                        count_rows as int,
                        count_columns as int,
                    )[r0 as int][j],
            decreases count_columns - c0,
        {
            proof {
                assert(st2[r0 as int] == styles@[r0 as int]@);
                assert(cells2[r0 as int] == cells@[r0 as int].deep_view());
                assert(cells2[r0 as int][c0 as int] == cells@[r0 as int]@[c0 as int].deep_view());
            }
            if is_cell_visible(&styles[r0], c0) {
                let w = cell_width(&cells[r0][c0], &styles[r0][c0]);
                roww.push(w);
            } else {
                roww.push(0);
            }
            c0 = c0 + 1;
        }
        proof {
            assert(roww@ =~= seed_widths(st2, cells2, count_rows as int, count_columns as int)[
                r0 as int
            ]);
        }
        widths.push(roww);
        proof {
            assert(view2(widths@) =~= seed_widths(
                st2,
                cells2,
                count_rows as int,
                count_columns as int,
            ).take(r0 as int + 1));
        }
        r0 = r0 + 1;
    }
    proof {
        assert(seed_widths(st2, cells2, count_rows as int, count_columns as int).take(
            count_rows as int,
        ) =~= seed_widths(st2, cells2, count_rows as int, count_columns as int));
    }
    let mut k: usize = 1;
    while k <= count_columns
        invariant
            1 <= k,
            k <= count_columns + 1,
            widths@.len() == count_rows,
            forall|j: int| 0 <= j < count_rows ==> (#[trigger] widths@[j])@.len() == count_columns,
            view2(widths@) == widths_after_span(
                st2,
                bl2,
                cells2,
                count_rows as int,
                count_columns as int,
                k as int - 1,
            ),
        decreases count_columns + 1 - k,
    {
        if has_span(styles, count_rows, count_columns, k) {
            adjust_width(&mut widths, styles, borders, count_rows, count_columns, k);
        }
        k = k + 1;
    }
    widths
}

} // verus!

verus! {

/// The height a cell asks for: its line count plus top and bottom padding.
pub open spec fn spec_cell_height(lines: Seq<Seq<char>>, st: Style) -> usize {
    cap_usize(lines.len() + st.padding.top.size + st.padding.bottom.size)
}

/// The height of one row over its first `c` cells: the tallest cell, and
/// never less than 1, so an empty row still prints one line.
pub open spec fn row_height_upto(
    cells_row: Seq<Seq<Seq<char>>>,
    st_row: Seq<Style>,
    c: int,
) -> usize
    decreases c,
{
    if c <= 0 {
        1
    } else {
        let p = row_height_upto(cells_row, st_row, c - 1);
        let h = spec_cell_height(cells_row[c - 1], st_row[c - 1]);
        if h > p {
            h
        } else {
            p
        }
    }
}

/// The heights of all rows.
pub open spec fn spec_rows_height(
    cells2: Seq<Seq<Seq<Seq<char>>>>,
    st2: Seq<Seq<Style>>,
    rows: int,
    cols: int,
) -> Seq<usize> {
    Seq::new(rows as nat, |r: int| row_height_upto(cells2[r], st2[r], cols))
}

/// The height of every row: the tallest cell of the row, at least 1.
#[verifier::loop_isolation(false)]
pub fn rows_height(
    cells: &Vec<Vec<Vec<String>>>,
    styles: &Vec<Vec<Style>>,
    count_rows: usize,
    count_columns: usize,
) -> (r: Vec<usize>)
    requires
        count_rows == styles@.len(),
        count_rows == cells@.len(),
        forall|j: int| 0 <= j < count_rows ==> count_columns == (#[trigger] styles@[j])@.len(),
        forall|j: int| 0 <= j < count_rows ==> count_columns == (#[trigger] cells@[j])@.len(),
    ensures
        r@ == spec_rows_height(
            cells.deep_view(),
            view2(styles@),
            count_rows as int,
            count_columns as int,
        ),
{
    let ghost st2 = view2(styles@);
    let ghost cells2 = cells.deep_view();
    let mut heights: Vec<usize> = Vec::new();
    let mut r0: usize = 0;
    while r0 < count_rows
        invariant
            r0 <= count_rows,
            heights@.len() == r0,
            forall|j: int|
                0 <= j < r0 ==> #[trigger] heights@[j] == row_height_upto(
                    cells2[j],
                    st2[j],
                    count_columns as int,
                ),
        decreases count_rows - r0,
    {
        let mut h: usize = 1;
        let mut c0: usize = 0;
        while c0 < count_columns
            invariant
                r0 < count_rows,
                c0 <= count_columns,
                h == row_height_upto(cells2[r0 as int], st2[r0 as int], c0 as int),
            decreases count_columns - c0,
        {
            proof {
                assert(st2[r0 as int] == styles@[r0 as int]@);
                assert(cells2[r0 as int] == cells@[r0 as int].deep_view());
                assert(cells2[r0 as int][c0 as int] == cells@[r0 as int]@[c0 as int].deep_view());
                assert(cells2[r0 as int][c0 as int].len() == cells@[r0 as int]@[c0 as int]@.len());
            }
            let st = &styles[r0][c0];
            let lines = cells[r0][c0].len();
            let ch = add_capped(add_capped(lines, st.padding.top.size), st.padding.bottom.size);
            if ch > h {
                h = ch;
            }
            c0 = c0 + 1;
        }
        heights.push(h);
        r0 = r0 + 1;
    }
    proof {
        assert(heights@ =~= spec_rows_height(cells2, st2, count_rows as int, count_columns as int));
    }
    heights
}

/// The first row whose cell at `col` has a nonzero span no larger than any
/// other such row's, looking from `from` on; -1 if no row has one.
pub open spec fn min_span_row_from(st2: Seq<Seq<Style>>, rows: int, col: int, from: int) -> int
    decreases rows - from,
{
    if from >= rows {
        -1
    } else {
        let rest = min_span_row_from(st2, rows, col, from + 1);
        if st2[from][col].span > 0 {
            if rest < 0 || st2[from][col].span <= st2[rest][col].span {
                from
            } else {
                rest
            }
        } else {
            rest
        }
    }
}

/// `v` after `width` single units were laid onto the columns
/// `[col0, col0 + span)` cycling from `pos`, skipping positions past the
/// edge of the grid.
pub open spec fn dist_units(
    v: Seq<usize>,
    cols: int,
    col0: int,
    span: int,
    width: int,
    pos: int,
) -> Seq<usize>
    decreases width,
{
    if width <= 0 || span <= 0 {
        v
    } else {
        let v2 = if pos < cols {
            v.update(pos, cadd(v[pos], 1))
        } else {
            v
        };
        let next = if pos + 1 >= col0 + span {
            col0
        } else {
            pos + 1
        };
        dist_units(v2, cols, col0, span, width - 1, next)
    }
}

/// The rest of the normalized per-column widths, from column `col` on,
/// with `skip` columns still covered by an earlier span and `v` built so
/// far: per column, the row with the smallest span covering it spreads its
/// width, less one unit per interior boundary, over the covered columns.
pub open spec fn norm_go(
    st2: Seq<Seq<Style>>,
    w2: Seq<Seq<usize>>,
    rows: int,
    cols: int,
    col: int,
    skip: int,
    v: Seq<usize>,
) -> Seq<usize>
    decreases cols - col,
{
    if col >= cols {
        v
    } else if skip > 0 {
        norm_go(st2, w2, rows, cols, col + 1, skip - 1, v)
    } else {
        let row = min_span_row_from(st2, rows, col, 0);
        if row < 0 {
            norm_go(st2, w2, rows, cols, col + 1, 0, v)
        } else {
            let span = st2[row][col].span;
            let width = cap_usize(w2[row][col] - (span - 1)) as int;
            norm_go(
                st2,
                w2,
                rows,
                cols,
                col + 1,
                span - 1,
                dist_units(v, cols, col, span as int, width, col),
            )
        }
    }
}

/// The per-column widths used to draw ruling lines.
pub open spec fn spec_normalized_width(
    st2: Seq<Seq<Style>>,
    w2: Seq<Seq<usize>>,
    rows: int,
    cols: int,
) -> Seq<usize> {
    norm_go(st2, w2, rows, cols, 0, 0, Seq::new(cols as nat, |i: int| 0usize))
}

/// Derive per-column widths for ruling lines: each column takes its share
/// of the merged width of the row with the smallest span covering it.
#[verifier::loop_isolation(false)]
pub fn normalized_width(
    widths: &Vec<Vec<usize>>,
    styles: &Vec<Vec<Style>>,
    count_rows: usize,
    count_columns: usize,
) -> (r: Vec<usize>)
    requires
        count_rows == styles@.len(),
        count_rows <= widths@.len(),
        forall|j: int| 0 <= j < count_rows ==> count_columns == (#[trigger] styles@[j])@.len(),
        forall|j: int| 0 <= j < count_rows ==> count_columns <= (#[trigger] widths@[j])@.len(),
    ensures
        r@ == spec_normalized_width(
            view2(styles@),
            view2(widths@),
            count_rows as int,
            count_columns as int,
        ),
        r@.len() == count_columns,
{
    let ghost st2 = view2(styles@);
    let ghost w2 = view2(widths@);
    let mut v: Vec<usize> = Vec::new();
    let mut i0: usize = 0;
    while i0 < count_columns
        invariant
            i0 <= count_columns,
            v@ =~= Seq::new(i0 as nat, |i: int| 0usize),
        decreases count_columns - i0,
    {
        v.push(0);
        proof {
            assert(v@ =~= Seq::new(i0 as nat + 1, |i: int| 0usize));
        }
        i0 = i0 + 1;
    }
    let mut col: usize = 0;
    let mut skip: usize = 0;
    while col < count_columns
        invariant
            col <= count_columns,
            v@.len() == count_columns,
            norm_go(
                st2,
                w2,
                count_rows as int,
                count_columns as int,
                col as int,
                skip as int,
                v@,
            ) == spec_normalized_width(st2, w2, count_rows as int, count_columns as int),
        decreases count_columns - col,
    {
        if skip > 0 {
            skip = skip - 1;
            col = col + 1;
        } else {
            let mut row: usize = 0;
            let mut found = false;
            let mut f: usize = 0;
            while f < count_rows
                invariant
                    f <= count_rows,
                    col < count_columns,
                    found ==> row < f && st2[row as int][col as int].span > 0,
                    min_span_row_from(st2, count_rows as int, col as int, 0)
                        == min_span_row_from_partial(
                        st2,
                        count_rows as int,
                        col as int,
                        f as int,
                        found,
                        row as int,
                    ),
                decreases count_rows - f,
            {
                proof {
                    assert(st2[f as int] == styles@[f as int]@);
                    if found {
                        assert(st2[row as int] == styles@[row as int]@);
                    }
                }
                if styles[f][col].span > 0 && (!found || styles[f][col].span
                    < styles[row][col].span) {
                    row = f;
                    found = true;
                }
                f = f + 1;
            }
            if found {
                proof {
                    assert(st2[row as int] == styles@[row as int]@);
                    assert(w2[row as int] == widths@[row as int]@);
                }
                let span = styles[row][col].span;
                let mut width = sub_clamped(widths[row][col], span - 1);
                let ghost gwidth = width as int;
                let ghost v0 = v@;
                let mut off: usize = 0;
                while width > 0
                    invariant
                        col < count_columns,
                        span >= 1,
                        off < span,
                        v@.len() == count_columns,
                        dist_units(
                            v@,
                            count_columns as int,
                            col as int,
                            span as int,
                            width as int,
                            col + off,
                        ) == dist_units(
                            v0,
                            count_columns as int,
                            col as int,
                            span as int,
                            gwidth,
                            col as int,
                        ),
                    decreases width,
                {
                    if off < count_columns - col {
                        let p = col + off;
                        let cur = v[p];
                        v[p] = add_capped(cur, 1);
                    }
                    width = width - 1;
                    if off + 1 >= span {
                        off = 0;
                    } else {
                        off = off + 1;
                    }
                }
                skip = span - 1;
                col = col + 1;
            } else {
                skip = 0;
                col = col + 1;
            }
        }
    }
    v
}

/// The running minimum of [`min_span_row_from`] after the rows before `f`
/// were examined: `found` says whether any row with a nonzero span was
/// seen and `best` is the earliest row with the smallest span so far.
pub open spec fn min_span_row_from_partial(
    st2: Seq<Seq<Style>>,
    rows: int,
    col: int,
    f: int,
    found: bool,
    best: int,
) -> int {
    let rest = min_span_row_from(st2, rows, col, f);
    if found {
        if rest < 0 || st2[best][col].span <= st2[rest][col].span {
            best
        } else {
            rest
        }
    } else {
        rest
    }
}

} // verus!

verus! {

/// The number of vertical border characters a rendered content row shows:
/// the left edge connector, if present, plus one connector after each
/// visible cell that has one.
pub open spec fn count_borders_upto(bl: Seq<BorderLine>, st: Seq<Style>, c: int) -> usize
    decreases c,
{
    if c <= 0 {
        if bl.len() > 0 && bl[0].connector1 is Some {
            1
        } else {
            0
        }
    } else {
        let p = count_borders_upto(bl, st, c - 1);
        if visible(st, c - 1) && bl[c - 1].connector2 is Some {
            cadd(p, 1)
        } else {
            p
        }
    }
}

/// The number of vertical border characters a rendered content row shows.
#[verifier::loop_isolation(false)]
pub fn count_borders(bl: &Vec<BorderLine>, st: &Vec<Style>, count_columns: usize) -> (r: usize)
    requires
        count_columns <= bl@.len(),
        count_columns <= st@.len(),
    ensures
        r == count_borders_upto(bl@, st@, count_columns as int),
{
    let mut acc: usize = if bl.len() > 0 && bl[0].connector1.is_some() {
        1
    } else {
        0
    };
    let mut c: usize = 0;
    while c < count_columns
        invariant
            c <= count_columns,
            acc == count_borders_upto(bl@, st@, c as int),
        decreases count_columns - c,
    {
        if is_cell_visible(st, c) && bl[c].connector2.is_some() {
            acc = add_capped(acc, 1);
        }
        c = c + 1;
    }
    acc
}

/// The sum of the first `c` widths of one row.
pub open spec fn sum_widths_upto(w: Seq<usize>, c: int) -> usize
    decreases c,
{
    if c <= 0 {
        0
    } else {
        cadd(sum_widths_upto(w, c - 1), w[c - 1])
    }
}

/// The total printed width of the grid: the first row's cell widths, its
/// border characters, and the left and right margins.
pub open spec fn spec_total_width(
    w2: Seq<Seq<usize>>,
    st2: Seq<Seq<Style>>,
    bl2: Seq<Seq<BorderLine>>,
    margin: crate::types::Margin,
) -> usize {
    let content = if w2.len() > 0 {
        sum_widths_upto(w2[0], w2[0].len() as int)
    } else {
        0
    };
    let borders = if bl2.len() > 0 {
        count_borders_upto(bl2[0], st2[0], bl2[0].len() as int)
    } else {
        0
    };
    cadd(cadd(cadd(content, borders), margin.left.size), margin.right.size)
}

/// The total printed width of the grid, margins and all.
#[verifier::loop_isolation(false)]
pub fn total_width(
    widths: &Vec<Vec<usize>>,
    styles: &Vec<Vec<Style>>,
    borders: &Vec<Vec<BorderLine>>,
    margin: &crate::types::Margin,
) -> (r: usize)
    requires
        widths@.len() > 0,
        borders@.len() > 0 ==> styles@.len() > 0,
        borders@.len() > 0 ==> borders@[0]@.len() <= styles@[0]@.len(),
    ensures
        r == spec_total_width(view2(widths@), view2(styles@), view2(borders@), *margin),
{
    let w0 = &widths[0];
    let mut content: usize = 0;
    let mut c: usize = 0;
    while c < w0.len()
        invariant
            c <= w0@.len(),
            content == sum_widths_upto(w0@, c as int),
        decreases w0@.len() - c,
    {
        content = add_capped(content, w0[c]);
        c = c + 1;
    }
    let nb: usize = if borders.len() > 0 {
        count_borders(&borders[0], &styles[0], borders[0].len())
    } else {
        0
    };
    proof {
        assert(view2(widths@)[0] == widths@[0]@);
        if borders@.len() > 0 {
            assert(view2(borders@)[0] == borders@[0]@);
            assert(view2(styles@)[0] == styles@[0]@);
        }
    }
    add_capped(add_capped(add_capped(content, nb), margin.left.size), margin.right.size)
}

} // verus!
