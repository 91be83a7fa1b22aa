//! Grid-wide laws: statements that tie several operations of the library
//! together, proved once and for all inputs they speak of.

use vstd::prelude::*;

use crate::borders::BorderLine;
use crate::grid::Grid;
use crate::spans::out_of_scope_row;
use crate::types::Style;
use crate::width::complete_fold;
use crate::width::range_complete;
use crate::width::spec_row_width;

verus! {

proof fn lemma_complete_fold_agree(
    st2: Seq<Seq<Style>>,
    w2: Seq<Seq<usize>>,
    bl2: Seq<Seq<BorderLine>>,
    start: int,
    end: int,
    r: int,
)
    requires
        complete_fold(st2, w2, bl2, start, end, r) is Some,
        (complete_fold(st2, w2, bl2, start, end, r)->0).1,
    ensures
        forall|j: int|
            0 <= j < r && !out_of_scope_row(st2[j], start, end) ==> spec_row_width(
                st2[j],
                w2[j],
                bl2[j],
                start,
                end,
            ) == (complete_fold(st2, w2, bl2, start, end, r)->0).0,
    decreases r,
{
    if r > 0 {
        let acc = complete_fold(st2, w2, bl2, start, end, r - 1);
        if out_of_scope_row(st2[r - 1], start, end) {
            lemma_complete_fold_agree(st2, w2, bl2, start, end, r - 1);
        } else {
            match acc {
                None => {
                    lemma_complete_fold_none(st2, w2, bl2, start, end, r - 1);
                },
                Some(p) => {
                    assert(p.1);
                    lemma_complete_fold_agree(st2, w2, bl2, start, end, r - 1);
                },
            }
        }
    }
}

proof fn lemma_complete_fold_none(
    st2: Seq<Seq<Style>>,
    w2: Seq<Seq<usize>>,
    bl2: Seq<Seq<BorderLine>>,
    start: int,
    end: int,
    r: int,
)
    requires
        complete_fold(st2, w2, bl2, start, end, r) is None,
    ensures
        forall|j: int| 0 <= j < r ==> out_of_scope_row(#[trigger] st2[j], start, end),
    decreases r,
{
    if r > 0 {
        lemma_complete_fold_none(st2, w2, bl2, start, end, r - 1);
    }
}

/// Any two rows whose span layout fits a column range render that range to
/// the same total width, whenever the resolver's final re-check found the
/// range complete. This is the agreement the balancing passes aim for;
/// the single corrective re-run does not reach it for every nesting of
/// spans, so the re-check result is the premise here.
pub proof fn lemma_complete_range_rows_agree(
    st2: Seq<Seq<Style>>,
    w2: Seq<Seq<usize>>,
    bl2: Seq<Seq<BorderLine>>,
    rows: int,
    start: int,
    end: int,
    r1: int,
    r2: int,
)
    requires
        range_complete(st2, w2, bl2, rows, start, end),
        0 <= r1 < rows,
        0 <= r2 < rows,
        !out_of_scope_row(st2[r1], start, end),
        !out_of_scope_row(st2[r2], start, end),
    ensures
        spec_row_width(st2[r1], w2[r1], bl2[r1], start, end) == spec_row_width(
            st2[r2],
            w2[r2],
            bl2[r2],
            start,
            end,
        ),
{
    lemma_complete_fold_agree(st2, w2, bl2, start, end, rows);
}

} // verus!

verus! {

proof fn lemma_rows_out_eq(e: Grid, g: Grid, r: int)
    requires
        e.rows() == g.rows(),
        e.cols() == g.cols(),
        e.prep_cells() == g.prep_cells(),
        e.prep_styles() == g.prep_styles(),
        e.grid_widths() == g.grid_widths(),
        e.grid_heights() == g.grid_heights(),
        e.inner_borders() == g.inner_borders(),
        e.margin == g.margin,
        forall|k: int| 0 <= k <= r ==> #[trigger] e.split_row_of(k) == g.split_row_of(k),
    ensures
        e.rows_out_upto(r) == g.rows_out_upto(r),
    decreases r,
{
    if r > 0 {
        lemma_rows_out_eq(e, g, r - 1);
    }
}

/// Extracting the full cell rectangle of a grid and rendering the copy
/// produces the very characters the source grid renders, for grids whose
/// resolved formatting switches are the defaults, whose margins are empty
/// and whose split rows carry no override line. `e` stands to `g` exactly
/// as `extract` over the whole grid leaves its result.
pub proof fn lemma_extract_full_render(g: Grid, e: Grid)
    requires
        g.wf(),
        e.wf(),
        e.rows() == g.rows(),
        e.cols() == g.cols(),
        forall|r: int, c: int|
            0 <= r < g.rows() && 0 <= c < g.cols() ==> (#[trigger] e.cells@[r]@[c])@
                == g.cells@[r]@[c]@,
        forall|r: int, c: int|
            0 <= r < g.rows() && 0 <= c < g.cols() ==> #[trigger] e.styles.cell_style(r, c)
                == (Style {
                formatting: crate::types::default_style().formatting,
                ..g.styles.cell_style(r, c)
            }),
        forall|r: int, c: int|
            0 <= r < g.rows() && 0 <= c < g.cols()
                ==> (#[trigger] g.styles.cell_style(r, c)).formatting
                == crate::types::default_style().formatting,
        forall|k: int| #![trigger e.borders.has_vertical(k)]
            e.borders.has_vertical(k) == (0 <= k <= g.cols() && g.borders.has_vertical(k)),
        forall|k: int| #![trigger e.borders.has_horizontal(k)]
            e.borders.has_horizontal(k) == (0 <= k <= g.rows() && g.borders.has_horizontal(k)),
        forall|r: int, k: int|
            0 <= r < g.rows() && 0 <= k <= g.cols() ==> #[trigger] e.borders.vertical_char(r, k)
                == g.borders.vertical_char(r, k),
        forall|k: int, c: int|
            0 <= k <= g.rows() && 0 <= c < g.cols() ==> #[trigger] e.borders.horizontal_char(k, c)
                == g.borders.horizontal_char(k, c),
        forall|k: int, l: int|
            0 <= k <= g.rows() && 0 <= l <= g.cols() ==> #[trigger] e.borders.inter(k, l)
                == g.borders.inter(k, l),
        e.margin == crate::types::default_margin(),
        g.margin == crate::types::default_margin(),
        forall|k: int|
            0 <= k <= g.rows() ==> (#[trigger] e.override_split_lines@[k]) is None && (
            #[trigger] g.override_split_lines@[k]) is None,
    ensures
        e.spec_render() == g.spec_render(),
{
    if g.rows() == 0 || g.cols() == 0 {
        assert(e.spec_render() =~= g.spec_render());
    } else {
        assert(e.resolved_styles() =~~= g.resolved_styles());
        assert(e.cell_lines() =~~= g.cell_lines());
        assert(e.prep_styles() =~~= g.prep_styles());
        assert(e.prep_cells() =~~= g.prep_cells());
        assert forall|r: int|
            0 <= r < g.rows() implies #[trigger] e.borders.spec_inner_row(r)
            == g.borders.spec_inner_row(r) by {
            assert(e.borders.spec_inner_row(r) =~= g.borders.spec_inner_row(r));
        }
        assert(e.inner_borders() =~~= g.inner_borders());
        assert(e.grid_widths() == g.grid_widths());
        assert(e.grid_heights() == g.grid_heights());
        assert(e.grid_normal() == g.grid_normal());
        assert(e.grid_total_width() == g.grid_total_width());
        assert forall|k: int|
            0 <= k <= g.rows() implies #[trigger] e.split_row_of(k) == g.split_row_of(k) by {
            assert(e.borders.spec_get_row(k) =~= g.borders.spec_get_row(k));
            assert(e.override_of(k) == g.override_of(k));
        }
        lemma_rows_out_eq(e, g, g.rows());
        assert(e.spec_render() == g.spec_render());
    }
}

} // verus!

verus! {

/// Whether every cell of the grid that is not rendered has width zero.
pub open spec fn invisible_zero(st2: Seq<Seq<Style>>, w2: Seq<Seq<usize>>, rows: int, cols: int) -> bool {
    forall|r: int, c: int|
        0 <= r < rows && 0 <= c < cols && !crate::spans::visible(st2[r], c)
            ==> #[trigger] w2[r][c] == 0
}

/// Whether every row of the width table has one slot per column.
pub open spec fn w_shape(w2: Seq<Seq<usize>>, rows: int, cols: int) -> bool {
    w2.len() == rows && forall|r: int| 0 <= r < rows ==> (#[trigger] w2[r]).len() == cols
}

proof fn lemma_vis_all_visible(st: Seq<Style>, start: int, end: int)
    ensures
        forall|k: int|
            0 <= k < crate::width::vis_positions(st, start, end).len()
                ==> crate::spans::visible(st, #[trigger] crate::width::vis_positions(st, start, end)[k])
                && start <= crate::width::vis_positions(st, start, end)[k] < end,
    decreases end - start,
{
    if start < end {
        lemma_vis_all_visible(st, start + 1, end);
        let rest = crate::width::vis_positions(st, start + 1, end);
        if crate::spans::visible(st, start) {
            let s = seq![start] + rest;
            assert forall|k: int|
                0 <= k < s.len() implies crate::spans::visible(st, #[trigger] s[k]) && start
                <= s[k] < end by {
                if k == 0 {
                    assert(s[0] == start);
                } else {
                    assert(s[k] == rest[k - 1]);
                }
            }
            assert(crate::width::vis_positions(st, start, end) == s);
        }
    }
}

proof fn lemma_inc_cells_invisible(
    st: Seq<Style>,
    w: Seq<usize>,
    vis: Seq<int>,
    inc: int,
    idx: int,
    c: int,
)
    requires
        forall|k: int|
            0 <= k < vis.len() ==> crate::spans::visible(st, #[trigger] vis[k]) && 0 <= vis[k]
                < w.len(),
        0 <= idx < vis.len() || vis.len() == 0,
        0 <= c < w.len(),
        !crate::spans::visible(st, c),
    ensures
        crate::width::inc_cells(w, vis, inc, idx)[c] == w[c],
        crate::width::inc_cells(w, vis, inc, idx).len() == w.len(),
    decreases inc,
{
    if inc > 0 && vis.len() > 0 {
        let p = vis[idx];
        let w2 = w.update(p, crate::width::cadd(w[p], 1));
        let next: int = if idx + 1 >= vis.len() {
            0
        } else {
            idx + 1
        };
        assert(p != c);
        lemma_inc_cells_invisible(st, w2, vis, inc - 1, next, c);
    }
}

proof fn lemma_inc_len_only(w: Seq<usize>, vis: Seq<int>, inc: int, idx: int)
    requires
        forall|k: int| 0 <= k < vis.len() ==> 0 <= #[trigger] vis[k] < w.len(),
        0 <= idx < vis.len() || vis.len() == 0,
    ensures
        crate::width::inc_cells(w, vis, inc, idx).len() == w.len(),
    decreases inc,
{
    if inc > 0 && vis.len() > 0 {
        let p = vis[idx];
        let next: int = if idx + 1 >= vis.len() {
            0
        } else {
            idx + 1
        };
        lemma_inc_len_only(w.update(p, crate::width::cadd(w[p], 1)), vis, inc - 1, next);
    }
}

proof fn lemma_raise_invisible(
    st2: Seq<Seq<Style>>,
    bl2: Seq<Seq<crate::borders::BorderLine>>,
    w2: Seq<Seq<usize>>,
    rows: int,
    cols: int,
    start: int,
    end: int,
    mr: int,
    mw: usize,
    r: int,
)
    requires
        w_shape(w2, rows, cols),
        invisible_zero(st2, w2, rows, cols),
        st2.len() == rows,
        forall|j: int| 0 <= j < rows ==> (#[trigger] st2[j]).len() == cols,
        0 <= start < end <= cols,
        r <= rows,
    ensures
        w_shape(crate::width::raise_rows_upto(st2, bl2, w2, start, end, mr, mw, r), rows, cols),
        invisible_zero(
            st2,
            crate::width::raise_rows_upto(st2, bl2, w2, start, end, mr, mw, r),
            rows,
            cols,
        ),
    decreases r,
{
    if r > 0 {
        lemma_raise_invisible(st2, bl2, w2, rows, cols, start, end, mr, mw, r - 1);
        let p = crate::width::raise_rows_upto(st2, bl2, w2, start, end, mr, mw, r - 1);
        let res = crate::width::raise_rows_upto(st2, bl2, w2, start, end, mr, mw, r);
        if r - 1 == mr || crate::spans::out_of_scope_row(st2[r - 1], start, end) {
        } else {
            let vis = crate::width::vis_positions(st2[r - 1], start, end);
            lemma_vis_all_visible(st2[r - 1], start, end);
            let rw = crate::width::spec_row_width(st2[r - 1], p[r - 1], bl2[r - 1], start, end);
            let inc = crate::width::csub(mw, rw) as int;
            assert forall|rr: int, cc: int|
                0 <= rr < rows && 0 <= cc < cols && !crate::spans::visible(st2[rr], cc)
                implies #[trigger] res[rr][cc] == 0 by {
                if rr == r - 1 {
                    lemma_inc_cells_invisible(st2[r - 1], p[r - 1], vis, inc, 0, cc);
                } else {
                    assert(res[rr] == p[rr]);
                }
            }
            assert forall|j: int| 0 <= j < rows implies (#[trigger] res[j]).len() == cols by {
                if j == r - 1 {
                    lemma_inc_len_only(p[r - 1], vis, inc, 0);
                }
            }
        }
    }
}

proof fn lemma_patch_row_invisible(
    st2: Seq<Seq<Style>>,
    w2: Seq<Seq<usize>>,
    rows: int,
    cols: int,
    start: int,
    end: int,
    mr: int,
    row: int,
    c: int,
)
    requires
        w_shape(w2, rows, cols),
        invisible_zero(st2, w2, rows, cols),
        st2.len() == rows,
        forall|j: int| 0 <= j < rows ==> (#[trigger] st2[j]).len() == cols,
        0 <= start <= end <= cols,
        0 <= row < rows,
        c <= end,
    ensures
        crate::width::patch_row_upto(st2, w2, rows, start, end, mr, row, c).len() == cols,
        forall|cc: int|
            0 <= cc < cols && !crate::spans::visible(st2[row], cc)
                ==> #[trigger] crate::width::patch_row_upto(st2, w2, rows, start, end, mr, row, c)[
                cc
            ] == 0,
    decreases c - start,
{
    if c > start {
        lemma_patch_row_invisible(st2, w2, rows, cols, start, end, mr, row, c - 1);
        let p = crate::width::patch_row_upto(st2, w2, rows, start, end, mr, row, c - 1);
        if crate::spans::visible(st2[row], c - 1) {
            let src = crate::width::same_span_source(st2, rows, start, end, mr, row, c - 1, 0);
            if src >= 0 {
                lemma_source_range(st2, rows, start, end, mr, row, c - 1, 0);
            }
        }
    }
}

proof fn lemma_source_range(
    st2: Seq<Seq<Style>>,
    rows: int,
    start: int,
    end: int,
    mr: int,
    row: int,
    col: int,
    from: int,
)
    requires
        0 <= from,
    ensures
        crate::width::same_span_source(st2, rows, start, end, mr, row, col, from) == -1 || (from
            <= crate::width::same_span_source(st2, rows, start, end, mr, row, col, from) < rows),
    decreases rows - from,
{
    if from < rows {
        lemma_source_range(st2, rows, start, end, mr, row, col, from + 1);
    }
}

proof fn lemma_patch_rows_invisible(
    st2: Seq<Seq<Style>>,
    w2: Seq<Seq<usize>>,
    rows: int,
    cols: int,
    start: int,
    end: int,
    mr: int,
    r: int,
)
    requires
        w_shape(w2, rows, cols),
        invisible_zero(st2, w2, rows, cols),
        st2.len() == rows,
        forall|j: int| 0 <= j < rows ==> (#[trigger] st2[j]).len() == cols,
        0 <= start <= end <= cols,
        r <= rows,
    ensures
        w_shape(crate::width::patch_rows_upto(st2, w2, rows, start, end, mr, r), rows, cols),
        invisible_zero(
            st2,
            crate::width::patch_rows_upto(st2, w2, rows, start, end, mr, r),
            rows,
            cols,
        ),
    decreases r,
{
    if r > 0 {
        lemma_patch_rows_invisible(st2, w2, rows, cols, start, end, mr, r - 1);
        let p = crate::width::patch_rows_upto(st2, w2, rows, start, end, mr, r - 1);
        let res = crate::width::patch_rows_upto(st2, w2, rows, start, end, mr, r);
        if r - 1 != mr && crate::spans::out_of_scope_row(st2[r - 1], start, end) {
            lemma_patch_rows_deep(st2, w2, rows, cols, start, end, mr, r, p);
        }
    }
}

proof fn lemma_patch_rows_deep(
    st2: Seq<Seq<Style>>,
    w2: Seq<Seq<usize>>,
    rows: int,
    cols: int,
    start: int,
    end: int,
    mr: int,
    r: int,
    p: Seq<Seq<usize>>,
)
    requires
        p == crate::width::patch_rows_upto(st2, w2, rows, start, end, mr, r - 1),
        w_shape(p, rows, cols),
        invisible_zero(st2, p, rows, cols),
        st2.len() == rows,
        forall|j: int| 0 <= j < rows ==> (#[trigger] st2[j]).len() == cols,
        0 <= start <= end <= cols,
        0 < r <= rows,
        r - 1 != mr && crate::spans::out_of_scope_row(st2[r - 1], start, end),
    ensures
        w_shape(crate::width::patch_rows_upto(st2, w2, rows, start, end, mr, r), rows, cols),
        invisible_zero(
            st2,
            crate::width::patch_rows_upto(st2, w2, rows, start, end, mr, r),
            rows,
            cols,
        ),
{
    let newrow = crate::width::patch_row_upto(st2, p, rows, start, end, mr, r - 1, end);
    lemma_patch_row_invisible(st2, p, rows, cols, start, end, mr, r - 1, end);
    let res = crate::width::patch_rows_upto(st2, w2, rows, start, end, mr, r);
    assert(res == p.update(r - 1, newrow));
    assert forall|rr: int, cc: int|
        0 <= rr < rows && 0 <= cc < cols && !crate::spans::visible(st2[rr], cc)
        implies #[trigger] res[rr][cc] == 0 by {
        if rr != r - 1 {
            assert(res[rr] == p[rr]);
        }
    }
}

proof fn lemma_adjust_range_invisible(
    st2: Seq<Seq<Style>>,
    bl2: Seq<Seq<crate::borders::BorderLine>>,
    w2: Seq<Seq<usize>>,
    rows: int,
    cols: int,
    start: int,
    end: int,
)
    requires
        w_shape(w2, rows, cols),
        invisible_zero(st2, w2, rows, cols),
        st2.len() == rows,
        forall|j: int| 0 <= j < rows ==> (#[trigger] st2[j]).len() == cols,
        0 <= start < end <= cols,
    ensures
        w_shape(crate::width::spec_adjust_range(st2, bl2, w2, rows, start, end), rows, cols),
        invisible_zero(
            st2,
            crate::width::spec_adjust_range(st2, bl2, w2, rows, start, end),
            rows,
            cols,
        ),
{
    if rows <= 0 {
    } else {
        let m = crate::width::scoped_max_upto(st2, w2, bl2, start, end, rows);
        if m.1 == 0 {
        } else {
            lemma_raise_invisible(st2, bl2, w2, rows, cols, start, end, m.0, m.1, rows);
            let a = crate::width::raise_rows_upto(st2, bl2, w2, start, end, m.0, m.1, rows);
            lemma_patch_rows_invisible(st2, a, rows, cols, start, end, m.0, rows);
        }
    }
}

proof fn lemma_passes_invisible(
    st2: Seq<Seq<Style>>,
    bl2: Seq<Seq<crate::borders::BorderLine>>,
    w2: Seq<Seq<usize>>,
    rows: int,
    cols: int,
    span: int,
    s: int,
    two: bool,
)
    requires
        w_shape(w2, rows, cols),
        invisible_zero(st2, w2, rows, cols),
        st2.len() == rows,
        forall|j: int| 0 <= j < rows ==> (#[trigger] st2[j]).len() == cols,
        span >= 1,
    ensures
        !two ==> w_shape(
            crate::width::pass_one_upto(st2, bl2, w2, rows, cols, span, s),
            rows,
            cols,
        ) && invisible_zero(
            st2,
            crate::width::pass_one_upto(st2, bl2, w2, rows, cols, span, s),
            rows,
            cols,
        ),
        two ==> w_shape(
            crate::width::pass_two_upto(st2, bl2, w2, rows, cols, span, s),
            rows,
            cols,
        ) && invisible_zero(
            st2,
            crate::width::pass_two_upto(st2, bl2, w2, rows, cols, span, s),
            rows,
            cols,
        ),
    decreases s,
{
    if s > 0 {
        lemma_passes_invisible(st2, bl2, w2, rows, cols, span, s - 1, two);
        if s - 1 + span <= cols {
            if !two {
                let p = crate::width::pass_one_upto(st2, bl2, w2, rows, cols, span, s - 1);
                lemma_adjust_range_invisible(st2, bl2, p, rows, cols, s - 1, s - 1 + span);
            } else {
                let p = crate::width::pass_two_upto(st2, bl2, w2, rows, cols, span, s - 1);
                if !crate::width::range_complete(st2, p, bl2, rows, s - 1, s - 1 + span) {
                    lemma_adjust_range_invisible(st2, bl2, p, rows, cols, s - 1, s - 1 + span);
                }
            }
        }
    }
}

proof fn lemma_spans_invisible(
    st2: Seq<Seq<Style>>,
    bl2: Seq<Seq<crate::borders::BorderLine>>,
    cells2: Seq<Seq<Seq<Seq<char>>>>,
    rows: int,
    cols: int,
    k: int,
)
    requires
        st2.len() == rows,
        forall|j: int| 0 <= j < rows ==> (#[trigger] st2[j]).len() == cols,
    ensures
        w_shape(crate::width::widths_after_span(st2, bl2, cells2, rows, cols, k), rows, cols),
        invisible_zero(
            st2,
            crate::width::widths_after_span(st2, bl2, cells2, rows, cols, k),
            rows,
            cols,
        ),
    decreases k,
{
    if k <= 0 {
        assert(w_shape(crate::width::seed_widths(st2, cells2, rows, cols), rows, cols));
    } else {
        lemma_spans_invisible(st2, bl2, cells2, rows, cols, k - 1);
        let p = crate::width::widths_after_span(st2, bl2, cells2, rows, cols, k - 1);
        if crate::width::span_present(st2, rows, cols, k) {
            lemma_passes_invisible(st2, bl2, p, rows, cols, k, cols, false);
            let q = crate::width::pass_one_upto(st2, bl2, p, rows, cols, k, cols);
            lemma_passes_invisible(st2, bl2, q, rows, cols, k, cols, true);
        }
    }
}

/// A cell that is not rendered — its own span zero, or an earlier cell
/// spanning over it — contributes no width at all: the resolver assigns
/// it width zero, whatever the rest of the grid holds.
pub proof fn lemma_zero_span_excluded(
    st2: Seq<Seq<Style>>,
    bl2: Seq<Seq<crate::borders::BorderLine>>,
    cells2: Seq<Seq<Seq<Seq<char>>>>,
    rows: int,
    cols: int,
    r: int,
    c: int,
)
    requires
        st2.len() == rows,
        forall|j: int| 0 <= j < rows ==> (#[trigger] st2[j]).len() == cols,
        0 <= r < rows,
        0 <= c < cols,
        !crate::spans::visible(st2[r], c),
    ensures
        crate::width::spec_columns_width(st2, bl2, cells2, rows, cols)[r][c] == 0,
{
    lemma_spans_invisible(st2, bl2, cells2, rows, cols, cols);
}

} // verus!

verus! {

/// Whether every line of a cell, raw and trimmed, fits into `width` less
/// the cell's horizontal padding, and occupies one display column per
/// character.
pub open spec fn narrow_fits(cell: Seq<Seq<char>>, st: Style, width: int) -> bool {
    &&& st.padding.left.size + st.padding.right.size <= width
    &&& forall|i: int|
        0 <= i < cell.len() ==> crate::text::str_width(#[trigger] cell[i]) == cell[i].len()
    &&& forall|i: int|
        0 <= i < cell.len() ==> crate::text::str_width(
            crate::text::spec_trim(#[trigger] cell[i]),
        ) == crate::text::spec_trim(cell[i]).len()
    &&& forall|i: int|
        0 <= i < cell.len() ==> crate::text::str_width(#[trigger] cell[i]) + st.padding.left.size
            + st.padding.right.size <= width
    &&& forall|i: int|
        0 <= i < cell.len() ==> crate::text::str_width(
            crate::text::spec_trim(#[trigger] cell[i]),
        ) + st.padding.left.size + st.padding.right.size <= width
}

/// The display width of one cell line as the renderer measures it, the
/// trimmed line when horizontal trimming is on.
pub open spec fn eff_line_width(lines: Seq<Seq<char>>, ht: bool, i: int) -> int {
    if ht {
        crate::text::str_width(crate::text::spec_trim(lines[i])) as int
    } else {
        crate::text::str_width(lines[i]) as int
    }
}

proof fn lemma_trimmed_max_bound(lines: Seq<Seq<char>>, ht: bool, j: int, bound: int)
    requires
        forall|i: int|
            0 <= i < lines.len() ==> crate::text::str_width(#[trigger] lines[i]) <= bound,
        forall|i: int|
            0 <= i < lines.len() ==> crate::text::str_width(
                crate::text::spec_trim(#[trigger] lines[i]),
            ) <= bound,
        j <= lines.len(),
        0 <= bound <= usize::MAX,
    ensures
        crate::render::trimmed_max_upto(lines, ht, j) <= bound,
        forall|i: int|
            0 <= i < j ==> #[trigger] eff_line_width(lines, ht, i)
                <= crate::render::trimmed_max_upto(lines, ht, j),
    decreases j,
{
    if j > 0 {
        lemma_trimmed_max_bound(lines, ht, j - 1, bound);
        assert forall|i: int|
            0 <= i < j implies #[trigger] eff_line_width(lines, ht, i)
            <= crate::render::trimmed_max_upto(lines, ht, j) by {
            if i < j - 1 {
                assert(eff_line_width(lines, ht, i) <= crate::render::trimmed_max_upto(
                    lines,
                    ht,
                    j - 1,
                ));
            } else {
                assert(i == j - 1);
                assert(eff_line_width(lines, ht, i) <= bound);
                assert(crate::text::cap_usize(eff_line_width(lines, ht, i))
                    == eff_line_width(lines, ht, i));
            }
        }
    }
}

/// One rendered line of a cell occupies exactly the cell's width in
/// characters, whenever the cell's lines are one column per character and
/// fit the width with the padding.
pub proof fn lemma_cell_line_len(
    line: int,
    cell: Seq<Seq<char>>,
    st: Style,
    width: int,
    height: int,
)
    requires
        narrow_fits(cell, st, width),
        0 <= width <= usize::MAX,
    ensures
        crate::render::spec_build_line_cell(line, cell, st, width, height).len() == width,
{
    let c2 = if st.formatting.vertical_trim {
        crate::render::spec_skip_blank(cell)
    } else {
        cell
    };
    if st.formatting.vertical_trim {
        crate::render::lemma_blank_prefix_bound(cell);
        crate::render::lemma_blank_suffix_bound(cell);
        if crate::render::blank_prefix(cell) < cell.len() {
            crate::render::lemma_blank_sum(cell);
        }
        assert forall|i: int| 0 <= i < c2.len() implies #[trigger] c2[i]
            == cell[crate::render::blank_prefix(cell) + i] by {}
    }
    assert(narrow_fits(c2, st, width)) by {
        if st.formatting.vertical_trim {
            assert forall|i: int|
                0 <= i < c2.len() implies crate::text::str_width(#[trigger] c2[i]) == c2[i].len()
                && crate::text::str_width(crate::text::spec_trim(c2[i]))
                == crate::text::spec_trim(c2[i]).len() && crate::text::str_width(c2[i])
                + st.padding.left.size + st.padding.right.size <= width && crate::text::str_width(
                crate::text::spec_trim(c2[i]),
            ) + st.padding.left.size + st.padding.right.size <= width by {
                assert(c2[i] == cell[crate::render::blank_prefix(cell) + i]);
            }
        }
    }
    let ti = crate::render::spec_top_indent(c2.len() as int, st, height);
    if ti > line {
    } else {
        let cli = line - ti;
        if cli >= c2.len() {
        } else {
            let inner = crate::text::clamped_sub(
                crate::text::clamped_sub(width, st.padding.left.size as int),
                st.padding.right.size as int,
            );
            assert(inner == width - st.padding.left.size - st.padding.right.size);
            let text = if st.formatting.horizontal_trim {
                crate::text::spec_trim(c2[cli])
            } else {
                c2[cli]
            };
            if st.formatting.allow_lines_alignement {
            } else {
                lemma_trimmed_max_bound(c2, st.formatting.horizontal_trim, c2.len() as int, inner);
                assert(eff_line_width(c2, st.formatting.horizontal_trim, cli)
                    == crate::text::str_width(text));
            }
        }
    }
}

/// The characters the first `c` columns of a row show on one text line:
/// each rendered cell its width and left connector, the right edge after
/// the last column.
pub open spec fn printed_row_width(
    st_row: Seq<Style>,
    w: Seq<usize>,
    bl: Seq<BorderLine>,
    cols: int,
    c: int,
) -> int
    decreases c,
{
    if c <= 0 {
        0
    } else {
        printed_row_width(st_row, w, bl, cols, c - 1) + (if crate::spans::visible(st_row, c - 1) {
            w[c - 1] + (if bl[c - 1].connector1 is Some {
                1int
            } else {
                0
            })
        } else {
            0
        }) + (if c == cols && bl[c - 1].connector2 is Some {
            1int
        } else {
            0
        })
    }
}

proof fn lemma_line_upto_len(
    cells_row: Seq<Seq<Seq<char>>>,
    st_row: Seq<Style>,
    w: Seq<usize>,
    bl: Seq<BorderLine>,
    cols: int,
    height: int,
    line: int,
    c: int,
)
    requires
        forall|j: int|
            0 <= j < cols && crate::spans::visible(st_row, j)
                ==> crate::render::spec_build_line_cell(
                line,
                #[trigger] cells_row[j],
                st_row[j],
                w[j] as int,
                height,
            ).len() == w[j],
        c <= cols,
    ensures
        crate::render::build_line_upto(cells_row, st_row, w, bl, cols, height, line, c).len()
            == printed_row_width(st_row, w, bl, cols, c),
    decreases c,
{
    if c > 0 {
        lemma_line_upto_len(cells_row, st_row, w, bl, cols, height, line, c - 1);
    }
}

/// For every row whose rendered cells each fill exactly their resolved
/// width, the printed line's character count is the margins, the line
/// break, and the sum of the rendered column widths plus the border
/// characters among and around them.
pub proof fn lemma_row_line_length(
    cells_row: Seq<Seq<Seq<char>>>,
    st_row: Seq<Style>,
    w: Seq<usize>,
    bl: Seq<BorderLine>,
    cols: int,
    height: int,
    line: int,
    margin: crate::types::Margin,
)
    requires
        forall|j: int|
            0 <= j < cols && crate::spans::visible(st_row, j) ==> narrow_fits(
                #[trigger] cells_row[j],
                st_row[j],
                w[j] as int,
            ),
    ensures
        crate::render::spec_build_line(
            cells_row,
            st_row,
            w,
            bl,
            cols,
            height,
            line,
            margin,
        ).len() == margin.left.size + printed_row_width(st_row, w, bl, cols, cols)
            + margin.right.size + 1,
{
    assert forall|j: int|
        0 <= j < cols && crate::spans::visible(st_row, j)
        implies crate::render::spec_build_line_cell(
        line,
        #[trigger] cells_row[j],
        st_row[j],
        w[j] as int,
        height,
    ).len() == w[j] by {
        lemma_cell_line_len(line, cells_row[j], st_row[j], w[j] as int, height);
    }
    lemma_line_upto_len(cells_row, st_row, w, bl, cols, height, line, cols);
}

} // verus!
