//! The renderer: emits the finished character grid line by line from the
//! resolved geometry — cell text aligned inside its width, padding and
//! margin fills, and split lines with their intersections.

use vstd::prelude::*;

use crate::borders::BorderLine;

use crate::text::cap_usize;
use crate::text::clamped_sub;
use crate::text::line_is_blank;
use crate::text::push_char;
use crate::text::repeat_char;
use crate::text::repeat_char_seq;
use crate::text::spec_trim;
use crate::text::str_width;
use crate::text::sub_clamped;
use crate::text::add_capped;
use crate::text::is_blank;
use crate::text::trim_str;
use crate::types::AlignmentHorizontal;
use crate::types::AlignmentVertical;
use crate::types::Style;

verus! {

/// `n` spaces.
pub open spec fn sp(n: int) -> Seq<char> {
    repeat_char_seq(' ', n)
}

/// The text aligned within `width` display columns: fill space goes after
/// the text, before it, or on both sides with the odd column on the right.
pub open spec fn spec_align(a: AlignmentHorizontal, text: Seq<char>, width: int) -> Seq<char> {
    let diff = clamped_sub(width, str_width(text) as int);
    match a {
        AlignmentHorizontal::Left => text + sp(diff),
        AlignmentHorizontal::Right => sp(diff) + text,
        AlignmentHorizontal::Center => sp(diff / 2) + text + sp(diff - diff / 2),
    }
}

/// The text aligned as if it were `max_text_width` columns wide, so that
/// all lines of one cell stay flush with its widest line.
pub open spec fn spec_align_with_max(
    a: AlignmentHorizontal,
    text: Seq<char>,
    width: int,
    max_text_width: int,
) -> Seq<char> {
    let max_diff = clamped_sub(width, max_text_width);
    let diff = clamped_sub(width, str_width(text) as int);
    match a {
        AlignmentHorizontal::Left => text + sp(diff),
        AlignmentHorizontal::Right => sp(max_diff) + text + sp(clamped_sub(diff, max_diff)),
        AlignmentHorizontal::Center => sp(max_diff / 2) + text + sp(
            clamped_sub(diff, max_diff / 2),
        ),
    }
}

impl AlignmentHorizontal {
    /// Align the text within `width` display columns, filling with spaces.
    pub fn align(&self, text: &str, width: usize) -> (r: String)
        ensures
            r@ == spec_align(*self, text@, width as int),
    {
        let tw = crate::text::display_width(text);
        let diff = sub_clamped(width, tw);
        let mut out = String::new();
        match self {
            AlignmentHorizontal::Left => {
                out.append(text);
                repeat_char(&mut out, ' ', diff);
            },
            AlignmentHorizontal::Right => {
                repeat_char(&mut out, ' ', diff);
                out.append(text);
            },
            AlignmentHorizontal::Center => {
                let left = diff / 2;
                let right = diff - left;
                repeat_char(&mut out, ' ', left);
                out.append(text);
                repeat_char(&mut out, ' ', right);
            },
        }
        proof {
            assert(out@ =~= spec_align(*self, text@, width as int));
        }
        out
    }

    /// Align the text within `width` columns as if it were as wide as the
    /// cell's widest line.
    pub fn align_with_max_width(&self, text: &str, width: usize, max_text_width: usize) -> (r:
        String)
        ensures
            r@ == spec_align_with_max(*self, text@, width as int, max_text_width as int),
    {
        let max_diff = sub_clamped(width, max_text_width);
        let tw = crate::text::display_width(text);
        let diff = sub_clamped(width, tw);
        let mut out = String::new();
        match self {
            AlignmentHorizontal::Left => {
                out.append(text);
                repeat_char(&mut out, ' ', diff);
            },
            AlignmentHorizontal::Right => {
                let rest = sub_clamped(diff, max_diff);
                repeat_char(&mut out, ' ', max_diff);
                out.append(text);
                repeat_char(&mut out, ' ', rest);
            },
            AlignmentHorizontal::Center => {
                let left = max_diff / 2;
                let rest = sub_clamped(diff, left);
                repeat_char(&mut out, ' ', left);
                out.append(text);
                repeat_char(&mut out, ' ', rest);
            },
        }
        proof {
            assert(out@ =~= spec_align_with_max(
                *self,
                text@,
                width as int,
                max_text_width as int,
            ));
        }
        out
    }
}

/// One rendered line of cell text: the left padding fill, the text aligned
/// in the remaining width, and the right padding fill.
pub open spec fn spec_line(text: Seq<char>, width: int, st: Style) -> Seq<char> {
    repeat_char_seq(st.padding.left.fill, st.padding.left.size as int) + spec_align(
        st.alignment_h,
        text,
        clamped_sub(clamped_sub(width, st.padding.left.size as int), st.padding.right.size as int),
    ) + repeat_char_seq(st.padding.right.fill, st.padding.right.size as int)
}

/// Append one rendered line of cell text, aligned to the full width.
pub fn line(out: &mut String, text: &str, width: usize, style: &Style)
    ensures
        final(out)@ == old(out)@ + spec_line(text@, width as int, *style),
{
    repeat_char(out, style.padding.left.fill, style.padding.left.size);
    let inner = sub_clamped(sub_clamped(width, style.padding.left.size), style.padding.right.size);
    let aligned = style.alignment_h.align(text, inner);
    out.append(aligned.as_str());
    repeat_char(out, style.padding.right.fill, style.padding.right.size);
    proof {
        assert(out@ =~= old(out)@ + spec_line(text@, width as int, *style));
    }
}

/// One rendered line of cell text, aligned relative to the cell's widest
/// line rather than the full width.
pub open spec fn spec_line_with_width(
    text: Seq<char>,
    width: int,
    width_text: int,
    st: Style,
) -> Seq<char> {
    repeat_char_seq(st.padding.left.fill, st.padding.left.size as int) + spec_align_with_max(
        st.alignment_h,
        text,
        clamped_sub(clamped_sub(width, st.padding.left.size as int), st.padding.right.size as int),
        width_text,
    ) + repeat_char_seq(st.padding.right.fill, st.padding.right.size as int)
}

/// Append one rendered line of cell text, aligned to the cell's widest
/// line.
pub fn line_with_width(out: &mut String, text: &str, width: usize, width_text: usize, style: &Style)
    ensures
        final(out)@ == old(out)@ + spec_line_with_width(
            text@,
            width as int,
            width_text as int,
            *style,
        ),
{
    repeat_char(out, style.padding.left.fill, style.padding.left.size);
    let inner = sub_clamped(sub_clamped(width, style.padding.left.size), style.padding.right.size);
    let aligned = style.alignment_h.align_with_max_width(text, inner, width_text);
    out.append(aligned.as_str());
    repeat_char(out, style.padding.right.fill, style.padding.right.size);
    proof {
        assert(out@ =~= old(out)@ + spec_line_with_width(
            text@,
            width as int,
            width_text as int,
            *style,
        ));
    }
}

/// The number of leading blank lines of a cell.
pub open spec fn blank_prefix(lines: Seq<Seq<char>>) -> int
    decreases lines.len(),
{
    if lines.len() > 0 && is_blank(lines[0]) {
        1 + blank_prefix(lines.drop_first())
    } else {
        0
    }
}

/// The number of trailing blank lines of a cell.
pub open spec fn blank_suffix(lines: Seq<Seq<char>>) -> int
    decreases lines.len(),
{
    if lines.len() > 0 && is_blank(lines.last()) {
        1 + blank_suffix(lines.drop_last())
    } else {
        0
    }
}

/// The cell's lines with leading and trailing blank lines removed; no line
/// at all if every line is blank.
pub open spec fn spec_skip_blank(lines: Seq<Seq<char>>) -> Seq<Seq<char>> {
    if blank_prefix(lines) == lines.len() {
        Seq::empty()
    } else {
        lines.subrange(blank_prefix(lines), lines.len() - blank_suffix(lines))
    }
}

pub proof fn lemma_blank_prefix_bound(lines: Seq<Seq<char>>)
    ensures
        0 <= blank_prefix(lines) <= lines.len(),
    decreases lines.len(),
{
    if lines.len() > 0 && is_blank(lines[0]) {
        lemma_blank_prefix_bound(lines.drop_first());
    }
}

pub proof fn lemma_blank_suffix_bound(lines: Seq<Seq<char>>)
    ensures
        0 <= blank_suffix(lines) <= lines.len(),
    decreases lines.len(),
{
    if lines.len() > 0 && is_blank(lines.last()) {
        lemma_blank_suffix_bound(lines.drop_last());
    }
}

pub proof fn lemma_blank_sum(lines: Seq<Seq<char>>)
    requires
        blank_prefix(lines) < lines.len(),
    ensures
        blank_prefix(lines) + blank_suffix(lines) <= lines.len(),
    decreases lines.len(),
{
    lemma_blank_prefix_bound(lines);
    lemma_blank_suffix_bound(lines);
    if lines.len() > 0 && is_blank(lines[0]) {
        assert(blank_suffix(lines.drop_first()) == blank_suffix(lines)) by {
            lemma_blank_suffix_shift(lines);
        }
        lemma_blank_sum(lines.drop_first());
    } else {
        if blank_suffix(lines) == lines.len() {
            lemma_blank_all(lines);
        }
    }
}

proof fn lemma_blank_suffix_shift(lines: Seq<Seq<char>>)
    requires
        lines.len() > 0,
        is_blank(lines[0]),
        blank_prefix(lines) < lines.len(),
    ensures
        blank_suffix(lines.drop_first()) == blank_suffix(lines),
    decreases lines.len(),
{
    lemma_blank_prefix_bound(lines.drop_first());
    if lines.len() > 1 && is_blank(lines.last()) {
        assert(lines.drop_first().last() == lines.last());
        assert(lines.drop_first().drop_last() =~= lines.drop_last().drop_first());
        assert(lines.drop_last()[0] == lines[0]);
        assert(blank_prefix(lines) == 1 + blank_prefix(lines.drop_first()));
        assert(blank_prefix(lines.drop_first()) < lines.drop_first().len());
        if lines.drop_last().len() > 0 {
            assert(blank_prefix(lines.drop_last()) <= 1 + blank_prefix(
                lines.drop_last().drop_first(),
            ));
        }
        lemma_blank_pre_drop_last(lines);
        lemma_blank_suffix_shift(lines.drop_last());
    }
}

proof fn lemma_blank_pre_drop_last(lines: Seq<Seq<char>>)
    requires
        blank_prefix(lines) < lines.len(),
        lines.len() > 1,
        is_blank(lines.last()),
    ensures
        blank_prefix(lines.drop_last()) < lines.drop_last().len(),
    decreases lines.len(),
{
    lemma_blank_prefix_bound(lines.drop_last());
    if blank_prefix(lines.drop_last()) >= lines.len() - 1 {
        lemma_blank_all(lines.drop_last());
        assert forall|i: int| 0 <= i < lines.len() implies is_blank(#[trigger] lines[i]) by {
            if i < lines.len() - 1 {
                assert(lines[i] == lines.drop_last()[i]);
            } else {
                assert(lines[i] == lines.last());
            }
        }
        lemma_all_blank(lines);
        assert(blank_prefix(lines) == lines.len());
    }
}

proof fn lemma_blank_all(lines: Seq<Seq<char>>)
    requires
        blank_prefix(lines) >= lines.len() || blank_suffix(lines) >= lines.len(),
    ensures
        forall|i: int| 0 <= i < lines.len() ==> is_blank(#[trigger] lines[i]),
    decreases lines.len(),
{
    lemma_blank_prefix_bound(lines);
    lemma_blank_suffix_bound(lines);
    if lines.len() > 0 {
        if blank_prefix(lines) >= lines.len() {
            lemma_blank_all(lines.drop_first());
            assert forall|i: int| 0 <= i < lines.len() implies is_blank(#[trigger] lines[i]) by {
                if i > 0 {
                    assert(lines[i] == lines.drop_first()[i - 1]);
                }
            }
        } else {
            lemma_blank_all(lines.drop_last());
            assert forall|i: int| 0 <= i < lines.len() implies is_blank(#[trigger] lines[i]) by {
                if i < lines.len() - 1 {
                    assert(lines[i] == lines.drop_last()[i]);
                }
            }
        }
    }
}

proof fn lemma_all_blank(lines: Seq<Seq<char>>)
    requires
        forall|i: int| 0 <= i < lines.len() ==> is_blank(#[trigger] lines[i]),
    ensures
        blank_prefix(lines) == lines.len(),
    decreases lines.len(),
{
    if lines.len() > 0 {
        assert(forall|i: int|
            0 <= i < lines.drop_first().len() ==> is_blank(#[trigger] lines.drop_first()[i]));
        lemma_all_blank(lines.drop_first());
    }
}

/// The bounds `(lo, hi)` of the cell's lines once leading and trailing
/// blank lines are skipped.
#[verifier::loop_isolation(false)]
pub fn skip_blank_bounds(cell: &Vec<String>) -> (r: (usize, usize))
    ensures
        r.0 <= r.1 <= cell@.len(),
        cell.deep_view().subrange(r.0 as int, r.1 as int) == spec_skip_blank(cell.deep_view()),
{
    let ghost lines = cell.deep_view();
    let n = cell.len();
    let mut lo: usize = 0;
    proof {
        lemma_blank_prefix_bound(lines);
        assert(lines.skip(0) =~= lines);
    }
    while lo < n && line_is_blank(cell[lo].as_str())
        invariant
            lo <= n,
            n == lines.len(),
            lines == cell.deep_view(),
            blank_prefix(lines) == lo + blank_prefix(lines.skip(lo as int)),
            forall|i: int| 0 <= i < lo ==> is_blank(#[trigger] lines[i]),
        decreases n - lo,
    {
        proof {
            assert(lines.skip(lo as int)[0] == lines[lo as int]);
            assert(cell.deep_view()[lo as int] == cell@[lo as int]@);
            assert(lines.skip(lo as int).drop_first() =~= lines.skip(lo as int + 1));
        }
        lo = lo + 1;
    }
    proof {
        if lo < n {
            assert(lines.skip(lo as int)[0] == lines[lo as int]);
            assert(cell.deep_view()[lo as int] == cell@[lo as int]@);
            assert(blank_prefix(lines.skip(lo as int)) == 0);
        } else {
            assert(lines.skip(lo as int) =~= Seq::<Seq<char>>::empty());
        }
        assert(blank_prefix(lines) == lo);
    }
    if lo == n {
        proof {
            assert(spec_skip_blank(lines) =~= lines.subrange(n as int, n as int));
        }
        return (n, n);
    }
    let mut hi: usize = n;
    proof {
        assert(lines.take(n as int) =~= lines);
    }
    while hi > lo && line_is_blank(cell[hi - 1].as_str())
        invariant
            lo < hi <= n,
            blank_suffix(lines) == n - hi + blank_suffix(lines.take(hi as int)),
        decreases hi,
    {
        proof {
            assert(lines.take(hi as int).last() == lines[hi - 1]);
            assert(cell.deep_view()[hi - 1] == cell@[hi - 1]@);
            assert(lines.take(hi as int).drop_last() =~= lines.take(hi as int - 1));
            if hi - 1 == lo {
                assert(lines.skip(lo as int)[0] == lines[lo as int]);
                assert(!is_blank(lines[lo as int]));
            }
        }
        hi = hi - 1;
    }
    proof {
        assert(lines.take(hi as int).last() == lines[hi - 1]);
        assert(cell.deep_view()[hi - 1] == cell@[hi - 1]@);
        assert(blank_suffix(lines.take(hi as int)) == 0);
        assert(blank_suffix(lines) == n - hi);
        lemma_blank_sum(lines);
    }
    (lo, hi)
}

/// The vertical indent above the content: the alignment's share of the
/// free height plus the top padding.
pub open spec fn spec_top_indent(content_len: int, st: Style, height: int) -> usize {
    let h = clamped_sub(height, st.padding.top.size as int);
    let ind = match st.alignment_v {
        AlignmentVertical::Top => 0,
        AlignmentVertical::Bottom => clamped_sub(h, content_len),
        AlignmentVertical::Center => clamped_sub(h, content_len) / 2,
    };
    cap_usize(ind + st.padding.top.size)
}

/// The vertical indent above the content of a cell.
pub fn top_indent_of(content_len: usize, style: &Style, height: usize) -> (r: usize)
    ensures
        r == spec_top_indent(content_len as int, *style, height as int),
{
    let h = sub_clamped(height, style.padding.top.size);
    let ind: usize = match style.alignment_v {
        AlignmentVertical::Top => 0,
        AlignmentVertical::Bottom => sub_clamped(h, content_len),
        AlignmentVertical::Center => sub_clamped(h, content_len) / 2,
    };
    add_capped(ind, style.padding.top.size)
}

/// The widest display width among the cell's lines, each trimmed first
/// when horizontal trimming is on.
pub open spec fn trimmed_max_upto(lines: Seq<Seq<char>>, h_trim: bool, j: int) -> usize
    decreases j,
{
    if j <= 0 {
        0
    } else {
        let p = trimmed_max_upto(lines, h_trim, j - 1);
        let t = if h_trim {
            spec_trim(lines[j - 1])
        } else {
            lines[j - 1]
        };
        let w = cap_usize(str_width(t) as int);
        if w > p {
            w
        } else {
            p
        }
    }
}

/// What one line of one cell shows at text line `line` of its row: top
/// padding fill above the content, the aligned text on content lines, and
/// bottom padding fill below.
pub open spec fn spec_build_line_cell(
    line: int,
    cell: Seq<Seq<char>>,
    st: Style,
    width: int,
    height: int,
) -> Seq<char> {
    let c2 = if st.formatting.vertical_trim {
        spec_skip_blank(cell)
    } else {
        cell
    };
    let ti = spec_top_indent(c2.len() as int, st, height);
    if ti > line {
        repeat_char_seq(st.padding.top.fill, width)
    } else {
        let cli = line - ti;
        if cli >= c2.len() {
            repeat_char_seq(st.padding.bottom.fill, width)
        } else {
            let text = if st.formatting.horizontal_trim {
                spec_trim(c2[cli])
            } else {
                c2[cli]
            };
            if st.formatting.allow_lines_alignement {
                spec_line(text, width, st)
            } else {
                spec_line_with_width(
                    text,
                    width,
                    trimmed_max_upto(c2, st.formatting.horizontal_trim, c2.len() as int) as int,
                    st,
                )
            }
        }
    }
}

/// Append what one cell shows on text line `line` of its row.
#[verifier::loop_isolation(false)]
pub fn build_line_cell(
    out: &mut String,
    line_index: usize,
    cell: &Vec<String>,
    style: &Style,
    width: usize,
    height: usize,
)
    ensures
        final(out)@ == old(out)@ + spec_build_line_cell(
            line_index as int,
            cell.deep_view(),
            *style,
            width as int,
            height as int,
        ),
{
    let ghost lines = cell.deep_view();
    let mut lo: usize = 0;
    let mut hi: usize = cell.len();
    if style.formatting.vertical_trim {
        let b = skip_blank_bounds(cell);
        lo = b.0;
        hi = b.1;
    } else {
        proof {
            assert(lines.subrange(0, lines.len() as int) =~= lines);
        }
    }
    let ghost c2 = if style.formatting.vertical_trim {
        spec_skip_blank(lines)
    } else {
        lines
    };
    proof {
        assert(lines.subrange(lo as int, hi as int) == c2);
    }
    let count = hi - lo;
    let ti = top_indent_of(count, style, height);
    if ti > line_index {
        repeat_char(out, style.padding.top.fill, width);
        return ;
    }
    let cli = line_index - ti;
    if cli >= count {
        repeat_char(out, style.padding.bottom.fill, width);
        return ;
    }
    proof {
        assert(c2[cli as int] == lines[lo + cli]);
        assert(cell.deep_view()[lo + cli] == cell@[lo + cli]@);
    }
    let raw = &cell[lo + cli];
    if style.formatting.allow_lines_alignement {
        if style.formatting.horizontal_trim {
            let text = trim_str(raw.as_str());
            line(out, text, width, style);
        } else {
            line(out, raw.as_str(), width, style);
        }
    } else {
        let mut maxw: usize = 0;
        let mut j: usize = lo;
        while j < hi
            invariant
                lo <= j <= hi,
                maxw == trimmed_max_upto(c2, style.formatting.horizontal_trim, j - lo),
            decreases hi - j,
        {
            proof {
                assert(c2[j - lo] == lines[j as int]);
                assert(cell.deep_view()[j as int] == cell@[j as int]@);
            }
            let w = if style.formatting.horizontal_trim {
                let t = trim_str(cell[j].as_str());
                crate::text::display_width(t)
            } else {
                crate::text::display_width(cell[j].as_str())
            };
            if w > maxw {
                maxw = w;
            }
            j = j + 1;
        }
        proof {
            assert(c2.len() == hi - lo);
        }
        if style.formatting.horizontal_trim {
            let text = trim_str(raw.as_str());
            line_with_width(out, text, width, maxw, style);
        } else {
            line_with_width(out, raw.as_str(), width, maxw, style);
        }
    }
}

} // verus!

verus! {

/// The character an optional connector contributes: one or none.
pub open spec fn opt_char(o: Option<char>) -> Seq<char> {
    match o {
        Some(c) => seq![c],
        None => Seq::empty(),
    }
}

/// What the first `c` columns contribute to one text line of a row: for
/// each rendered cell its left connector and its content slice, and after
/// the last column the right edge connector.
pub open spec fn build_line_upto(
    cells_row: Seq<Seq<Seq<char>>>,
    st_row: Seq<Style>,
    widths: Seq<usize>,
    bl: Seq<BorderLine>,
    cols: int,
    height: int,
    line: int,
    c: int,
) -> Seq<char>
    decreases c,
{
    if c <= 0 {
        Seq::empty()
    } else {
        let p = build_line_upto(cells_row, st_row, widths, bl, cols, height, line, c - 1);
        let piece = if crate::spans::visible(st_row, c - 1) {
            opt_char(bl[c - 1].connector1) + spec_build_line_cell(
                line,
                cells_row[c - 1],
                st_row[c - 1],
                widths[c - 1] as int,
                height,
            )
        } else {
            Seq::empty()
        };
        let edge = if c == cols {
            opt_char(bl[c - 1].connector2)
        } else {
            Seq::empty()
        };
        p + piece + edge
    }
}

/// One full text line of a row, with its margins and line break.
pub open spec fn spec_build_line(
    cells_row: Seq<Seq<Seq<char>>>,
    st_row: Seq<Style>,
    widths: Seq<usize>,
    bl: Seq<BorderLine>,
    cols: int,
    height: int,
    line: int,
    margin: crate::types::Margin,
) -> Seq<char> {
    repeat_char_seq(margin.left.fill, margin.left.size as int) + build_line_upto(
        cells_row,
        st_row,
        widths,
        bl,
        cols,
        height,
        line,
        cols,
    ) + repeat_char_seq(margin.right.fill, margin.right.size as int) + seq!['\n']
}

/// Append one full text line of a row.
#[verifier::loop_isolation(false)]
pub fn build_line(
    out: &mut String,
    cells_row: &Vec<Vec<String>>,
    st_row: &Vec<Style>,
    widths: &Vec<usize>,
    bl: &Vec<BorderLine>,
    count_columns: usize,
    height: usize,
    line_index: usize,
    margin: &crate::types::Margin,
)
    requires
        count_columns <= cells_row@.len(),
        count_columns <= st_row@.len(),
        count_columns <= widths@.len(),
        count_columns <= bl@.len(),
    ensures
        final(out)@ == old(out)@ + spec_build_line(
            cells_row.deep_view(),
            st_row@,
            widths@,
            bl@,
            count_columns as int,
            height as int,
            line_index as int,
            *margin,
        ),
{
    let ghost cr = cells_row.deep_view();
    repeat_char(out, margin.left.fill, margin.left.size);
    let ghost mid0 = out@;
    let mut c: usize = 0;
    while c < count_columns
        invariant
            c <= count_columns,
            out@ == mid0 + build_line_upto(
                cr,
                st_row@,
                widths@,
                bl@,
                count_columns as int,
                height as int,
                line_index as int,
                c as int,
            ),
        decreases count_columns - c,
    {
        proof {
            assert(cr[c as int] == cells_row@[c as int].deep_view());
        }
        if crate::spans::is_cell_visible(st_row, c) {
            match bl[c].connector1 {
                Some(ch) => push_char(out, ch),
                None => (),
            }
            build_line_cell(out, line_index, &cells_row[c], &st_row[c], widths[c], height);
        }
        if c + 1 == count_columns {
            match bl[c].connector2 {
                Some(ch) => push_char(out, ch),
                None => (),
            }
        }
        proof {
            assert(out@ =~= mid0 + build_line_upto(
                cr,
                st_row@,
                widths@,
                bl@,
                count_columns as int,
                height as int,
                line_index as int,
                c as int + 1,
            ));
        }
        c = c + 1;
    }
    repeat_char(out, margin.right.fill, margin.right.size);
    push_char(out, '\n');
    proof {
        assert(out@ =~= old(out)@ + spec_build_line(
            cr,
            st_row@,
            widths@,
            bl@,
            count_columns as int,
            height as int,
            line_index as int,
            *margin,
        ));
    }
}

/// The text lines of one row, top to bottom, up to line `l`.
pub open spec fn build_row_lines_upto(
    cells_row: Seq<Seq<Seq<char>>>,
    st_row: Seq<Style>,
    widths: Seq<usize>,
    bl: Seq<BorderLine>,
    cols: int,
    height: int,
    margin: crate::types::Margin,
    l: int,
) -> Seq<char>
    decreases l,
{
    if l <= 0 {
        Seq::empty()
    } else {
        build_row_lines_upto(cells_row, st_row, widths, bl, cols, height, margin, l - 1)
            + spec_build_line(cells_row, st_row, widths, bl, cols, height, l - 1, margin)
    }
}

/// Append every text line of one row.
#[verifier::loop_isolation(false)]
pub fn build_row_cells(
    out: &mut String,
    cells_row: &Vec<Vec<String>>,
    st_row: &Vec<Style>,
    widths: &Vec<usize>,
    bl: &Vec<BorderLine>,
    count_columns: usize,
    height: usize,
    margin: &crate::types::Margin,
)
    requires
        count_columns <= cells_row@.len(),
        count_columns <= st_row@.len(),
        count_columns <= widths@.len(),
        count_columns <= bl@.len(),
    ensures
        final(out)@ == old(out)@ + build_row_lines_upto(
            cells_row.deep_view(),
            st_row@,
            widths@,
            bl@,
            count_columns as int,
            height as int,
            *margin,
            height as int,
        ),
{
    let mut l: usize = 0;
    while l < height
        invariant
            l <= height,
            out@ == old(out)@ + build_row_lines_upto(
                cells_row.deep_view(),
                st_row@,
                widths@,
                bl@,
                count_columns as int,
                height as int,
                *margin,
                l as int,
            ),
        decreases height - l,
    {
        build_line(out, cells_row, st_row, widths, bl, count_columns, height, l, margin);
        l = l + 1;
    }
}

/// Whether no column of the boundary carries a main character: such a
/// boundary emits nothing at all.
pub open spec fn no_border(bl: Seq<BorderLine>) -> bool {
    forall|i: int| 0 <= i < bl.len() ==> (#[trigger] bl[i]).main is None
}

/// Whether no column of the boundary carries a main character.
pub fn has_no_border(bl: &Vec<BorderLine>) -> (r: bool)
    ensures
        r == no_border(bl@),
{
    let mut i: usize = 0;
    while i < bl.len()
        invariant
            i <= bl@.len(),
            forall|j: int| 0 <= j < i ==> (#[trigger] bl@[j]).main is None,
        decreases bl@.len() - i,
    {
        if bl[i].main.is_some() {
            return false;
        }
        i = i + 1;
    }
    true
}

/// A run of `width` copies of `c` with its first `limit` characters
/// withheld, and the part of `limit` left for later runs.
pub open spec fn wos(c: char, width: int, limit: int) -> (Seq<char>, int) {
    if limit >= width {
        (Seq::empty(), limit - width)
    } else {
        (repeat_char_seq(c, width - limit), 0)
    }
}

/// The boundary runs and connectors of columns `i` and later, with
/// `limit` characters still to withhold from the left.
pub open spec fn split_go(widths: Seq<usize>, bl: Seq<BorderLine>, i: int, limit: int) -> (
    Seq<char>,
    int,
)
    decreases widths.len() - i,
{
    if i < 0 || i >= widths.len() {
        (Seq::empty(), limit)
    } else {
        let m = if bl[i].main is Some {
            wos(bl[i].main->0, widths[i] as int, limit)
        } else {
            (Seq::empty(), limit)
        };
        let c2 = if bl[i].connector2 is Some {
            wos(bl[i].connector2->0, 1, m.1)
        } else {
            (Seq::empty(), m.1)
        };
        let rest = split_go(widths, bl, i + 1, c2.1);
        (m.0 + c2.0 + rest.0, rest.1)
    }
}

/// A split line's characters with its first `skip` characters withheld:
/// nothing at all where no main character is set or there is no column.
pub open spec fn spec_build_split_line(
    widths: Seq<usize>,
    bl: Seq<BorderLine>,
    skip: int,
) -> Seq<char> {
    if no_border(bl) || widths.len() == 0 {
        Seq::empty()
    } else {
        let first = if bl.len() > 0 && bl[0].connector1 is Some {
            wos(bl[0].connector1->0, 1, skip)
        } else {
            (Seq::empty(), skip)
        };
        first.0 + split_go(widths, bl, 0, first.1).0
    }
}

/// Append a split line's characters, withholding the first `skip`.
#[verifier::loop_isolation(false)]
pub fn build_split_line(
    out: &mut String,
    widths: &Vec<usize>,
    bl: &Vec<BorderLine>,
    skip_chars: usize,
)
    requires
        widths@.len() <= bl@.len(),
    ensures
        final(out)@ == old(out)@ + spec_build_split_line(widths@, bl@, skip_chars as int),
{
    if has_no_border(bl) || widths.len() == 0 {
        return ;
    }
    let mut limit = skip_chars;
    if bl.len() > 0 {
        match bl[0].connector1 {
            Some(ch) => {
                if limit >= 1 {
                    limit = limit - 1;
                } else {
                    push_char(out, ch);
                }
            },
            None => (),
        }
    }
    let ghost base = out@;
    let ghost lim0 = limit as int;
    let mut i: usize = 0;
    while i < widths.len()
        invariant
            i <= widths@.len(),
            out@ + split_go(widths@, bl@, i as int, limit as int).0 == base + split_go(
                widths@,
                bl@,
                0,
                lim0,
            ).0,
            split_go(widths@, bl@, i as int, limit as int).1 == split_go(widths@, bl@, 0, lim0).1,
        decreases widths@.len() - i,
    {
        match bl[i].main {
            Some(ch) => {
                let w = widths[i];
                if limit >= w {
                    limit = limit - w;
                } else {
                    let n = w - limit;
                    limit = 0;
                    repeat_char(out, ch, n);
                }
            },
            None => (),
        }
        match bl[i].connector2 {
            Some(ch) => {
                if limit >= 1 {
                    limit = limit - 1;
                } else {
                    push_char(out, ch);
                }
            },
            None => (),
        }
        i = i + 1;
    }
    proof {
        assert(split_go(widths@, bl@, i as int, limit as int).0 =~= Seq::<char>::empty());
        assert(out@ =~= old(out)@ + spec_build_split_line(widths@, bl@, skip_chars as int));
    }
}

/// The number of vertical connectors a split line shows, the left edge
/// and one per column with a right connector.
pub open spec fn split_conn_upto(bl: Seq<BorderLine>, i: int) -> usize
    decreases i,
{
    if i <= 0 {
        if bl.len() > 0 && bl[0].connector1 is Some {
            1
        } else {
            0
        }
    } else {
        let p = split_conn_upto(bl, i - 1);
        if bl[i - 1].connector2 is Some {
            crate::width::cadd(p, 1)
        } else {
            p
        }
    }
}

/// The full character length of a split line: the column widths plus its
/// connectors.
pub open spec fn spec_split_line_width(widths: Seq<usize>, bl: Seq<BorderLine>) -> usize {
    crate::width::cadd(
        crate::width::sum_widths_upto(widths, widths.len() as int),
        split_conn_upto(bl, bl.len() as int),
    )
}

/// The full character length of a split line.
#[verifier::loop_isolation(false)]
pub fn split_line_width(widths: &Vec<usize>, bl: &Vec<BorderLine>) -> (r: usize)
    ensures
        r == spec_split_line_width(widths@, bl@),
{
    let mut content: usize = 0;
    let mut i: usize = 0;
    while i < widths.len()
        invariant
            i <= widths@.len(),
            content == crate::width::sum_widths_upto(widths@, i as int),
        decreases widths@.len() - i,
    {
        content = add_capped(content, widths[i]);
        i = i + 1;
    }
    let mut conn: usize = if bl.len() > 0 && bl[0].connector1.is_some() {
        1
    } else {
        0
    };
    let mut j: usize = 0;
    while j < bl.len()
        invariant
            j <= bl@.len(),
            conn == split_conn_upto(bl@, j as int),
        decreases bl@.len() - j,
    {
        if bl[j].connector2.is_some() {
            conn = add_capped(conn, 1);
        }
        j = j + 1;
    }
    add_capped(content, conn)
}

/// Append up to `limit` characters of the override string; the number of
/// characters written.
pub fn write_with_limit(out: &mut String, s: &str, limit: usize) -> (r: usize)
    ensures
        r == if s@.len() < limit {
            s@.len() as int
        } else {
            limit as int
        },
        final(out)@ == old(out)@ + s@.take(r as int),
{
    let n = s.unicode_len();
    let mut i: usize = 0;
    proof {
        assert(s@.take(0) =~= Seq::<char>::empty());
        assert(out@ =~= old(out)@ + s@.take(0));
    }
    while i < n && i < limit
        invariant
            i <= n,
            n == s@.len(),
            i <= limit,
            out@ == old(out)@ + s@.take(i as int),
        decreases n - i,
    {
        let c = s.get_char(i);
        push_char(out, c);
        proof {
            assert(s@.take(i as int + 1) =~= s@.take(i as int).push(c));
            assert(out@ =~= old(out)@ + s@.take(i as int + 1));
        }
        i = i + 1;
    }
    i
}

/// One whole split-line row of the output: nothing where the boundary has
/// no character anywhere, else margins, an optional override prefix, the
/// boundary runs and connectors, and a line break.
pub open spec fn spec_split_line_row(
    normal_widths: Seq<usize>,
    bl: Seq<BorderLine>,
    override_line: Option<Seq<char>>,
    margin: crate::types::Margin,
) -> Seq<char> {
    if no_border(bl) || normal_widths.len() == 0 {
        Seq::empty()
    } else {
        let full = spec_split_line_width(normal_widths, bl) as int;
        let k = match override_line {
            Some(s) => if s.len() < full {
                s.len() as int
            } else {
                full
            },
            None => 0,
        };
        let ovpart = match override_line {
            Some(s) => s.take(k),
            None => Seq::empty(),
        };
        repeat_char_seq(margin.left.fill, margin.left.size as int) + ovpart
            + spec_build_split_line(normal_widths, bl, k) + repeat_char_seq(
            margin.right.fill,
            margin.right.size as int,
        ) + seq!['\n']
    }
}

/// Append one whole split-line row of the output.
pub fn build_split_line_row(
    out: &mut String,
    normal_widths: &Vec<usize>,
    bl: &Vec<BorderLine>,
    override_line: Option<&String>,
    margin: &crate::types::Margin,
)
    requires
        normal_widths@.len() <= bl@.len(),
    ensures
        final(out)@ == old(out)@ + spec_split_line_row(
            normal_widths@,
            bl@,
            match override_line {
                Some(s) => Some(s@),
                None => None,
            },
            *margin,
        ),
{
    if has_no_border(bl) || normal_widths.len() == 0 {
        return ;
    }
    repeat_char(out, margin.left.fill, margin.left.size);
    let mut skip: usize = 0;
    match override_line {
        Some(s) => {
            let fullw = split_line_width(normal_widths, bl);
            skip = write_with_limit(out, s.as_str(), fullw);
        },
        None => (),
    }
    build_split_line(out, normal_widths, bl, skip);
    repeat_char(out, margin.right.fill, margin.right.size);
    push_char(out, '\n');
    proof {
        assert(out@ =~= old(out)@ + spec_split_line_row(
            normal_widths@,
            bl@,
            match override_line {
                Some(s) => Some(s@),
                None => None,
            },
            *margin,
        ));
    }
}

} // verus!
