//! Helpers that bound the width of a cell's content before it reaches the
//! grid: cutting to a width, wrapping at a width — plainly or keeping
//! words together — and padding lines up to a minimum width.

use vstd::prelude::*;

use crate::grid::Grid;
use crate::text::is_white;
use crate::text::push_char;
use crate::text::repeat_char;
use crate::text::repeat_char_seq;
use crate::text::spec_lines;
use crate::text::str_width;
use crate::text::white_char;
use crate::types::Entity;
use crate::types::Settings;

verus! {

/// The first `width` characters of the content.
pub open spec fn spec_strip(s: Seq<char>, width: int) -> Seq<char> {
    if width >= s.len() {
        s
    } else {
        s.take(width)
    }
}

/// Cut the content to `width` characters; shorter content stays whole.
pub fn strip(s: &str, width: usize) -> (r: String)
    ensures
        r@ == spec_strip(s@, width as int),
{
    let n = s.unicode_len();
    let m = if width < n {
        width
    } else {
        n
    };
    let mut out = String::new();
    let mut k: usize = 0;
    proof {
        assert(out@ =~= s@.take(0));
    }
    while k < m
        invariant
            k <= m,
            m <= n,
            n == s@.len(),
            out@ == s@.take(k as int),
        decreases m - k,
    {
        let c = s.get_char(k);
        push_char(&mut out, c);
        proof {
            assert(s@.take(k as int + 1) =~= s@.take(k as int).push(c));
        }
        k = k + 1;
    }
    proof {
        if width >= n {
            assert(s@.take(n as int) =~= s@);
        }
    }
    out
}

/// The content with a line break inserted before every `width`-th
/// character.
pub open spec fn split_go(s: Seq<char>, width: int, k: int) -> Seq<char>
    decreases s.len() - k,
{
    if k < 0 || k >= s.len() {
        Seq::empty()
    } else {
        (if k != 0 && k % width == 0 {
            seq!['\n']
        } else {
            Seq::empty()
        }) + seq![s[k]] + split_go(s, width, k + 1)
    }
}

/// The content cut into `width`-character lines.
pub open spec fn spec_split(s: Seq<char>, width: int) -> Seq<char> {
    split_go(s, width, 0)
}

/// Wrap the content to a new line after every `width` characters.
pub fn split(s: &str, width: usize) -> (r: String)
    requires
        width >= 1,
    ensures
        r@ == spec_split(s@, width as int),
{
    let n = s.unicode_len();
    let mut out = String::new();
    let mut k: usize = 0;
    while k < n
        invariant
            k <= n,
            n == s@.len(),
            width >= 1,
            out@ + split_go(s@, width as int, k as int) == spec_split(s@, width as int),
        decreases n - k,
    {
        let c = s.get_char(k);
        if k != 0 && k % width == 0 {
            push_char(&mut out, '\n');
        }
        push_char(&mut out, c);
        proof {
            assert(out@ + split_go(s@, width as int, k as int + 1) =~= spec_split(
                s@,
                width as int,
            ));
        }
        k = k + 1;
    }
    proof {
        assert(out@ =~= spec_split(s@, width as int));
    }
    out
}

/// The number of bytes a character takes in its eight-bit encoding.
pub open spec fn spec_utf8_len(c: char) -> int {
    if (c as u32) < 0x80 {
        1
    } else if (c as u32) < 0x800 {
        2
    } else if (c as u32) < 0x10000 {
        3
    } else {
        4
    }
}

/// The number of bytes a character takes in its eight-bit encoding.
pub fn utf8_len(c: char) -> (r: usize)
    ensures
        r == spec_utf8_len(c),
{
    let v = c as u32;
    if v < 0x80 {
        1
    } else if v < 0x800 {
        2
    } else if v < 0x10000 {
        3
    } else {
        4
    }
}

/// The byte length of the last `m` characters of a line.
pub open spec fn tail_utf8_len(s: Seq<char>, m: int) -> int
    decreases m,
{
    if m <= 0 {
        0
    } else {
        spec_utf8_len(s[s.len() - m]) + tail_utf8_len(s.drop_last(), m - 1)
    }
}

/// The number of characters at the end of the line before the nearest
/// whitespace; -1 when the line has no whitespace at all.
pub open spec fn trailing_nonwhite(s: Seq<char>) -> int
    decreases s.len(),
{
    if s.len() == 0 {
        -1
    } else if white_char(s.last()) {
        0
    } else {
        let p = trailing_nonwhite(s.drop_last());
        if p < 0 {
            -1
        } else {
            p + 1
        }
    }
}

/// One step of word-keeping wrapping: what the buffer and the column
/// counter become before character `k` of the content is appended.
pub open spec fn skw_step(buf: Seq<char>, i: int, c: char, width: int) -> (Seq<char>, int) {
    if i != 0 && i % width == 0 {
        let prev = buf.last();
        if !white_char(prev) && !white_char(c) {
            let pos = trailing_nonwhite(buf);
            if pos >= 0 && pos < width {
                (buf.insert(buf.len() - pos, '\n'), tail_utf8_len(buf, pos))
            } else {
                (buf.push('\n'), i)
            }
        } else {
            (buf.push('\n'), i)
        }
    } else {
        (buf, i)
    }
}

/// Word-keeping wrapping from character `k` on, with the buffer built so
/// far and the current column counter.
pub open spec fn skw_go(s: Seq<char>, width: int, k: int, buf: Seq<char>, i: int) -> Seq<char>
    decreases s.len() - k,
{
    if k < 0 || k >= s.len() {
        buf
    } else {
        let st = skw_step(buf, i, s[k], width);
        skw_go(s, width, k + 1, st.0.push(s[k]), st.1 + 1)
    }
}

/// The content wrapped at `width`, moving a word's started tail to the
/// next line where it fits there.
pub open spec fn spec_split_keeping_words(s: Seq<char>, width: int) -> Seq<char> {
    skw_go(s, width, 0, Seq::empty(), 0)
}

/// Wrap the content at `width`, keeping a word whole where the part
/// already written fits on the next line.
#[verifier::loop_isolation(false)]
pub fn split_keeping_words(s: &str, width: usize) -> (r: String)
    requires
        width >= 1,
        4 * (width as int) + s@.len() <= usize::MAX,
    ensures
        r@ == spec_split_keeping_words(s@, width as int),
{
    let n = s.unicode_len();
    let mut buf = String::new();
    let mut i: usize = 0;
    let mut k: usize = 0;
    while k < n
        invariant
            k <= n,
            i != 0 ==> buf@.len() > 0,
            i as int <= 4 * (width as int) + k,
            skw_go(s@, width as int, k as int, buf@, i as int) == spec_split_keeping_words(
                s@,
                width as int,
            ),
        decreases n - k,
    {
        let c = s.get_char(k);
        let ghost pre_buf = buf@;
        let ghost pre_i = i as int;
        if i != 0 && i % width == 0 {
            let blen = buf.unicode_len();
            let prev = buf.as_str().get_char(blen - 1);
            if !is_white(prev) && !is_white(c) {
                proof {
                    assert(buf@.take(blen as int) =~= buf@);
                }
                let mut pos: usize = 0;
                let mut found = false;
                while pos < blen && !found
                    invariant
                        pos <= blen,
                        blen == buf@.len(),
                        !found ==> trailing_nonwhite(buf@) == (if trailing_nonwhite(
                            buf@.take(blen - pos),
                        ) < 0 {
                            -1int
                        } else {
                            trailing_nonwhite(buf@.take(blen - pos)) + pos
                        }),
                        found ==> trailing_nonwhite(buf@) == pos as int && pos < blen,
                    decreases 2 * (blen - pos) + (if found {
                        0int
                    } else {
                        1
                    }),
                {
                    proof {
                        assert(buf@.take(blen - pos).last() == buf@[blen - pos - 1]);
                        assert(buf@.take(blen - pos).drop_last() =~= buf@.take(blen - pos - 1));
                    }
                    if is_white(buf.as_str().get_char(blen - pos - 1)) {
                        found = true;
                    } else {
                        pos = pos + 1;
                    }
                }
                proof {
                    if !found {
                        assert(buf@.take(blen - pos) =~= Seq::<char>::empty());
                        assert(trailing_nonwhite(buf@) == -1);
                    }
                }
                if found && pos < width {
                    let mut range_len: usize = 0;
                    let mut m: usize = 0;
                    while m < pos
                        invariant
                            m <= pos,
                            pos < blen,
                            blen == buf@.len(),
                            range_len <= 4 * m,
                            range_len == tail_utf8_len(buf@.take(blen - pos + m), m as int),
                        decreases pos - m,
                    {
                        proof {
                            assert(buf@.take(blen - pos + m + 1).drop_last() =~= buf@.take(
                                blen - pos + m,
                            ));
                            assert(buf@.take(blen - pos + m + 1)[blen - pos]
                                == buf@[blen - pos]);
                        }
                        let u2 = utf8_len(buf.as_str().get_char(blen - pos));
                        range_len = range_len + u2;
                        m = m + 1;
                    }
                    proof {
                        assert(buf@.take(blen as int) =~= buf@);
                        lemma_tail_utf8_prefix(buf@, pos as int);
                    }
                    let cut = blen - pos;
                    let head = buf.as_str().substring_char(0, cut).to_owned();
                    let tail = buf.as_str().substring_char(cut, blen).to_owned();
                    let mut nb = head;
                    push_char(&mut nb, '\n');
                    nb.append(tail.as_str());
                    proof {
                        assert(nb@ =~= pre_buf.insert(pre_buf.len() - pos, '\n'));
                    }
                    buf = nb;
                    i = range_len;
                } else {
                    push_char(&mut buf, '\n');
                }
            } else {
                push_char(&mut buf, '\n');
            }
        }
        proof {
            let st = skw_step(pre_buf, pre_i, c, width as int);
            assert(buf@ == st.0 && i as int == st.1) by {
                lemma_tail_utf8_bound(pre_buf, trailing_nonwhite(pre_buf));
            }
        }
        push_char(&mut buf, c);
        i = i + 1;
        k = k + 1;
    }
    buf
}

proof fn lemma_tail_utf8_prefix(s: Seq<char>, m: int)
    requires
        0 <= m <= s.len(),
    ensures
        tail_utf8_len(s.take(s.len() as int), m) == tail_utf8_len(s, m),
{
    assert(s.take(s.len() as int) =~= s);
}

proof fn lemma_tail_utf8_bound(s: Seq<char>, m: int)
    ensures
        m >= 0 ==> tail_utf8_len(s, m) >= m,
        tail_utf8_len(s, m) <= 4 * (if m >= 0 {
            m
        } else {
            0
        }),
    decreases m,
{
    if m > 0 {
        lemma_tail_utf8_bound(s.drop_last(), m - 1);
    }
}

} // verus!

verus! {

/// One line padded with the fill character up to `width` display columns,
/// where it is narrower.
pub open spec fn padded_line(line: Seq<char>, width: int, fill: char) -> Seq<char> {
    if str_width(line) < width {
        line + repeat_char_seq(fill, width - str_width(line))
    } else {
        line
    }
}

/// The first `j` lines padded up to `width` and run together.
pub open spec fn padded_concat(lines: Seq<Seq<char>>, width: int, fill: char, j: int) -> Seq<char>
    decreases j,
{
    if j <= 0 {
        Seq::empty()
    } else {
        padded_concat(lines, width, fill, j - 1) + padded_line(lines[j - 1], width, fill)
    }
}

/// The content after every line narrower than `width` was padded with the
/// fill character: the lines run together, in the order they stood; the
/// content stays whole when no line is narrower.
pub open spec fn spec_increase_width(s: Seq<char>, width: int, fill: char) -> Seq<char> {
    let lines = spec_lines(s);
    if forall|i: int| 0 <= i < lines.len() ==> str_width(#[trigger] lines[i]) >= width {
        s
    } else {
        padded_concat(lines, width, fill, lines.len() as int)
    }
}

/// Pad every line narrower than `width` up to it with the fill character.
#[verifier::loop_isolation(false)]
pub fn increase_width(s: &str, width: usize, fill_with: char) -> (r: String)
    ensures
        r@ == spec_increase_width(s@, width as int, fill_with),
{
    let ghost glines = spec_lines(s@);
    let lines = crate::text::split_lines(s);
    let mut any_narrow = false;
    let mut j: usize = 0;
    while j < lines.len()
        invariant
            j <= lines@.len(),
            lines.deep_view() == glines,
            any_narrow == !(forall|i: int|
                0 <= i < j ==> str_width(#[trigger] glines[i]) >= width),
        decreases lines@.len() - j,
    {
        proof {
            assert(lines.deep_view()[j as int] == lines@[j as int]@);
        }
        let w = crate::text::display_width(lines[j].as_str());
        if w < width {
            any_narrow = true;
        }
        j = j + 1;
    }
    if !any_narrow {
        return s.to_owned();
    }
    let mut out = String::new();
    let mut j2: usize = 0;
    while j2 < lines.len()
        invariant
            j2 <= lines@.len(),
            lines.deep_view() == glines,
            out@ == padded_concat(glines, width as int, fill_with, j2 as int),
        decreases lines@.len() - j2,
    {
        proof {
            assert(lines.deep_view()[j2 as int] == lines@[j2 as int]@);
        }
        let w = crate::text::display_width(lines[j2].as_str());
        out.append(lines[j2].as_str());
        if w < width {
            repeat_char(&mut out, fill_with, width - w);
        }
        proof {
            assert(out@ =~= padded_concat(glines, width as int, fill_with, j2 as int + 1));
        }
        j2 = j2 + 1;
    }
    out
}

/// A modification of a single cell of a grid.
pub trait CellOption {
    /// Change the cell at `(row, column)`, keeping the grid consistent and
    /// its size, styles, borders and margins as they were.
    fn change_cell(&mut self, grid: &mut Grid, row: usize, column: usize)
        requires
            old(grid).wf(),
            row < old(grid).rows(),
            column < old(grid).cols(),
        ensures
            final(grid).wf(),
            final(grid).size == old(grid).size,
            final(grid).styles == old(grid).styles,
            final(grid).borders == old(grid).borders,
            final(grid).margin == old(grid).margin,
            final(grid).override_split_lines == old(grid).override_split_lines,
    ;
}

/// Bounding strategies for the width of a cell.
pub struct MaxWidth;

impl MaxWidth {
    /// A strategy that cuts content to the width.
    pub fn truncating(width: usize) -> (r: Truncate)
        ensures
            r.width == width,
            r.suffix@ == Seq::<char>::empty(),
    {
        Truncate::new(width)
    }

    /// A strategy that wraps content at the width.
    pub fn wrapping(width: usize) -> (r: Wrap)
        ensures
            r.width == width,
            r.keep_words == false,
    {
        Wrap::new(width)
    }
}

/// Cut a cell's content to a width, leaving shorter content untouched.
pub struct Truncate {
    pub width: usize,
    pub suffix: String,
}

impl Truncate {
    /// A truncation to `width` characters with no suffix.
    pub fn new(width: usize) -> (r: Self)
        ensures
            r.width == width,
            r.suffix@ == Seq::<char>::empty(),
    {
        Self { width, suffix: String::new() }
    }

    /// Append this suffix whenever the truncation shortened the content.
    pub fn suffix(self, suffix: &str) -> (r: Self)
        ensures
            r.width == self.width,
            r.suffix@ == suffix@,
    {
        Truncate { width: self.width, suffix: suffix.to_owned() }
    }
}

impl CellOption for Truncate {
    fn change_cell(&mut self, grid: &mut Grid, row: usize, column: usize) {
        let content = grid.get_cell_content(row, column).to_owned();
        if content.unicode_len() > self.width {
            let mut new_content = strip(content.as_str(), self.width);
            new_content.append(self.suffix.as_str());
            grid.set(&Entity::Cell(row, column), Settings::new().text(new_content.as_str()));
        }
    }
}

/// Wrap a cell's content to new lines at a width.
pub struct Wrap {
    pub width: usize,
    pub keep_words: bool,
}

impl Wrap {
    /// A wrap at `width` characters, cutting words where they stand.
    pub fn new(width: usize) -> (r: Self)
        ensures
            r.width == width,
            r.keep_words == false,
    {
        Self { width, keep_words: false }
    }

    /// Keep a word whole where the part already written fits on the next
    /// line.
    pub fn keep_words(self) -> (r: Self)
        ensures
            r.width == self.width,
            r.keep_words == true,
    {
        Wrap { width: self.width, keep_words: true }
    }

    /// Wrap the cell's content in place.
    pub fn apply(&self, grid: &mut Grid, row: usize, column: usize)
        requires
            old(grid).wf(),
            row < old(grid).rows(),
            column < old(grid).cols(),
            self.width >= 1,
            4 * (self.width as int) + old(grid).cells@[row as int]@[column as int]@.len()
                <= usize::MAX,
        ensures
            final(grid).wf(),
            final(grid).size == old(grid).size,
            final(grid).styles == old(grid).styles,
            final(grid).borders == old(grid).borders,
            final(grid).margin == old(grid).margin,
            final(grid).override_split_lines == old(grid).override_split_lines,
            forall|r: int, c: int|
                0 <= r < old(grid).rows() && 0 <= c < old(grid).cols()
                    ==> (#[trigger] final(grid).cells@[r]@[c])@ == (if r == row as int && c == column as int {
                    if self.keep_words {
                        spec_split_keeping_words(
                            old(grid).cells@[r]@[c]@,
                            self.width as int,
                        )
                    } else {
                        spec_split(old(grid).cells@[r]@[c]@, self.width as int)
                    }
                } else {
                    old(grid).cells@[r]@[c]@
                }),
    {
        let content = grid.get_cell_content(row, column).to_owned();
        let wrapped = if !self.keep_words {
            split(content.as_str(), self.width)
        } else {
            split_keeping_words(content.as_str(), self.width)
        };
        grid.set(&Entity::Cell(row, column), Settings::new().text(wrapped.as_str()));
    }
}

/// Pad a cell's content up to a minimum width.
pub struct MinWidth {
    pub size: usize,
    pub fill: char,
}

impl MinWidth {
    /// A padding up to `size` display columns, filled with spaces.
    pub fn new(size: usize) -> (r: Self)
        ensures
            r.size == size,
            r.fill == ' ',
    {
        Self { size, fill: ' ' }
    }

    /// Use this character for the added fill.
    pub fn fill_with(self, c: char) -> (r: Self)
        ensures
            r.size == self.size,
            r.fill == c,
    {
        MinWidth { size: self.size, fill: c }
    }
}

impl CellOption for MinWidth {
    fn change_cell(&mut self, grid: &mut Grid, row: usize, column: usize) {
        let content = grid.get_cell_content(row, column).to_owned();
        let new_content = increase_width(content.as_str(), self.size, self.fill);
        grid.set(&Entity::Cell(row, column), Settings::new().text(new_content.as_str()));
    }
}

} // verus!

verus! {

impl CellOption for Wrap {
    fn change_cell(&mut self, grid: &mut Grid, row: usize, column: usize) {
        if self.width == 0 {
            return ;
        }
        let content_len = grid.get_cell_content(row, column).unicode_len();
        if self.width > usize::MAX / 4 || content_len > usize::MAX - 4 * self.width {
            return ;
        }
        let w = Wrap { width: self.width, keep_words: self.keep_words };
        w.apply(grid, row, column);
    }
}

} // verus!
