//! Text measurement and manipulation: display width of strings, splitting
//! content into lines, tab replacement, whitespace trimming and repetition
//! of fill characters.

use vstd::prelude::*;

verus! {

/// The display width, in terminal columns, of a sequence of characters, as
/// unicode-width assigns it. The width depends on the characters alone.
pub uninterp spec fn str_width(s: Seq<char>) -> nat;

/// Whether a character has the Unicode `White_Space` property.
pub uninterp spec fn white_char(c: char) -> bool;

/// Relies on unicode_width's `UnicodeWidthStr::width`: the displayed width
/// in columns of a string; it depends on the characters alone, and an empty
/// string has width 0.
#[verifier::external_body]
pub fn display_width(s: &str) -> (r: usize)
    ensures
        r == str_width(s@),
        s@.len() == 0 ==> r == 0,
{
    unicode_width::UnicodeWidthStr::width(s)
}

/// Relies on std's `char::is_whitespace`: whether the character has the
/// Unicode `White_Space` property; it depends on the character alone.
#[verifier::external_body]
pub fn is_white(c: char) -> (r: bool)
    ensures
        r == white_char(c),
{
    c.is_whitespace()
}

/// Relies on std's `String::push`: appends one character at the end.
#[verifier::external_body]
pub fn push_char(s: &mut String, c: char)
    ensures
        final(s)@ == old(s)@.push(c),
{
    s.push(c)
}

/// `width - took`, stopping at zero instead of crossing it.
pub open spec fn clamped_sub(a: int, b: int) -> int {
    if a >= b {
        a - b
    } else {
        0
    }
}

/// `a + b`, stopping at the machine limit instead of overflowing.
pub open spec fn capped_add(a: int, b: int) -> int {
    if a + b <= usize::MAX {
        a + b
    } else {
        usize::MAX as int
    }
}

/// An integer clamped into the range of `usize`.
pub open spec fn cap_usize(a: int) -> usize {
    if a >= usize::MAX {
        usize::MAX
    } else if a <= 0 {
        0
    } else {
        a as usize
    }
}

/// Executable [`clamped_sub`].
pub fn sub_clamped(a: usize, b: usize) -> (r: usize)
    ensures
        r == clamped_sub(a as int, b as int),
{
    if a >= b {
        a - b
    } else {
        0
    }
}

/// Executable [`capped_add`].
pub fn add_capped(a: usize, b: usize) -> (r: usize)
    ensures
        r == capped_add(a as int, b as int),
{
    if a <= usize::MAX - b {
        a + b
    } else {
        usize::MAX
    }
}

/// `n` copies of the character `c`.
pub open spec fn repeat_char_seq(c: char, n: int) -> Seq<char> {
    if n <= 0 {
        Seq::empty()
    } else {
        Seq::new(n as nat, |i: int| c)
    }
}

/// Append `n` copies of `c` at the end of `out`.
pub fn repeat_char(out: &mut String, c: char, n: usize)
    ensures
        final(out)@ == old(out)@ + repeat_char_seq(c, n as int),
{
    let mut i: usize = 0;
    while i < n
        invariant
            i <= n,
            out@ == old(out)@ + repeat_char_seq(c, i as int),
        decreases n - i,
    {
        push_char(out, c);
        proof {
            assert(old(out)@ + repeat_char_seq(c, i as int + 1) =~= (old(out)@ + repeat_char_seq(
                c,
                i as int,
            )).push(c));
        }
        i = i + 1;
    }
}

/// The lines of a string, in the way std's `str::lines` cuts them: split at
/// a line feed or at a carriage return followed by a line feed, the final
/// line ending optional. `cur` is the part of the current line read so far.
pub open spec fn lines_go(s: Seq<char>, cur: Seq<char>) -> Seq<Seq<char>>
    decreases s.len(),
{
    if s.len() == 0 {
        if cur.len() == 0 {
            Seq::empty()
        } else {
            seq![cur]
        }
    } else if s[0] == '\n' {
        seq![cur] + lines_go(s.drop_first(), Seq::empty())
    } else if s[0] == '\r' && s.len() >= 2 && s[1] == '\n' {
        seq![cur] + lines_go(s.skip(2), Seq::empty())
    } else {
        lines_go(s.drop_first(), cur.push(s[0]))
    }
}

/// The lines of a string: no line for the empty string, and no extra empty
/// line after a trailing line ending.
pub open spec fn spec_lines(s: Seq<char>) -> Seq<Seq<char>> {
    lines_go(s, Seq::empty())
}

/// Split a string into its lines.
pub fn split_lines(s: &str) -> (r: Vec<String>)
    ensures
        r.deep_view() == spec_lines(s@),
{
    let n = s.unicode_len();
    let mut acc: Vec<String> = Vec::new();
    let mut cur = String::new();
    let mut i: usize = 0;
    proof {
        assert(s@.skip(0) =~= s@);
        assert(acc.deep_view() =~= Seq::<Seq<char>>::empty());
        assert(acc.deep_view() + lines_go(s@, Seq::empty()) =~= lines_go(s@, Seq::empty()));
    }
    while i < n
        invariant
            i <= n,
            n == s@.len(),
            spec_lines(s@) == acc.deep_view() + lines_go(s@.skip(i as int), cur@),
        decreases n - i,
    {
        let c = s.get_char(i);
        proof {
            assert(s@.skip(i as int).len() == n - i);
            assert(s@.skip(i as int)[0] == s@[i as int]);
        }
        if c == '\n' {
            proof {
                assert(s@.skip(i as int).drop_first() =~= s@.skip(i as int + 1));
                assert(lines_go(s@.skip(i as int), cur@) == seq![cur@] + lines_go(
                    s@.skip(i as int + 1),
                    Seq::empty(),
                ));
            }
            acc.push(cur);
            cur = String::new();
            proof {
                assert(acc.deep_view() + lines_go(s@.skip(i as int + 1), cur@) =~= spec_lines(s@));
            }
            i = i + 1;
        } else if c == '\r' && i + 1 < n && s.get_char(i + 1) == '\n' {
            proof {
                assert(s@.skip(i as int)[1] == s@[i as int + 1]);
                assert(s@.skip(i as int).skip(2) =~= s@.skip(i as int + 2));
                assert(lines_go(s@.skip(i as int), cur@) == seq![cur@] + lines_go(
                    s@.skip(i as int + 2),
                    Seq::empty(),
                ));
            }
            acc.push(cur);
            cur = String::new();
            proof {
                assert(acc.deep_view() + lines_go(s@.skip(i as int + 2), cur@) =~= spec_lines(s@));
            }
            i = i + 2;
        } else {
            proof {
                assert(s@.skip(i as int).drop_first() =~= s@.skip(i as int + 1));
                assert(lines_go(s@.skip(i as int), cur@) == lines_go(
                    s@.skip(i as int + 1),
                    cur@.push(c),
                ));
            }
            push_char(&mut cur, c);
            i = i + 1;
        }
    }
    proof {
        assert(s@.skip(i as int) =~= Seq::<char>::empty());
    }
    if cur.unicode_len() > 0 {
        acc.push(cur);
        proof {
            assert(acc.deep_view() =~= spec_lines(s@));
        }
    } else {
        proof {
            assert(acc.deep_view() =~= spec_lines(s@));
        }
    }
    acc
}

/// The largest display width among a set of lines.
pub open spec fn max_line_width(lines: Seq<Seq<char>>) -> int
    decreases lines.len(),
{
    if lines.len() == 0 {
        0
    } else {
        let rest = max_line_width(lines.drop_last());
        let last = str_width(lines.last()) as int;
        if last >= rest {
            last
        } else {
            rest
        }
    }
}

/// The display width of a whole content string: the largest display width
/// among its lines.
pub open spec fn spec_string_width(s: Seq<char>) -> int {
    max_line_width(spec_lines(s))
}

/// The width a multi-line content displays at: the widest of its lines.
pub fn string_width(text: &str) -> (r: usize)
    ensures
        r == spec_string_width(text@),
{
    let lines = split_lines(text);
    let mut best: usize = 0;
    let mut i: usize = 0;
    while i < lines.len()
        invariant
            i <= lines.len(),
            lines.deep_view() == spec_lines(text@),
            best == max_line_width(spec_lines(text@).take(i as int)),
        decreases lines.len() - i,
    {
        let w = display_width(lines[i].as_str());
        proof {
            assert(lines.deep_view()[i as int] == lines@[i as int]@);
            assert(spec_lines(text@).take(i as int + 1).drop_last() =~= spec_lines(text@).take(
                i as int,
            ));
            assert(spec_lines(text@).take(i as int + 1).last() == spec_lines(text@)[i as int]);
        }
        if w > best {
            best = w;
        }
        i = i + 1;
    }
    proof {
        assert(spec_lines(text@).take(i as int) =~= spec_lines(text@));
    }
    best
}

/// Tab replacement: each tab not preceded by a backslash becomes `n` spaces
/// (removal for `n` 0); a backslash-escaped tab stays. `prev` is the
/// character just before `s`.
pub open spec fn rt_go(s: Seq<char>, prev: Option<char>, n: int) -> Seq<char>
    decreases s.len(),
{
    if s.len() == 0 {
        Seq::empty()
    } else {
        let c = s[0];
        let head = if c == '\t' && prev != Some('\\') {
            repeat_char_seq(' ', n)
        } else {
            seq![c]
        };
        head + rt_go(s.drop_first(), Some(c), n)
    }
}

/// The content with every unescaped tab replaced by `n` spaces.
pub open spec fn spec_replace_tab(s: Seq<char>, n: int) -> Seq<char> {
    rt_go(s, None, n)
}

/// Replace every tab of the content by `n` spaces; a tab directly preceded
/// by a backslash is kept as it is.
pub fn replace_tab(cell: &mut String, n: usize)
    ensures
        final(cell)@ == spec_replace_tab(old(cell)@, n as int),
{
    let len = cell.unicode_len();
    let mut out = String::new();
    let mut prev: Option<char> = None;
    let mut i: usize = 0;
    proof {
        assert(cell@.skip(0) =~= cell@);
        assert(out@ + rt_go(cell@, None, n as int) =~= rt_go(cell@, None, n as int));
    }
    while i < len
        invariant
            i <= len,
            len == cell@.len(),
            cell@ == old(cell)@,
            prev == (if i == 0 {
                Option::<char>::None
            } else {
                Some(cell@[i as int - 1])
            }),
            spec_replace_tab(cell@, n as int) == out@ + rt_go(cell@.skip(i as int), prev, n as int),
        decreases len - i,
    {
        let c = cell.as_str().get_char(i);
        proof {
            assert(cell@.skip(i as int)[0] == cell@[i as int]);
            assert(cell@.skip(i as int).drop_first() =~= cell@.skip(i as int + 1));
        }
        let escaped = match prev {
            Some(p) => p == '\\',
            None => false,
        };
        if c == '\t' && !escaped {
            repeat_char(&mut out, ' ', n);
        } else {
            push_char(&mut out, c);
            proof {
                assert(out@ =~= (out@.drop_last() + seq![c]));
            }
        }
        prev = Some(c);
        i = i + 1;
    }
    proof {
        assert(cell@.skip(i as int) =~= Seq::<char>::empty());
        assert(out@ =~= spec_replace_tab(cell@, n as int));
    }
    *cell = out;
}

/// The number of leading whitespace characters.
pub open spec fn white_prefix_len(s: Seq<char>) -> int
    decreases s.len(),
{
    if s.len() > 0 && white_char(s[0]) {
        1 + white_prefix_len(s.drop_first())
    } else {
        0
    }
}

/// The number of trailing whitespace characters.
pub open spec fn white_suffix_len(s: Seq<char>) -> int
    decreases s.len(),
{
    if s.len() > 0 && white_char(s.last()) {
        1 + white_suffix_len(s.drop_last())
    } else {
        0
    }
}

/// The content with leading and trailing whitespace removed.
pub open spec fn spec_trim(s: Seq<char>) -> Seq<char> {
    let a = white_prefix_len(s);
    let rest = s.skip(a);
    rest.take(rest.len() - white_suffix_len(rest))
}

proof fn lemma_white_prefix_bound(s: Seq<char>)
    ensures
        0 <= white_prefix_len(s) <= s.len(),
    decreases s.len(),
{
    if s.len() > 0 && white_char(s[0]) {
        lemma_white_prefix_bound(s.drop_first());
    }
}

proof fn lemma_white_suffix_bound(s: Seq<char>)
    ensures
        0 <= white_suffix_len(s) <= s.len(),
    decreases s.len(),
{
    if s.len() > 0 && white_char(s.last()) {
        lemma_white_suffix_bound(s.drop_last());
    }
}

proof fn lemma_white_prefix_step(s: Seq<char>, i: int)
    requires
        0 <= i < s.len(),
        white_char(s[i]),
        white_prefix_len(s.skip(i)) >= s.len() - i || white_prefix_len(s.skip(i)) > 0
            || white_char(s.skip(i)[0]),
    ensures
        white_prefix_len(s.skip(i)) == 1 + white_prefix_len(s.skip(i + 1)),
{
    assert(s.skip(i)[0] == s[i]);
    assert(s.skip(i).drop_first() =~= s.skip(i + 1));
}

proof fn lemma_white_suffix_step(s: Seq<char>, i: int)
    requires
        0 < i <= s.len(),
        white_char(s[i - 1]),
    ensures
        white_suffix_len(s.take(i)) == 1 + white_suffix_len(s.take(i - 1)),
{
    assert(s.take(i).last() == s[i - 1]);
    assert(s.take(i).drop_last() =~= s.take(i - 1));
}

/// The content without its leading and trailing whitespace.
pub fn trim_str<'a>(s: &'a str) -> (r: &'a str)
    ensures
        r@ == spec_trim(s@),
{
    let len = s.unicode_len();
    let mut a: usize = 0;
    proof {
        assert(s@.skip(0) =~= s@);
    }
    while a < len && is_white(s.get_char(a))
        invariant
            a <= len,
            len == s@.len(),
            white_prefix_len(s@) == a + white_prefix_len(s@.skip(a as int)),
            forall|j: int| 0 <= j < a ==> white_char(s@[j]),
        decreases len - a,
    {
        proof {
            assert(s@.skip(a as int)[0] == s@[a as int]);
            assert(s@.skip(a as int).drop_first() =~= s@.skip(a as int + 1));
        }
        a = a + 1;
    }
    proof {
        if a < len {
            assert(s@.skip(a as int)[0] == s@[a as int]);
            assert(white_prefix_len(s@.skip(a as int)) == 0);
        } else {
            assert(s@.skip(a as int) =~= Seq::<char>::empty());
        }
        assert(white_prefix_len(s@) == a);
    }
    let mut b: usize = len;
    proof {
        assert(s@.skip(a as int).take(len - a) =~= s@.skip(a as int));
    }
    while b > a && is_white(s.get_char(b - 1))
        invariant
            a <= b <= len,
            len == s@.len(),
            white_prefix_len(s@) == a,
            white_suffix_len(s@.skip(a as int)) == len - b + white_suffix_len(
                s@.skip(a as int).take(b - a),
            ),
        decreases b,
    {
        proof {
            let rest = s@.skip(a as int);
            assert(rest[b - a - 1] == s@[b as int - 1]);
            lemma_white_suffix_step(rest, b - a);
        }
        b = b - 1;
    }
    proof {
        let rest = s@.skip(a as int);
        if b > a {
            assert(rest.take(b - a).last() == s@[b as int - 1]);
            assert(white_suffix_len(rest.take(b - a)) == 0);
        } else {
            assert(rest.take(0) =~= Seq::<char>::empty());
        }
        assert(white_suffix_len(rest) == len - b);
        assert(rest.take(rest.len() - (len - b)) =~= s@.subrange(a as int, b as int));
    }
    s.substring_char(a, b)
}

/// Whether every character of the line is whitespace.
pub open spec fn is_blank(s: Seq<char>) -> bool {
    forall|i: int| 0 <= i < s.len() ==> white_char(s[i])
}

/// Whether the line holds only whitespace.
pub fn line_is_blank(s: &str) -> (r: bool)
    ensures
        r == is_blank(s@),
{
    let len = s.unicode_len();
    let mut i: usize = 0;
    while i < len
        invariant
            i <= len,
            len == s@.len(),
            forall|j: int| 0 <= j < i ==> white_char(s@[j]),
        decreases len - i,
    {
        if !is_white(s.get_char(i)) {
            return false;
        }
        i = i + 1;
    }
    true
}

} // verus!
