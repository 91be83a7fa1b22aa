//! Sparse border storage, indexed by boundary number: a horizontal split
//! line per row boundary, a vertical split line per column boundary, and an
//! intersection character exactly where a horizontal and a vertical split
//! line cross. A boundary with no split line renders no character at all.

use vstd::prelude::*;

use crate::types::Border;

verus! {

/// The characters a cell boundary contributes to one printed line: the main
/// run character and the connectors at its left and right ends.
#[derive(Debug, Clone, Copy, PartialEq, Eq, Structural)]
pub struct BorderLine {
    pub main: Option<char>,
    pub connector1: Option<char>,
    pub connector2: Option<char>,
}

impl Default for BorderLine {
    /// No character on any part of the boundary.
    fn default() -> (r: Self)
        ensures
            r == (BorderLine { main: None, connector1: None, connector2: None }),
    {
        BorderLine { main: None, connector1: None, connector2: None }
    }
}

/// A structural failure of a border mutation.
#[derive(Debug, Clone, Copy, PartialEq, Eq, Structural)]
pub enum BorderError {
    /// The addressed intersection was never materialized.
    WrongIntersectionIndex,
    /// The row boundary index is out of range or was never split.
    WrongRowIndex,
    /// The column boundary index is out of range or was never split.
    WrongColumnIndex,
    /// A split line was given the wrong number of line symbols.
    NotEnoughLineSymbols,
    /// A split line was given the wrong number of intersection symbols.
    NotEnoughIntersections,
}

/// The number of present entries among the first `n` slots.
pub open spec fn count_some<T>(s: Seq<Option<T>>, n: int) -> int
    decreases n,
{
    if n <= 0 {
        0
    } else {
        count_some(s, n - 1) + (if s[n - 1] is Some {
            1int
        } else {
            0int
        })
    }
}

/// Sparse storage of the split lines and intersections of a grid.
#[derive(Debug, Clone)]
pub struct Borders {
    pub vertical: Vec<Option<Vec<char>>>,
    pub horizontal: Vec<Option<Vec<char>>>,
    pub intersections: Vec<Vec<Option<char>>>,
    pub count_rows: usize,
    pub count_columns: usize,
}

impl Borders {
    /// Shape and consistency of the storage: one slot per boundary, lines of
    /// the right length, and an intersection exactly where a horizontal and
    /// a vertical split line cross.
    pub open spec fn wf(self) -> bool {
        &&& self.horizontal.len() == self.count_rows + 1
        &&& self.vertical.len() == self.count_columns + 1
        &&& self.intersections.len() == self.count_rows + 1
        &&& forall|r: int|
            0 <= r <= self.count_rows ==> (#[trigger] self.intersections@[r])@.len()
                == self.count_columns + 1
        &&& forall|r: int|
            0 <= r <= self.count_rows && (#[trigger] self.horizontal@[r]) is Some
                ==> self.horizontal@[r]->0@.len() == self.count_columns
        &&& forall|c: int|
            0 <= c <= self.count_columns && (#[trigger] self.vertical@[c]) is Some
                ==> self.vertical@[c]->0@.len() == self.count_rows
        &&& forall|r: int, c: int|
            0 <= r <= self.count_rows && 0 <= c <= self.count_columns ==> ((
            #[trigger] self.intersections@[r]@[c]) is Some <==> (self.horizontal@[r] is Some
                && self.vertical@[c] is Some))
    }

    /// Whether the row boundary `r` holds a split line.
    pub open spec fn has_horizontal(self, r: int) -> bool {
        0 <= r <= self.count_rows && self.horizontal@[r] is Some
    }

    /// Whether the column boundary `c` holds a split line.
    pub open spec fn has_vertical(self, c: int) -> bool {
        0 <= c <= self.count_columns && self.vertical@[c] is Some
    }

    /// The character of the horizontal split line at row boundary `r` where
    /// it crosses column `c`, if that line exists.
    pub open spec fn horizontal_char(self, r: int, c: int) -> Option<char> {
        if self.has_horizontal(r) {
            Some(self.horizontal@[r]->0@[c])
        } else {
            None
        }
    }

    /// The character of the vertical split line at column boundary `c`
    /// where it crosses row `r`, if that line exists.
    pub open spec fn vertical_char(self, r: int, c: int) -> Option<char> {
        if self.has_vertical(c) {
            Some(self.vertical@[c]->0@[r])
        } else {
            None
        }
    }

    /// The intersection character at boundary pair `(r, c)`, if present.
    pub open spec fn inter(self, r: int, c: int) -> Option<char> {
        self.intersections@[r]@[c]
    }

    /// The number of vertical split lines present.
    pub open spec fn verticals_present(self) -> int {
        count_some(self.vertical@, self.count_columns + 1)
    }

    /// The number of horizontal split lines present.
    pub open spec fn horizontals_present(self) -> int {
        count_some(self.horizontal@, self.count_rows + 1)
    }

    /// Storage for a `rows x cols` grid with no split line yet.
    #[verifier::loop_isolation(false)]
    pub fn new(rows: usize, cols: usize) -> (r: Self)
        requires
            rows < usize::MAX,
            cols < usize::MAX,
        ensures
            r.wf(),
            r.count_rows == rows,
            r.count_columns == cols,
            forall|i: int| !r.has_horizontal(i),
            forall|i: int| !r.has_vertical(i),
            forall|i: int, j: int|
                0 <= i <= rows && 0 <= j <= cols ==> #[trigger] r.inter(i, j) is None,
    {
        let horizontal = none_lines(rows + 1);
        let vertical = none_lines(cols + 1);
        let mut intersections: Vec<Vec<Option<char>>> = Vec::new();
        let mut i: usize = 0;
        while i < rows + 1
            invariant
                i <= rows + 1,
                intersections.len() == i,
                forall|k: int|
                    0 <= k < i ==> (#[trigger] intersections@[k])@.len() == cols + 1,
                forall|k: int, l: int|
                    0 <= k < i && 0 <= l <= cols ==> #[trigger] intersections@[k]@[l] is None,
            decreases rows + 1 - i,
        {
            intersections.push(none_chars(cols + 1));
            i = i + 1;
        }
        Borders { vertical, horizontal, intersections, count_rows: rows, count_columns: cols }
    }

    /// Whether the column boundary holds a split line.
    pub fn is_there_vertical(&self, column: usize) -> (r: bool)
        requires
            self.wf(),
        ensures
            r == self.has_vertical(column as int),
    {
        column < self.vertical.len() && self.vertical[column].is_some()
    }

    /// Whether the row boundary holds a split line.
    pub fn is_there_horizontal(&self, row: usize) -> (r: bool)
        requires
            self.wf(),
        ensures
            r == self.has_horizontal(row as int),
    {
        row < self.horizontal.len() && self.horizontal[row].is_some()
    }

    /// Remove every split line and intersection.
    pub fn clear(&mut self)
        requires
            old(self).wf(),
        ensures
            final(self).wf(),
            final(self).count_rows == old(self).count_rows,
            final(self).count_columns == old(self).count_columns,
            forall|i: int| !final(self).has_horizontal(i),
            forall|i: int| !final(self).has_vertical(i),
    {
        let fresh = Borders::new(self.count_rows, self.count_columns);
        *self = fresh;
    }

    /// Install a horizontal split line at row boundary `row`: `line` holds
    /// one character per column, `intersections` one character per crossing
    /// with an existing vertical split line, plus one extra, matched in
    /// increasing boundary order. Fails without effect on a bad boundary
    /// index or wrong counts.
    #[verifier::loop_isolation(false)]
    pub fn set_horizontal(&mut self, row: usize, line: Vec<char>, intersections: &Vec<char>) -> (r:
        Result<(), BorderError>)
        requires
            old(self).wf(),
        ensures
            final(self).wf(),
            final(self).count_rows == old(self).count_rows,
            final(self).count_columns == old(self).count_columns,
            row as int > old(self).count_rows ==> r == Result::<(), BorderError>::Err(
                BorderError::WrongRowIndex,
            ) && *final(self) == *old(self),
            row as int <= old(self).count_rows && line@.len() != old(self).count_columns ==> r
                == Result::<(), BorderError>::Err(BorderError::NotEnoughLineSymbols) && *final(self)
                == *old(self),
            row as int <= old(self).count_rows && line@.len() == old(self).count_columns
                && intersections@.len() != old(self).verticals_present() + 1 ==> r == Result::<
                (),
                BorderError,
            >::Err(BorderError::NotEnoughIntersections) && *final(self) == *old(self),
            row as int <= old(self).count_rows && line@.len() == old(self).count_columns
                && intersections@.len() == old(self).verticals_present() + 1 ==> {
                &&& r == Result::<(), BorderError>::Ok(())
                &&& final(self).horizontal@ == old(self).horizontal@.update(
                    row as int,
                    Some(line),
                )
                &&& final(self).vertical == old(self).vertical
                &&& final(self).intersections@.len() == old(self).intersections@.len()
                &&& forall|k: int|
                    0 <= k <= old(self).count_rows && k != row as int
                        ==> #[trigger] final(self).intersections@[k] == old(self).intersections@[k]
                &&& forall|c: int|
                    0 <= c <= old(self).count_columns && old(self).has_vertical(c)
                        ==> #[trigger] final(self).inter(row as int, c) == Some(
                        intersections@[count_some(old(self).vertical@, c)],
                    )
                &&& forall|c: int|
                    0 <= c <= old(self).count_columns && !old(self).has_vertical(c)
                        ==> #[trigger] final(self).inter(row as int, c) == old(self).inter(
                        row as int,
                        c,
                    )
            },
    {
        if row > self.count_rows {
            return Err(BorderError::WrongRowIndex);
        }
        if line.len() != self.count_columns {
            return Err(BorderError::NotEnoughLineSymbols);
        }
        let need = self.count_verticals();
        if intersections.len() < 1 || intersections.len() - 1 != need {
            return Err(BorderError::NotEnoughIntersections);
        }
        self.horizontal[row] = Some(line);
        let mut c: usize = 0;
        let mut k: usize = 0;
        while c < self.count_columns + 1
            invariant
                c <= self.count_columns + 1,
                k == count_some(old(self).vertical@, c as int),
                self.vertical == old(self).vertical,
                self.count_rows == old(self).count_rows,
                self.count_columns == old(self).count_columns,
                self.horizontal@ == old(self).horizontal@.update(row as int, Some(line)),
                self.intersections@.len() == old(self).intersections@.len(),
                forall|j: int|
                    0 <= j <= old(self).count_rows && j != row as int
                        ==> #[trigger] self.intersections@[j] == old(self).intersections@[j],
                self.intersections@[row as int]@.len() == old(self).count_columns + 1,
                forall|l: int|
                    0 <= l < c && old(self).has_vertical(l)
                        ==> #[trigger] self.intersections@[row as int]@[l] == Some(
                        intersections@[count_some(old(self).vertical@, l)],
                    ),
                forall|l: int|
                    (c <= l <= old(self).count_columns || !old(self).has_vertical(l)) && 0 <= l
                        <= old(self).count_columns ==> #[trigger] self.intersections@[
                        row as int
                    ]@[l] == old(self).intersections@[row as int]@[l],
            decreases self.count_columns + 1 - c,
        {
            proof {
                lemma_count_some_bound(old(self).vertical@, c as int, self.count_columns + 1);
                lemma_count_some_bound(old(self).vertical@, c as int + 1, self.count_columns + 1);
            }
            if self.vertical[c].is_some() {
                self.intersections[row][c] = Some(intersections[k]);
                k = k + 1;
            }
            c = c + 1;
        }
        proof {
            lemma_horizontal_update_wf(*old(self), *self, row as int);
        }
        Ok(())
    }

    /// Install a vertical split line at column boundary `column`: `line`
    /// holds one character per row, `intersections` one character per
    /// crossing with an existing horizontal split line, plus one extra,
    /// matched in increasing boundary order. Fails without effect on a bad
    /// boundary index or wrong counts.
    #[verifier::loop_isolation(false)]
    pub fn set_vertical(&mut self, column: usize, line: Vec<char>, intersections: &Vec<char>) -> (r:
        Result<(), BorderError>)
        requires
            old(self).wf(),
        ensures
            final(self).wf(),
            final(self).count_rows == old(self).count_rows,
            final(self).count_columns == old(self).count_columns,
            column as int > old(self).count_columns ==> r == Result::<(), BorderError>::Err(
                BorderError::WrongRowIndex,
            ) && *final(self) == *old(self),
            column as int <= old(self).count_columns && line@.len() != old(self).count_rows ==> r
                == Result::<(), BorderError>::Err(BorderError::NotEnoughLineSymbols) && *final(self)
                == *old(self),
            column as int <= old(self).count_columns && line@.len() == old(self).count_rows
                && intersections@.len() != old(self).horizontals_present() + 1 ==> r == Result::<
                (),
                BorderError,
            >::Err(BorderError::NotEnoughIntersections) && *final(self) == *old(self),
            column as int <= old(self).count_columns && line@.len() == old(self).count_rows
                && intersections@.len() == old(self).horizontals_present() + 1 ==> {
                &&& r == Result::<(), BorderError>::Ok(())
                &&& final(self).vertical@ == old(self).vertical@.update(column as int, Some(line))
                &&& final(self).horizontal == old(self).horizontal
                &&& final(self).intersections@.len() == old(self).intersections@.len()
                &&& forall|j: int|
                    0 <= j <= old(self).count_rows ==> (#[trigger] final(self).intersections@[j])@
                        .len() == old(self).count_columns + 1
                &&& forall|j: int, l: int|
                    0 <= j <= old(self).count_rows && 0 <= l <= old(self).count_columns && l
                        != column as int ==> #[trigger] final(self).inter(j, l) == old(self).inter(
                        j,
                        l,
                    )
                &&& forall|j: int|
                    0 <= j <= old(self).count_rows && old(self).has_horizontal(j)
                        ==> #[trigger] final(self).inter(j, column as int) == Some(
                        intersections@[count_some(old(self).horizontal@, j)],
                    )
                &&& forall|j: int|
                    0 <= j <= old(self).count_rows && !old(self).has_horizontal(j)
                        ==> #[trigger] final(self).inter(j, column as int) == old(self).inter(
                        j,
                        column as int,
                    )
            },
    {
        if column > self.count_columns {
            return Err(BorderError::WrongRowIndex);
        }
        if line.len() != self.count_rows {
            return Err(BorderError::NotEnoughLineSymbols);
        }
        let need = self.count_horizontals();
        if intersections.len() < 1 || intersections.len() - 1 != need {
            return Err(BorderError::NotEnoughIntersections);
        }
        self.vertical[column] = Some(line);
        let mut j: usize = 0;
        let mut k: usize = 0;
        while j < self.count_rows + 1
            invariant
                j <= self.count_rows + 1,
                k == count_some(old(self).horizontal@, j as int),
                self.horizontal == old(self).horizontal,
                self.count_rows == old(self).count_rows,
                self.count_columns == old(self).count_columns,
                self.vertical@ == old(self).vertical@.update(column as int, Some(line)),
                self.intersections@.len() == old(self).intersections@.len(),
                forall|l: int|
                    0 <= l <= old(self).count_rows ==> (#[trigger] self.intersections@[l])@.len()
                        == old(self).count_columns + 1,
                forall|l: int, m: int|
                    0 <= l <= old(self).count_rows && 0 <= m <= old(self).count_columns && m
                        != column as int ==> #[trigger] self.intersections@[l]@[m] == old(
                        self,
                    ).intersections@[l]@[m],
                forall|l: int|
                    0 <= l < j && old(self).has_horizontal(l)
                        ==> #[trigger] self.intersections@[l]@[column as int] == Some(
                        intersections@[count_some(old(self).horizontal@, l)],
                    ),
                forall|l: int|
                    (j <= l <= old(self).count_rows || !old(self).has_horizontal(l)) && 0 <= l
                        <= old(self).count_rows ==> #[trigger] self.intersections@[l]@[
                        column as int
                    ] == old(self).intersections@[l]@[column as int],
            decreases self.count_rows + 1 - j,
        {
            proof {
                lemma_count_some_bound(old(self).horizontal@, j as int, self.count_rows + 1);
                lemma_count_some_bound(old(self).horizontal@, j as int + 1, self.count_rows + 1);
            }
            if self.horizontal[j].is_some() {
                self.intersections[j][column] = Some(intersections[k]);
                k = k + 1;
            }
            j = j + 1;
        }
        proof {
            lemma_vertical_update_wf(*old(self), *self, column as int);
        }
        Ok(())
    }

    /// The number of vertical split lines present.
    pub fn count_verticals(&self) -> (r: usize)
        ensures
            r == count_some(self.vertical@, self.vertical@.len() as int),
    {
        let mut k: usize = 0;
        let mut c: usize = 0;
        while c < self.vertical.len()
            invariant
                c <= self.vertical@.len(),
                k == count_some(self.vertical@, c as int),
            decreases self.vertical@.len() - c,
        {
            proof {
                lemma_count_some_bound(self.vertical@, c as int, self.vertical@.len() as int);
            }
            if self.vertical[c].is_some() {
                k = k + 1;
            }
            c = c + 1;
        }
        k
    }

    /// The number of horizontal split lines present.
    pub fn count_horizontals(&self) -> (r: usize)
        ensures
            r == count_some(self.horizontal@, self.horizontal@.len() as int),
    {
        let mut k: usize = 0;
        let mut c: usize = 0;
        while c < self.horizontal.len()
            invariant
                c <= self.horizontal@.len(),
                k == count_some(self.horizontal@, c as int),
            decreases self.horizontal@.len() - c,
        {
            proof {
                lemma_count_some_bound(self.horizontal@, c as int, self.horizontal@.len() as int);
            }
            if self.horizontal[c].is_some() {
                k = k + 1;
            }
            c = c + 1;
        }
        k
    }

    /// Replace one character of an installed intersection. Fails without
    /// effect if either crossing split line is missing.
    pub fn set_intersection(&mut self, row: usize, column: usize, c: char) -> (r: Result<
        (),
        BorderError,
    >)
        requires
            old(self).wf(),
        ensures
            final(self).wf(),
            final(self).count_rows == old(self).count_rows,
            final(self).count_columns == old(self).count_columns,
            !old(self).has_horizontal(row as int) ==> r == Result::<(), BorderError>::Err(
                BorderError::WrongRowIndex,
            ) && *final(self) == *old(self),
            old(self).has_horizontal(row as int) && !old(self).has_vertical(column as int) ==> r
                == Result::<(), BorderError>::Err(BorderError::WrongColumnIndex) && *final(self)
                == *old(self),
            old(self).has_horizontal(row as int) && old(self).has_vertical(column as int) ==> {
                &&& r == Result::<(), BorderError>::Ok(())
                &&& final(self).horizontal == old(self).horizontal
                &&& final(self).vertical == old(self).vertical
                &&& final(self).intersections@.len() == old(self).intersections@.len()
                &&& forall|j: int|
                    0 <= j <= old(self).count_rows && j != row as int
                        ==> #[trigger] final(self).intersections@[j] == old(self).intersections@[j]
                &&& final(self).intersections@[row as int]@ == old(self).intersections@[
                    row as int
                ]@.update(column as int, Some(c))
            },
    {
        if row >= self.horizontal.len() || self.horizontal[row].is_none() {
            return Err(BorderError::WrongRowIndex);
        }
        if column >= self.vertical.len() || self.vertical[column].is_none() {
            return Err(BorderError::WrongColumnIndex);
        }
        if self.intersections[row][column].is_none() {
            return Err(BorderError::WrongIntersectionIndex);
        }
        let ghost pre = *self;
        self.intersections[row][column] = Some(c);
        proof {
            assert forall|j: int, l: int|
                0 <= j <= pre.count_rows && 0 <= l <= pre.count_columns implies ((
            #[trigger] self.intersections@[j]@[l]) is Some <==> (self.horizontal@[j] is Some
                && self.vertical@[l] is Some)) by {
                if j != row as int || l != column as int {
                    assert(self.intersections@[j]@[l] == pre.intersections@[j]@[l]);
                }
            }
        }
        Ok(())
    }

    /// Replace one character of an installed horizontal split line. Fails
    /// without effect if the boundary was never split or the column is out
    /// of range.
    pub fn set_row_symbol(&mut self, row: usize, column: usize, c: char) -> (r: Result<
        (),
        BorderError,
    >)
        requires
            old(self).wf(),
        ensures
            final(self).wf(),
            final(self).count_rows == old(self).count_rows,
            final(self).count_columns == old(self).count_columns,
            !old(self).has_horizontal(row as int) ==> r == Result::<(), BorderError>::Err(
                BorderError::WrongRowIndex,
            ) && *final(self) == *old(self),
            old(self).has_horizontal(row as int) && column as int >= old(self).count_columns ==> r
                == Result::<(), BorderError>::Err(BorderError::WrongColumnIndex) && *final(self)
                == *old(self),
            old(self).has_horizontal(row as int) && (column as int) < old(self).count_columns ==> {
                &&& r == Result::<(), BorderError>::Ok(())
                &&& final(self).vertical == old(self).vertical
                &&& final(self).intersections == old(self).intersections
                &&& final(self).horizontal@.len() == old(self).horizontal@.len()
                &&& forall|j: int|
                    0 <= j <= old(self).count_rows && j != row as int
                        ==> #[trigger] final(self).horizontal@[j] == old(self).horizontal@[j]
                &&& final(self).horizontal@[row as int] is Some
                &&& final(self).horizontal@[row as int]->0@ == old(self).horizontal@[
                    row as int
                ]->0@.update(column as int, c)
            },
    {
        if row >= self.horizontal.len() || self.horizontal[row].is_none() {
            return Err(BorderError::WrongRowIndex);
        }
        if column >= self.count_columns {
            return Err(BorderError::WrongColumnIndex);
        }
        let line = self.horizontal.remove(row);
        let mut chars = match line {
            Some(v) => v,
            None => Vec::new(),
        };
        chars[column] = c;
        self.horizontal.insert(row, Some(chars));
        proof {
            assert(self.horizontal@ =~= old(self).horizontal@.update(
                row as int,
                self.horizontal@[row as int],
            ));
        }
        Ok(())
    }

    /// Replace one character of an installed vertical split line. Fails
    /// without effect if the boundary was never split or the row is out of
    /// range.
    pub fn set_column_symbol(&mut self, row: usize, column: usize, c: char) -> (r: Result<
        (),
        BorderError,
    >)
        requires
            old(self).wf(),
        ensures
            final(self).wf(),
            final(self).count_rows == old(self).count_rows,
            final(self).count_columns == old(self).count_columns,
            row as int > old(self).count_rows ==> r == Result::<(), BorderError>::Err(
                BorderError::WrongRowIndex,
            ) && *final(self) == *old(self),
            row as int <= old(self).count_rows && !old(self).has_vertical(column as int) ==> r
                == Result::<(), BorderError>::Err(BorderError::WrongColumnIndex) && *final(self)
                == *old(self),
            row as int <= old(self).count_rows && old(self).has_vertical(column as int) && row as int
                >= old(self).count_rows ==> r == Result::<(), BorderError>::Err(
                BorderError::WrongRowIndex,
            ) && *final(self) == *old(self),
            old(self).has_vertical(column as int) && (row as int) < old(self).count_rows ==> {
                &&& r == Result::<(), BorderError>::Ok(())
                &&& final(self).horizontal == old(self).horizontal
                &&& final(self).intersections == old(self).intersections
                &&& final(self).vertical@.len() == old(self).vertical@.len()
                &&& forall|j: int|
                    0 <= j <= old(self).count_columns && j != column as int
                        ==> #[trigger] final(self).vertical@[j] == old(self).vertical@[j]
                &&& final(self).vertical@[column as int] is Some
                &&& final(self).vertical@[column as int]->0@ == old(self).vertical@[
                    column as int
                ]->0@.update(row as int, c)
            },
    {
        if row > self.count_rows {
            return Err(BorderError::WrongRowIndex);
        }
        if column >= self.vertical.len() || self.vertical[column].is_none() {
            return Err(BorderError::WrongColumnIndex);
        }
        if row >= self.count_rows {
            return Err(BorderError::WrongRowIndex);
        }
        let line = self.vertical.remove(column);
        let mut chars = match line {
            Some(v) => v,
            None => Vec::new(),
        };
        chars[row] = c;
        self.vertical.insert(column, Some(chars));
        proof {
            assert(self.vertical@ =~= old(self).vertical@.update(
                column as int,
                self.vertical@[column as int],
            ));
        }
        Ok(())
    }

    /// The eight border characters around cell `(row, column)`: each side
    /// read from the neighboring boundary entry, absent where no split line
    /// or intersection is materialized.
    pub open spec fn spec_get_border(self, row: int, column: int) -> Border {
        Border {
            top: self.horizontal_char(row, column),
            bottom: self.horizontal_char(row + 1, column),
            left: self.vertical_char(row, column),
            right: self.vertical_char(row, column + 1),
            left_top_corner: self.inter(row, column),
            left_bottom_corner: self.inter(row + 1, column),
            right_top_corner: self.inter(row, column + 1),
            right_bottom_corner: self.inter(row + 1, column + 1),
        }
    }

    /// The border around one cell, synthesized from the four neighboring
    /// boundary entries; a missing entry yields no character on that side.
    pub fn get_border(&self, row: usize, column: usize) -> (r: Border)
        requires
            self.wf(),
            row < self.count_rows,
            column < self.count_columns,
        ensures
            r == self.spec_get_border(row as int, column as int),
    {
        Border {
            top: self.get_horizontal_char(row, column),
            bottom: self.get_horizontal_char(row + 1, column),
            left: self.get_vertical_char(row, column),
            right: self.get_vertical_char(row, column + 1),
            left_top_corner: self.get_intersection_char(row, column),
            left_bottom_corner: self.get_intersection_char(row + 1, column),
            right_top_corner: self.get_intersection_char(row, column + 1),
            right_bottom_corner: self.get_intersection_char(row + 1, column + 1),
        }
    }

    /// The character of the horizontal split line at `(row, column)`.
    pub fn get_horizontal_char(&self, row: usize, column: usize) -> (r: Option<char>)
        requires
            self.wf(),
            column < self.count_columns,
        ensures
            r == self.horizontal_char(row as int, column as int),
    {
        if row < self.horizontal.len() {
            match &self.horizontal[row] {
                Some(line) => Some(line[column]),
                None => None,
            }
        } else {
            None
        }
    }

    /// The character of the vertical split line at `(row, column)`.
    pub fn get_vertical_char(&self, row: usize, column: usize) -> (r: Option<char>)
        requires
            self.wf(),
            row < self.count_rows,
        ensures
            r == self.vertical_char(row as int, column as int),
    {
        if column < self.vertical.len() {
            match &self.vertical[column] {
                Some(line) => Some(line[row]),
                None => None,
            }
        } else {
            None
        }
    }

    /// The intersection character at boundary pair `(row, column)`.
    pub fn get_intersection_char(&self, row: usize, column: usize) -> (r: Option<char>)
        requires
            self.wf(),
        ensures
            r == (if row as int <= self.count_rows && column as int <= self.count_columns {
                self.inter(row as int, column as int)
            } else {
                None
            }),
    {
        if row < self.intersections.len() {
            let line = &self.intersections[row];
            if column < line.len() {
                line[column]
            } else {
                None
            }
        } else {
            None
        }
    }
}

/// A vector of `n` empty split-line slots.
fn none_lines(n: usize) -> (r: Vec<Option<Vec<char>>>)
    ensures
        r@.len() == n,
        forall|i: int| 0 <= i < n ==> #[trigger] r@[i] is None,
{
    let mut v: Vec<Option<Vec<char>>> = Vec::new();
    let mut i: usize = 0;
    while i < n
        invariant
            i <= n,
            v@.len() == i,
            forall|k: int| 0 <= k < i ==> #[trigger] v@[k] is None,
        decreases n - i,
    {
        v.push(None);
        i = i + 1;
    }
    v
}

/// A vector of `n` absent characters.
fn none_chars(n: usize) -> (r: Vec<Option<char>>)
    ensures
        r@.len() == n,
        forall|i: int| 0 <= i < n ==> #[trigger] r@[i] is None,
{
    let mut v: Vec<Option<char>> = Vec::new();
    let mut i: usize = 0;
    while i < n
        invariant
            i <= n,
            v@.len() == i,
            forall|k: int| 0 <= k < i ==> #[trigger] v@[k] is None,
        decreases n - i,
    {
        v.push(None);
        i = i + 1;
    }
    v
}

/// A vector of `n` copies of `c`.
pub fn char_line(c: char, n: usize) -> (r: Vec<char>)
    ensures
        r@ == crate::text::repeat_char_seq(c, n as int),
{
    let mut v: Vec<char> = Vec::new();
    let mut i: usize = 0;
    while i < n
        invariant
            i <= n,
            v@ =~= crate::text::repeat_char_seq(c, i as int),
        decreases n - i,
    {
        v.push(c);
        proof {
            assert(v@ =~= crate::text::repeat_char_seq(c, i + 1 as int));
        }
        i = i + 1;
    }
    v
}

proof fn lemma_count_some_bound<T>(s: Seq<Option<T>>, n: int, m: int)
    requires
        0 <= n <= m,
    ensures
        count_some(s, n) <= count_some(s, m),
        0 <= count_some(s, n) <= n,
    decreases m,
{
    if m > n {
        lemma_count_some_bound(s, n, m - 1);
    } else if n > 0 {
        lemma_count_some_bound(s, n - 1, n - 1);
    }
}

proof fn lemma_horizontal_update_wf(pre: Borders, post: Borders, row: int)
    requires
        pre.wf(),
        0 <= row <= pre.count_rows,
        post.count_rows == pre.count_rows,
        post.count_columns == pre.count_columns,
        post.vertical == pre.vertical,
        post.horizontal@.len() == pre.horizontal@.len(),
        post.horizontal@[row] is Some,
        post.horizontal@[row]->0@.len() == pre.count_columns,
        forall|j: int|
            0 <= j <= pre.count_rows && j != row ==> #[trigger] post.horizontal@[j]
                == pre.horizontal@[j],
        post.intersections@.len() == pre.intersections@.len(),
        forall|j: int|
            0 <= j <= pre.count_rows && j != row ==> #[trigger] post.intersections@[j]
                == pre.intersections@[j],
        (#[trigger] post.intersections@[row])@.len() == pre.count_columns + 1,
        forall|c: int|
            0 <= c <= pre.count_columns && pre.has_vertical(c)
                ==> (#[trigger] post.intersections@[row]@[c]) is Some,
        forall|c: int|
            0 <= c <= pre.count_columns && !pre.has_vertical(c)
                ==> #[trigger] post.intersections@[row]@[c] == pre.intersections@[row]@[c],
    ensures
        post.wf(),
{
    assert forall|r: int, c: int|
        0 <= r <= post.count_rows && 0 <= c <= post.count_columns implies ((
    #[trigger] post.intersections@[r]@[c]) is Some <==> (post.horizontal@[r] is Some
        && post.vertical@[c] is Some)) by {
        if r != row {
            assert(post.intersections@[r] == pre.intersections@[r]);
            assert(post.horizontal@[r] == pre.horizontal@[r]);
        } else {
            if pre.has_vertical(c) {
            } else {
                assert(post.intersections@[row]@[c] == pre.intersections@[row]@[c]);
                assert(!(pre.vertical@[c] is Some));
                if pre.horizontal@[row] is Some {
                    assert(!(pre.intersections@[row]@[c] is Some));
                } else {
                    assert(!(pre.intersections@[row]@[c] is Some));
                }
            }
        }
    }
}

proof fn lemma_vertical_update_wf(pre: Borders, post: Borders, column: int)
    requires
        pre.wf(),
        0 <= column <= pre.count_columns,
        post.count_rows == pre.count_rows,
        post.count_columns == pre.count_columns,
        post.horizontal == pre.horizontal,
        post.vertical@.len() == pre.vertical@.len(),
        post.vertical@[column] is Some,
        post.vertical@[column]->0@.len() == pre.count_rows,
        forall|j: int|
            0 <= j <= pre.count_columns && j != column ==> #[trigger] post.vertical@[j]
                == pre.vertical@[j],
        post.intersections@.len() == pre.intersections@.len(),
        forall|j: int|
            0 <= j <= pre.count_rows ==> (#[trigger] post.intersections@[j])@.len()
                == pre.count_columns + 1,
        forall|j: int, l: int|
            0 <= j <= pre.count_rows && 0 <= l <= pre.count_columns && l != column
                ==> #[trigger] post.intersections@[j]@[l] == pre.intersections@[j]@[l],
        forall|j: int|
            0 <= j <= pre.count_rows && pre.has_horizontal(j)
                ==> (#[trigger] post.intersections@[j]@[column]) is Some,
        forall|j: int|
            0 <= j <= pre.count_rows && !pre.has_horizontal(j)
                ==> #[trigger] post.intersections@[j]@[column] == pre.intersections@[j]@[column],
    ensures
        post.wf(),
{
    assert forall|r: int, c: int|
        0 <= r <= post.count_rows && 0 <= c <= post.count_columns implies ((
    #[trigger] post.intersections@[r]@[c]) is Some <==> (post.horizontal@[r] is Some
        && post.vertical@[c] is Some)) by {
        if c != column {
            assert(post.intersections@[r]@[c] == pre.intersections@[r]@[c]);
            assert(post.vertical@[c] == pre.vertical@[c]);
        } else {
            if pre.has_horizontal(r) {
            } else {
                assert(post.intersections@[r]@[column] == pre.intersections@[r]@[column]);
                assert(!(pre.intersections@[r]@[column] is Some));
            }
        }
    }
}

} // verus!

verus! {

impl Borders {
    /// The boundary entries of the horizontal split line at row boundary
    /// `row`: all empty when the boundary was never split, else one main
    /// character per column with the neighboring intersections.
    pub open spec fn spec_get_row(self, row: int) -> Seq<BorderLine> {
        if !self.has_horizontal(row) {
            Seq::new(
                self.count_columns as nat,
                |c: int| BorderLine { main: None, connector1: None, connector2: None },
            )
        } else {
            Seq::new(
                self.count_columns as nat,
                |c: int|
                    BorderLine {
                        main: self.horizontal_char(row, c),
                        connector1: self.inter(row, c),
                        connector2: self.inter(row, c + 1),
                    },
            )
        }
    }

    /// The vertical connectors a content row of cells meets: per column
    /// its left and right vertical split characters, where those exist.
    pub open spec fn spec_inner_row(self, row: int) -> Seq<BorderLine> {
        Seq::new(
            self.count_columns as nat,
            |c: int|
                BorderLine {
                    main: None,
                    connector1: self.vertical_char(row, c),
                    connector2: self.vertical_char(row, c + 1),
                },
        )
    }

    /// The boundary entries of the horizontal split line at `row`.
    #[verifier::loop_isolation(false)]
    pub fn get_row(&self, row: usize) -> (r: Vec<BorderLine>)
        requires
            self.wf(),
            row <= self.count_rows,
        ensures
            r@ == self.spec_get_row(row as int),
    {
        let present = self.is_there_horizontal(row);
        let mut line: Vec<BorderLine> = Vec::new();
        let mut c: usize = 0;
        while c < self.count_columns
            invariant
                c <= self.count_columns,
                line@.len() == c,
                forall|j: int|
                    0 <= j < c ==> #[trigger] line@[j] == self.spec_get_row(row as int)[j],
            decreases self.count_columns - c,
        {
            if present {
                line.push(
                    BorderLine {
                        main: self.get_horizontal_char(row, c),
                        connector1: self.get_intersection_char(row, c),
                        connector2: self.get_intersection_char(row, c + 1),
                    },
                );
            } else {
                line.push(BorderLine { main: None, connector1: None, connector2: None });
            }
            c = c + 1;
        }
        proof {
            assert(line@ =~= self.spec_get_row(row as int));
        }
        line
    }

    /// The vertical connectors met by the cells of content row `row`.
    #[verifier::loop_isolation(false)]
    pub fn get_inner_row(&self, row: usize) -> (r: Vec<BorderLine>)
        requires
            self.wf(),
            row < self.count_rows,
        ensures
            r@ == self.spec_inner_row(row as int),
    {
        let mut line: Vec<BorderLine> = Vec::new();
        let mut c: usize = 0;
        while c < self.count_columns
            invariant
                c <= self.count_columns,
                line@.len() == c,
                forall|j: int|
                    0 <= j < c ==> #[trigger] line@[j] == self.spec_inner_row(row as int)[j],
            decreases self.count_columns - c,
        {
            line.push(
                BorderLine {
                    main: None,
                    connector1: self.get_vertical_char(row, c),
                    connector2: self.get_vertical_char(row, c + 1),
                },
            );
            c = c + 1;
        }
        proof {
            assert(line@ =~= self.spec_inner_row(row as int));
        }
        line
    }
}

} // verus!

verus! {

/// The number of present entries never exceeds the number of slots.
pub proof fn lemma_count_some_all<T>(s: Seq<Option<T>>)
    ensures
        0 <= count_some(s, s.len() as int) <= s.len(),
{
    lemma_count_some_bound(s, s.len() as int, s.len() as int);
}

/// Counting present entries grows with the number of slots looked at.
pub proof fn lemma_count_some_below<T>(s: Seq<Option<T>>, l: int)
    requires
        0 <= l <= s.len(),
    ensures
        0 <= count_some(s, l) <= count_some(s, s.len() as int),
{
    lemma_count_some_bound(s, l, s.len() as int);
}

} // verus!
