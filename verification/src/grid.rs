//! The grid: fixed row and column counts, per-cell content, cascading
//! styles, sparse borders and margins, mutated in place through explicit
//! setters and rendered as one block of characters.

use vstd::prelude::*;

use crate::borders::Borders;
use crate::styles::StyleMap;
use crate::types::Border;
use crate::types::Entity;
use crate::types::Margin;
use crate::types::Settings;
use crate::types::Style;

verus! {

/// Whether row index `r` belongs to the entity's row range.
pub open spec fn row_in(e: Entity, r: int, rows: int) -> bool {
    match e {
        Entity::Global => 0 <= r < rows,
        Entity::Column(c) => 0 <= r < rows,
        Entity::Row(rr) => r == rr,
        Entity::Cell(rr, cc) => r == rr,
    }
}

/// Whether column index `c` belongs to the entity's column range.
pub open spec fn col_in(e: Entity, c: int, cols: int) -> bool {
    match e {
        Entity::Global => 0 <= c < cols,
        Entity::Column(cc) => c == cc,
        Entity::Row(rr) => 0 <= c < cols,
        Entity::Cell(rr, cc) => c == cc,
    }
}

/// Whether the entity addresses cell `(r, c)`.
pub open spec fn covers(e: Entity, r: int, c: int, rows: int, cols: int) -> bool {
    row_in(e, r, rows) && col_in(e, c, cols)
}

/// Whether the entity addresses cell `(r, c)` of a `rows x cols` grid.
pub fn entity_covers(e: &Entity, r: usize, c: usize, rows: usize, cols: usize) -> (b: bool)
    requires
        r < rows,
        c < cols,
    ensures
        b == covers(*e, r as int, c as int, rows as int, cols as int),
{
    match e {
        Entity::Global => true,
        Entity::Column(cc) => c == *cc,
        Entity::Row(rr) => r == *rr,
        Entity::Cell(rr, cc) => r == *rr && c == *cc,
    }
}

/// The character a vertical boundary slot `(r, k)` holds after a border
/// was applied to an entity: the left side of a covered cell at `k` wins,
/// then the right side of a covered cell at `k - 1`, else the old value.
pub open spec fn sb_v(
    e: Entity,
    b: Border,
    old: Option<char>,
    r: int,
    k: int,
    rows: int,
    cols: int,
) -> Option<char> {
    if covers(e, r, k, rows, cols) && b.left is Some {
        b.left
    } else if covers(e, r, k - 1, rows, cols) && b.right is Some {
        b.right
    } else {
        old
    }
}

/// The character a horizontal boundary slot `(k, c)` holds after a border
/// was applied: the top side of a covered cell at row `k` wins, then the
/// bottom side of a covered cell at row `k - 1`, else the old value.
pub open spec fn sb_h(
    e: Entity,
    b: Border,
    old: Option<char>,
    k: int,
    c: int,
    rows: int,
    cols: int,
) -> Option<char> {
    if covers(e, k, c, rows, cols) && b.top is Some {
        b.top
    } else if covers(e, k - 1, c, rows, cols) && b.bottom is Some {
        b.bottom
    } else {
        old
    }
}

/// The character an intersection `(k, l)` holds after a border was
/// applied, the corners of the covered cells around it in their priority:
/// top-left, bottom-left, top-right, bottom-right.
pub open spec fn sb_i(
    e: Entity,
    b: Border,
    old: Option<char>,
    k: int,
    l: int,
    rows: int,
    cols: int,
) -> Option<char> {
    if covers(e, k, l, rows, cols) && b.left_top_corner is Some {
        b.left_top_corner
    } else if covers(e, k - 1, l, rows, cols) && b.left_bottom_corner is Some {
        b.left_bottom_corner
    } else if covers(e, k, l - 1, rows, cols) && b.right_top_corner is Some {
        b.right_top_corner
    } else if covers(e, k - 1, l - 1, rows, cols) && b.right_bottom_corner is Some {
        b.right_bottom_corner
    } else {
        old
    }
}

/// Whether a border description touches the left side of a cell.
pub open spec fn left_affected(b: Border) -> bool {
    b.left is Some || b.left_bottom_corner is Some || b.left_top_corner is Some
}

/// Whether a border description touches the right side of a cell.
pub open spec fn right_affected(b: Border) -> bool {
    b.right is Some || b.right_bottom_corner is Some || b.right_top_corner is Some
}

/// Whether a border description touches the top side of a cell.
pub open spec fn top_affected(b: Border) -> bool {
    b.top is Some || b.right_top_corner is Some || b.left_top_corner is Some
}

/// Whether a border description touches the bottom side of a cell.
pub open spec fn bottom_affected(b: Border) -> bool {
    b.bottom is Some || b.right_bottom_corner is Some || b.left_bottom_corner is Some
}

/// Whether the vertical boundary `k` must exist before this border is
/// applied to the entity.
pub open spec fn need_v(e: Entity, b: Border, k: int, rows: int, cols: int) -> bool {
    (left_affected(b) && col_in(e, k, cols) && 0 <= k < cols && rows > 0 && (match e {
        Entity::Row(r) => 0 <= r < rows,
        _ => true,
    })) || (right_affected(b) && col_in(e, k - 1, cols) && 0 <= k - 1 < cols && rows > 0 && (
    match e {
        Entity::Row(r) => 0 <= r < rows,
        _ => true,
    }))
}

/// Whether the horizontal boundary `k` must exist before this border is
/// applied to the entity.
pub open spec fn need_h(e: Entity, b: Border, k: int, rows: int, cols: int) -> bool {
    (top_affected(b) && row_in(e, k, rows) && 0 <= k < rows && cols > 0 && (match e {
        Entity::Column(c) => 0 <= c < cols,
        _ => true,
    })) || (bottom_affected(b) && row_in(e, k - 1, rows) && 0 <= k - 1 < rows && cols > 0 && (
    match e {
        Entity::Column(c) => 0 <= c < cols,
        _ => true,
    }))
}

/// Whether every split line and intersection a strict border application
/// to the entity would write already exists.
pub open spec fn strict_ok(b: Borders, e: Entity, br: Border, rows: int, cols: int) -> bool {
    &&& forall|r: int, k: int|
        #[trigger] covers(e, r, k, rows, cols) && br.left is Some ==> b.has_vertical(k)
    &&& forall|r: int, k: int|
        #[trigger] covers(e, r, k, rows, cols) && br.right is Some ==> b.has_vertical(k + 1)
    &&& forall|k: int, c: int|
        #[trigger] covers(e, k, c, rows, cols) && br.top is Some ==> b.has_horizontal(k)
    &&& forall|k: int, c: int|
        #[trigger] covers(e, k, c, rows, cols) && br.bottom is Some ==> b.has_horizontal(k + 1)
    &&& forall|k: int, l: int|
        #[trigger] covers(e, k, l, rows, cols) && br.left_top_corner is Some ==> b.has_horizontal(
            k,
        ) && b.has_vertical(l)
    &&& forall|k: int, l: int|
        #[trigger] covers(e, k, l, rows, cols) && br.right_top_corner is Some ==> b.has_horizontal(
            k,
        ) && b.has_vertical(l + 1)
    &&& forall|k: int, l: int|
        #[trigger] covers(e, k, l, rows, cols) && br.left_bottom_corner is Some
            ==> b.has_horizontal(k + 1) && b.has_vertical(l)
    &&& forall|k: int, l: int|
        #[trigger] covers(e, k, l, rows, cols) && br.right_bottom_corner is Some
            ==> b.has_horizontal(k + 1) && b.has_vertical(l + 1)
}

/// A grid of textual cells with styles, borders and margins.
#[derive(Debug)]
pub struct Grid {
    pub size: (usize, usize),
    pub cells: Vec<Vec<String>>,
    pub styles: StyleMap,
    pub margin: Margin,
    pub borders: Borders,
    pub override_split_lines: Vec<Option<String>>,
}

impl Grid {
    /// Consistency of the grid's parts: a cell per position, style
    /// storage and border storage shaped for the same size, and one
    /// override slot per row boundary.
    pub open spec fn wf(self) -> bool {
        &&& self.size.0 + 1 < usize::MAX
        &&& self.size.1 + 1 < usize::MAX
        &&& self.cells.len() == self.size.0
        &&& forall|r: int|
            0 <= r < self.size.0 ==> (#[trigger] self.cells@[r])@.len() == self.size.1
        &&& self.styles.wf(self.size.0 as int, self.size.1 as int)
        &&& self.styles.row_overrides.len() == self.size.0
        &&& self.styles.col_overrides.len() == self.size.1
        &&& self.borders.wf()
        &&& self.borders.count_rows == self.size.0
        &&& self.borders.count_columns == self.size.1
        &&& self.override_split_lines.len() == self.size.0 + 1
    }

    /// The number of rows on the grid.
    pub open spec fn rows(self) -> int {
        self.size.0 as int
    }

    /// The number of columns on the grid.
    pub open spec fn cols(self) -> int {
        self.size.1 as int
    }

    /// A `rows x columns` grid with empty cells, the default style, no
    /// border and no margin. The size never changes afterwards.
    pub fn new(rows: usize, columns: usize) -> (g: Grid)
        requires
            rows + 1 < usize::MAX,
            columns + 1 < usize::MAX,
        ensures
            g.wf(),
            g.rows() == rows,
            g.cols() == columns,
            forall|r: int, c: int|
                0 <= r < rows && 0 <= c < columns ==> (#[trigger] g.cells@[r]@[c])@
                    == Seq::<char>::empty(),
            forall|e: Entity|
                e.in_bounds(rows as int, columns as int) ==> g.styles.resolve(e)
                    == crate::types::default_style(),
            g.styles.global == crate::types::default_style(),
            forall|i: int| 0 <= i < rows ==> #[trigger] g.styles.row_overrides@[i] is None,
            forall|i: int| 0 <= i < columns ==> #[trigger] g.styles.col_overrides@[i] is None,
            forall|i: int, j: int|
                0 <= i < rows && 0 <= j < columns ==> #[trigger] g.styles.cell_overrides@[i]@[j]
                    is None,
            forall|i: int| !g.borders.has_horizontal(i),
            forall|i: int| !g.borders.has_vertical(i),
            g.margin == crate::types::default_margin(),
            forall|i: int| 0 <= i <= rows ==> #[trigger] g.override_split_lines@[i] is None,
    {
        let mut cells: Vec<Vec<String>> = Vec::new();
        let mut r: usize = 0;
        while r < rows
            invariant
                r <= rows,
                cells@.len() == r,
                forall|i: int| 0 <= i < r ==> (#[trigger] cells@[i])@.len() == columns,
                forall|i: int, j: int|
                    0 <= i < r && 0 <= j < columns ==> (#[trigger] cells@[i]@[j])@
                        == Seq::<char>::empty(),
            decreases rows - r,
        {
            let mut row: Vec<String> = Vec::new();
            let mut c: usize = 0;
            while c < columns
                invariant
                    c <= columns,
                    row@.len() == c,
                    forall|j: int| 0 <= j < c ==> (#[trigger] row@[j])@ == Seq::<char>::empty(),
                decreases columns - c,
            {
                row.push(String::new());
                c = c + 1;
            }
            cells.push(row);
            r = r + 1;
        }
        let mut override_split_lines: Vec<Option<String>> = Vec::new();
        let mut i: usize = 0;
        while i < rows + 1
            invariant
                i <= rows + 1,
                rows < usize::MAX,
                override_split_lines@.len() == i,
                forall|j: int| 0 <= j < i ==> #[trigger] override_split_lines@[j] is None,
            decreases rows + 1 - i,
        {
            override_split_lines.push(None);
            i = i + 1;
        }
        Grid {
            size: (rows, columns),
            cells,
            styles: StyleMap::new(rows, columns, Style::default()),
            margin: Margin::default(),
            borders: Borders::new(rows, columns),
            override_split_lines,
        }
    }

    /// The number of rows on the grid.
    pub fn count_rows(&self) -> (r: usize)
        ensures
            r == self.rows(),
    {
        self.size.0
    }

    /// The number of columns on the grid.
    pub fn count_columns(&self) -> (r: usize)
        ensures
            r == self.cols(),
    {
        self.size.1
    }

    /// The style the entity resolves to, walking Cell > Column > Row >
    /// Global and stopping at the first stored override.
    pub fn style(&self, entity: &Entity) -> (r: Style)
        requires
            self.wf(),
            entity.in_bounds(self.rows(), self.cols()),
        ensures
            r == self.styles.resolve(*entity),
    {
        self.styles.style(entity)
    }

    /// The content of one cell, with no style applied.
    pub fn get_cell_content<'a>(&'a self, row: usize, column: usize) -> (r: &'a str)
        requires
            self.wf(),
            row < self.rows(),
            column < self.cols(),
        ensures
            r@ == self.cells@[row as int]@[column as int]@,
    {
        self.cells[row][column].as_str()
    }

    /// Replace the outer margins of the grid.
    pub fn margin(&mut self, margin: Margin)
        ensures
            *final(self) == (Grid { margin, ..*old(self) }),
    {
        self.margin = margin;
    }

    /// Set the content of every cell the entity addresses.
    pub fn set_text(&mut self, entity: &Entity, text: &str)
        requires
            old(self).wf(),
            entity.in_bounds(old(self).rows(), old(self).cols()),
        ensures
            final(self).wf(),
            final(self).size == old(self).size,
            final(self).styles == old(self).styles,
            final(self).margin == old(self).margin,
            final(self).borders == old(self).borders,
            final(self).override_split_lines == old(self).override_split_lines,
            final(self).cells@.len() == old(self).cells@.len(),
            forall|r: int|
                0 <= r < old(self).rows() ==> (#[trigger] final(self).cells@[r])@.len() == old(self).cols(),
            forall|r: int, c: int|
                0 <= r < old(self).rows() && 0 <= c < old(self).cols()
                    ==> (#[trigger] final(self).cells@[r]@[c])@ == (if covers(
                    *entity,
                    r,
                    c,
                    old(self).rows(),
                    old(self).cols(),
                ) {
                    text@
                } else {
                    old(self).cells@[r]@[c]@
                }),
    {
        let rows = self.size.0;
        let cols = self.size.1;
        let mut r: usize = 0;
        while r < rows
            invariant
                r <= rows,
                rows == old(self).rows(),
                cols == old(self).cols(),
                self.size == old(self).size,
                self.styles == old(self).styles,
                self.margin == old(self).margin,
                self.borders == old(self).borders,
                self.override_split_lines == old(self).override_split_lines,
                self.cells@.len() == old(self).cells@.len(),
                old(self).wf(),
                forall|i: int|
                    0 <= i < rows ==> (#[trigger] self.cells@[i])@.len() == cols,
                forall|i: int, j: int|
                    0 <= i < rows && 0 <= j < cols && (i >= r || !covers(
                        *entity,
                        i,
                        j,
                        rows as int,
                        cols as int,
                    )) ==> (#[trigger] self.cells@[i]@[j])@ == old(self).cells@[i]@[j]@,
                forall|i: int, j: int|
                    0 <= i < r && 0 <= j < cols && covers(*entity, i, j, rows as int, cols as int)
                        ==> (#[trigger] self.cells@[i]@[j])@ == text@,
            decreases rows - r,
        {
            let mut c: usize = 0;
            while c < cols
                invariant
                    r < rows,
                    c <= cols,
                    rows == old(self).rows(),
                    cols == old(self).cols(),
                    self.size == old(self).size,
                    self.styles == old(self).styles,
                    self.margin == old(self).margin,
                    self.borders == old(self).borders,
                    self.override_split_lines == old(self).override_split_lines,
                    self.cells@.len() == old(self).cells@.len(),
                    old(self).wf(),
                    forall|i: int|
                        0 <= i < rows ==> (#[trigger] self.cells@[i])@.len() == cols,
                    forall|i: int, j: int|
                        0 <= i < rows && 0 <= j < cols && ((i > r || (i == r && j >= c)) || !covers(
                            *entity,
                            i,
                            j,
                            rows as int,
                            cols as int,
                        )) ==> (#[trigger] self.cells@[i]@[j])@ == old(self).cells@[i]@[j]@,
                    forall|i: int, j: int|
                        0 <= i < rows && 0 <= j < cols && (i < r || (i == r && j < c)) && covers(
                            *entity,
                            i,
                            j,
                            rows as int,
                            cols as int,
                        ) ==> (#[trigger] self.cells@[i]@[j])@ == text@,
                decreases cols - c,
            {
                if entity_covers(entity, r, c, rows, cols) {
                    self.cells[r][c] = text.to_owned();
                }
                c = c + 1;
            }
            r = r + 1;
        }
    }
}

} // verus!

verus! {

impl Grid {
    /// Install a horizontal split line at row boundary `row`, filled with
    /// the default space character everywhere.
    pub fn add_horizontal_split(&mut self, row: usize)
        requires
            old(self).wf(),
            row <= old(self).rows(),
        ensures
            final(self).wf(),
            final(self).size == old(self).size,
            final(self).cells == old(self).cells,
            final(self).styles == old(self).styles,
            final(self).margin == old(self).margin,
            final(self).override_split_lines == old(self).override_split_lines,
            forall|k: int|
                final(self).borders.has_horizontal(k) == (old(self).borders.has_horizontal(k) || k
                    == row as int),
            forall|k: int| final(self).borders.has_vertical(k) == old(self).borders.has_vertical(k),
            forall|k: int, c: int|
                0 <= k <= old(self).rows() && 0 <= c < old(self).cols()
                    ==> #[trigger] final(self).borders.horizontal_char(k, c) == (if k == row as int {
                    Some(' ')
                } else {
                    old(self).borders.horizontal_char(k, c)
                }),
            forall|r: int, k: int|
                0 <= r < old(self).rows() && 0 <= k <= old(self).cols()
                    ==> #[trigger] final(self).borders.vertical_char(r, k) == old(
                    self,
                ).borders.vertical_char(r, k),
            forall|k: int, l: int|
                0 <= k <= old(self).rows() && 0 <= l <= old(self).cols()
                    ==> #[trigger] final(self).borders.inter(k, l) == (if k == row as int && old(
                    self,
                ).borders.has_vertical(l) {
                    Some(' ')
                } else {
                    old(self).borders.inter(k, l)
                }),
    {
        let cols = self.size.1;
        let line = crate::borders::char_line(' ', cols);
        let n = self.borders.count_verticals();
        proof {
            crate::borders::lemma_count_some_all(self.borders.vertical@);
        }
        let inters = crate::borders::char_line(' ', n + 1);
        let res = self.borders.set_horizontal(row, line, &inters);
        proof {
            assert(res is Ok);
            assert forall|k: int, l: int|
                0 <= k <= old(self).rows() && 0 <= l <= old(self).cols() implies #[trigger] self
                .borders.inter(k, l) == (if k == row as int && old(self).borders.has_vertical(l) {
                Some(' ')
            } else {
                old(self).borders.inter(k, l)
            }) by {
                if k == row as int && old(self).borders.has_vertical(l) {
                    crate::borders::lemma_count_some_below(old(self).borders.vertical@, l);
                    assert(inters@[crate::borders::count_some(old(self).borders.vertical@, l)]
                        == ' ');
                } else if k == row as int {
                    assert(self.borders.inter(k, l) == old(self).borders.inter(k, l));
                }
            }
            assert forall|k: int, c: int|
                0 <= k <= old(self).rows() && 0 <= c < old(self).cols() implies #[trigger] self
                .borders.horizontal_char(k, c) == (if k == row as int {
                Some(' ')
            } else {
                old(self).borders.horizontal_char(k, c)
            }) by {
                if k == row as int {
                    assert(self.borders.horizontal@[k]->0@[c] == ' ');
                }
            }
        }
    }

    /// Install a vertical split line at column boundary `column`, filled
    /// with the default space character everywhere.
    pub fn add_vertical_split(&mut self, column: usize)
        requires
            old(self).wf(),
            column <= old(self).cols(),
        ensures
            final(self).wf(),
            final(self).size == old(self).size,
            final(self).cells == old(self).cells,
            final(self).styles == old(self).styles,
            final(self).margin == old(self).margin,
            final(self).override_split_lines == old(self).override_split_lines,
            forall|k: int|
                final(self).borders.has_vertical(k) == (old(self).borders.has_vertical(k) || k
                    == column as int),
            forall|k: int|
                final(self).borders.has_horizontal(k) == old(self).borders.has_horizontal(k),
            forall|r: int, k: int|
                0 <= r < old(self).rows() && 0 <= k <= old(self).cols()
                    ==> #[trigger] final(self).borders.vertical_char(r, k) == (if k == column as int {
                    Some(' ')
                } else {
                    old(self).borders.vertical_char(r, k)
                }),
            forall|k: int, c: int|
                0 <= k <= old(self).rows() && 0 <= c < old(self).cols()
                    ==> #[trigger] final(self).borders.horizontal_char(k, c) == old(
                    self,
                ).borders.horizontal_char(k, c),
            forall|k: int, l: int|
                0 <= k <= old(self).rows() && 0 <= l <= old(self).cols()
                    ==> #[trigger] final(self).borders.inter(k, l) == (if l == column as int && old(
                    self,
                ).borders.has_horizontal(k) {
                    Some(' ')
                } else {
                    old(self).borders.inter(k, l)
                }),
    {
        let rows = self.size.0;
        let line = crate::borders::char_line(' ', rows);
        let n = self.borders.count_horizontals();
        proof {
            crate::borders::lemma_count_some_all(self.borders.horizontal@);
        }
        let inters = crate::borders::char_line(' ', n + 1);
        let res = self.borders.set_vertical(column, line, &inters);
        proof {
            assert(res is Ok);
            assert forall|k: int, l: int|
                0 <= k <= old(self).rows() && 0 <= l <= old(self).cols() implies #[trigger] self
                .borders.inter(k, l) == (if l == column as int && old(self).borders.has_horizontal(
                k,
            ) {
                Some(' ')
            } else {
                old(self).borders.inter(k, l)
            }) by {
                if l == column as int && old(self).borders.has_horizontal(k) {
                    crate::borders::lemma_count_some_below(old(self).borders.horizontal@, k);
                    assert(inters@[crate::borders::count_some(old(self).borders.horizontal@, k)]
                        == ' ');
                } else if l == column as int {
                    assert(self.borders.inter(k, l) == old(self).borders.inter(k, l));
                }
            }
            assert forall|r: int, k: int|
                0 <= r < old(self).rows() && 0 <= k <= old(self).cols() implies #[trigger] self
                .borders.vertical_char(r, k) == (if k == column as int {
                Some(' ')
            } else {
                old(self).borders.vertical_char(r, k)
            }) by {
                if k == column as int {
                    assert(self.borders.vertical@[k]->0@[r] == ' ');
                }
            }
        }
    }

    /// Install a split line on every boundary of the grid.
    pub fn add_grid_split(&mut self)
        requires
            old(self).wf(),
        ensures
            final(self).wf(),
            final(self).size == old(self).size,
            final(self).cells == old(self).cells,
            final(self).styles == old(self).styles,
            final(self).margin == old(self).margin,
            final(self).override_split_lines == old(self).override_split_lines,
            forall|k: int| #![trigger final(self).borders.has_horizontal(k)]
                final(self).borders.has_horizontal(k) == (0 <= k <= old(self).rows()),
            forall|k: int| #![trigger final(self).borders.has_vertical(k)]
                final(self).borders.has_vertical(k) == (0 <= k <= old(self).cols()),
            forall|k: int, c: int|
                0 <= k <= old(self).rows() && 0 <= c < old(self).cols()
                    ==> #[trigger] final(self).borders.horizontal_char(k, c) == Some(' '),
            forall|r: int, k: int|
                0 <= r < old(self).rows() && 0 <= k <= old(self).cols()
                    ==> #[trigger] final(self).borders.vertical_char(r, k) == Some(' '),
            forall|k: int, l: int|
                0 <= k <= old(self).rows() && 0 <= l <= old(self).cols()
                    ==> #[trigger] final(self).borders.inter(k, l) == Some(' '),
    {
        let rows = self.size.0;
        let cols = self.size.1;
        let mut r: usize = 0;
        while r < rows + 1
            invariant
                r <= rows + 1,
                self.wf(),
                self.size == old(self).size,
                self.cells == old(self).cells,
                self.styles == old(self).styles,
                self.margin == old(self).margin,
                self.override_split_lines == old(self).override_split_lines,
                rows == old(self).rows(),
                cols == old(self).cols(),
                forall|k: int| #![trigger self.borders.has_horizontal(k)]
                    self.borders.has_horizontal(k) == (old(self).borders.has_horizontal(k) || (0
                        <= k < r)),
                forall|k: int| #![trigger self.borders.has_vertical(k)]
                    self.borders.has_vertical(k) == old(self).borders.has_vertical(k),
                forall|k: int, c: int|
                    0 <= k <= rows && 0 <= c < cols
                        ==> #[trigger] self.borders.horizontal_char(k, c) == (if 0 <= k < r {
                        Some(' ')
                    } else {
                        old(self).borders.horizontal_char(k, c)
                    }),
                forall|rr: int, k: int|
                    0 <= rr < rows && 0 <= k <= cols
                        ==> #[trigger] self.borders.vertical_char(rr, k) == old(
                        self,
                    ).borders.vertical_char(rr, k),
                forall|k: int, l: int|
                    0 <= k <= rows && 0 <= l <= cols ==> #[trigger] self.borders.inter(k, l) == (
                    if 0 <= k < r && old(self).borders.has_vertical(l) {
                        Some(' ')
                    } else {
                        old(self).borders.inter(k, l)
                    }),
            decreases rows + 1 - r,
        {
            self.add_horizontal_split(r);
            r = r + 1;
        }
        let ghost mid = *self;
        let mut c: usize = 0;
        while c < cols + 1
            invariant
                c <= cols + 1,
                self.wf(),
                self.size == old(self).size,
                self.cells == old(self).cells,
                self.styles == old(self).styles,
                self.margin == old(self).margin,
                self.override_split_lines == old(self).override_split_lines,
                rows == old(self).rows(),
                cols == old(self).cols(),
                forall|k: int| #![trigger self.borders.has_horizontal(k)]
                    self.borders.has_horizontal(k) == (0 <= k <= rows),
                forall|k: int| #![trigger self.borders.has_vertical(k)]
                    self.borders.has_vertical(k) == (mid.borders.has_vertical(k) || (0 <= k < c)),
                forall|k: int, cc: int|
                    0 <= k <= rows && 0 <= cc < cols
                        ==> #[trigger] self.borders.horizontal_char(k, cc) == Some(' '),
                forall|rr: int, k: int|
                    0 <= rr < rows && 0 <= k <= cols
                        ==> #[trigger] self.borders.vertical_char(rr, k) == (if 0 <= k < c {
                        Some(' ')
                    } else {
                        mid.borders.vertical_char(rr, k)
                    }),
                forall|k: int, l: int|
                    0 <= k <= rows && 0 <= l <= cols ==> #[trigger] self.borders.inter(k, l) == (
                    if 0 <= l < c || mid.borders.has_vertical(l) {
                        Some(' ')
                    } else {
                        mid.borders.inter(k, l)
                    }),
            decreases cols + 1 - c,
        {
            let ghost pre = *self;
            self.add_vertical_split(c);
            proof {
                assert forall|k: int|
                    self.borders.has_vertical(k) == (mid.borders.has_vertical(k) || (0 <= k < c
                        + 1)) by {
                    assert(self.borders.has_vertical(k) == (pre.borders.has_vertical(k) || k
                        == c as int));
                    assert(pre.borders.has_vertical(k) == (mid.borders.has_vertical(k) || (0 <= k
                        < c)));
                    if k == c as int {
                        assert(self.borders.has_vertical(k));
                    }
                }
            }
            c = c + 1;
        }
        proof {
            assert forall|k: int, l: int|
                0 <= k <= rows && 0 <= l <= cols implies #[trigger] self.borders.inter(k, l)
                == Some(' ') by {
                if !(0 <= l < c) && mid.borders.has_vertical(l) {
                    assert(mid.borders.inter(k, l) == Some(' '));
                }
            }
        }
    }

    /// Remove every split line and intersection, back to a borderless
    /// grid.
    pub fn clear_split_grid(&mut self)
        requires
            old(self).wf(),
        ensures
            final(self).wf(),
            final(self).size == old(self).size,
            final(self).cells == old(self).cells,
            final(self).styles == old(self).styles,
            final(self).margin == old(self).margin,
            final(self).override_split_lines == old(self).override_split_lines,
            forall|k: int| !final(self).borders.has_horizontal(k),
            forall|k: int| !final(self).borders.has_vertical(k),
    {
        self.borders.clear()
    }

    /// Forget every override line set for split rows.
    pub fn clear_overide_split_lines(&mut self)
        requires
            old(self).wf(),
        ensures
            final(self).wf(),
            final(self).size == old(self).size,
            final(self).cells == old(self).cells,
            final(self).styles == old(self).styles,
            final(self).margin == old(self).margin,
            final(self).borders == old(self).borders,
            forall|k: int|
                0 <= k <= old(self).rows() ==> #[trigger] final(self).override_split_lines@[k]
                    is None,
            final(self).override_split_lines@.len() == old(self).override_split_lines@.len(),
    {
        let n = self.override_split_lines.len();
        let mut i: usize = 0;
        while i < n
            invariant
                i <= n,
                n == self.override_split_lines@.len(),
                self.size == old(self).size,
                self.cells == old(self).cells,
                self.styles == old(self).styles,
                self.margin == old(self).margin,
                self.borders == old(self).borders,
                forall|k: int| 0 <= k < i ==> #[trigger] self.override_split_lines@[k] is None,
            decreases n - i,
        {
            self.override_split_lines[i] = None;
            i = i + 1;
        }
    }

    /// Replace the text a split row shows from its left edge: the line's
    /// characters take the place of the border characters one for one
    /// until the line runs out.
    pub fn override_split_line(&mut self, row: usize, line: &str)
        requires
            old(self).wf(),
            row <= old(self).rows(),
        ensures
            final(self).wf(),
            final(self).size == old(self).size,
            final(self).cells == old(self).cells,
            final(self).styles == old(self).styles,
            final(self).margin == old(self).margin,
            final(self).borders == old(self).borders,
            final(self).override_split_lines@.len() == old(self).override_split_lines@.len(),
            forall|k: int|
                0 <= k <= old(self).rows() && k != row as int
                    ==> #[trigger] final(self).override_split_lines@[k] == old(
                    self,
                ).override_split_lines@[k],
            final(self).override_split_lines@[row as int] is Some,
            final(self).override_split_lines@[row as int]->0@ == line@,
    {
        self.override_split_lines[row] = Some(line.to_owned());
    }
}

} // verus!

verus! {

impl Grid {
    /// Whether column index `c` lies in the entity's column range.
    fn col_in_exec(entity: &Entity, c: usize, cols: usize) -> (b: bool)
        ensures
            b == col_in(*entity, c as int, cols as int),
    {
        match entity {
            Entity::Global => c < cols,
            Entity::Column(cc) => c == *cc,
            Entity::Row(rr) => c < cols,
            Entity::Cell(rr, cc) => c == *cc,
        }
    }

    /// Whether row index `r` lies in the entity's row range.
    fn row_in_exec(entity: &Entity, r: usize, rows: usize) -> (b: bool)
        ensures
            b == row_in(*entity, r as int, rows as int),
    {
        match entity {
            Entity::Global => r < rows,
            Entity::Column(cc) => r < rows,
            Entity::Row(rr) => r == *rr,
            Entity::Cell(rr, cc) => r == *rr,
        }
    }

    /// Apply a border description to every cell the entity addresses; all
    /// the split lines and intersections it writes must exist.
    #[verifier::loop_isolation(false)]
    pub fn apply_border(&mut self, entity: &Entity, border: &Border)
        requires
            old(self).wf(),
            entity.in_bounds(old(self).rows(), old(self).cols()),
            strict_ok(old(self).borders, *entity, *border, old(self).rows(), old(self).cols()),
        ensures
            final(self).wf(),
            final(self).size == old(self).size,
            final(self).cells == old(self).cells,
            final(self).styles == old(self).styles,
            final(self).margin == old(self).margin,
            final(self).override_split_lines == old(self).override_split_lines,
            forall|k: int| #![trigger final(self).borders.has_horizontal(k)]
                final(self).borders.has_horizontal(k) == old(self).borders.has_horizontal(k),
            forall|k: int| #![trigger final(self).borders.has_vertical(k)]
                final(self).borders.has_vertical(k) == old(self).borders.has_vertical(k),
            forall|r: int, k: int|
                0 <= r < old(self).rows() && 0 <= k <= old(self).cols()
                    ==> #[trigger] final(self).borders.vertical_char(r, k) == sb_v(
                    *entity,
                    *border,
                    old(self).borders.vertical_char(r, k),
                    r,
                    k,
                    old(self).rows(),
                    old(self).cols(),
                ),
            forall|k: int, c: int|
                0 <= k <= old(self).rows() && 0 <= c < old(self).cols()
                    ==> #[trigger] final(self).borders.horizontal_char(k, c) == sb_h(
                    *entity,
                    *border,
                    old(self).borders.horizontal_char(k, c),
                    k,
                    c,
                    old(self).rows(),
                    old(self).cols(),
                ),
            forall|k: int, l: int|
                0 <= k <= old(self).rows() && 0 <= l <= old(self).cols()
                    ==> #[trigger] final(self).borders.inter(k, l) == sb_i(
                    *entity,
                    *border,
                    old(self).borders.inter(k, l),
                    k,
                    l,
                    old(self).rows(),
                    old(self).cols(),
                ),
    {
        let rows = self.size.0;
        let cols = self.size.1;
        let ghost rr = rows as int;
        let ghost cc = cols as int;
        let mut k: usize = 0;
        while k < cols + 1
            invariant
                k <= cols + 1,
                self.wf(),
                self.size == old(self).size,
                self.cells == old(self).cells,
                self.styles == old(self).styles,
                self.margin == old(self).margin,
                self.override_split_lines == old(self).override_split_lines,
                self.borders.horizontal == old(self).borders.horizontal,
                self.borders.intersections == old(self).borders.intersections,
                forall|kk: int| #![trigger self.borders.has_vertical(kk)]
                    self.borders.has_vertical(kk) == old(self).borders.has_vertical(kk),
                forall|r0: int, k0: int|
                    0 <= r0 < rr && 0 <= k0 < k
                        ==> #[trigger] self.borders.vertical_char(r0, k0) == sb_v(
                        *entity,
                        *border,
                        old(self).borders.vertical_char(r0, k0),
                        r0,
                        k0,
                        rr,
                        cc,
                    ),
                forall|r0: int, k0: int|
                    0 <= r0 < rr && k <= k0 <= cc
                        ==> #[trigger] self.borders.vertical_char(r0, k0) == old(
                        self,
                    ).borders.vertical_char(r0, k0),
            decreases cols + 1 - k,
        {
            let mut r: usize = 0;
            while r < rows
                invariant
                    r <= rows,
                    k <= cols,
                    self.wf(),
                    self.size == old(self).size,
                    self.cells == old(self).cells,
                    self.styles == old(self).styles,
                    self.margin == old(self).margin,
                    self.override_split_lines == old(self).override_split_lines,
                    self.borders.horizontal == old(self).borders.horizontal,
                    self.borders.intersections == old(self).borders.intersections,
                    forall|kk: int| #![trigger self.borders.has_vertical(kk)]
                        self.borders.has_vertical(kk) == old(self).borders.has_vertical(kk),
                    forall|r0: int, k0: int|
                        0 <= r0 < rr && 0 <= k0 < k
                            ==> #[trigger] self.borders.vertical_char(r0, k0) == sb_v(
                            *entity,
                            *border,
                            old(self).borders.vertical_char(r0, k0),
                            r0,
                            k0,
                            rr,
                            cc,
                        ),
                    forall|r0: int|
                        0 <= r0 < r ==> #[trigger] self.borders.vertical_char(r0, k as int)
                            == sb_v(
                            *entity,
                            *border,
                            old(self).borders.vertical_char(r0, k as int),
                            r0,
                            k as int,
                            rr,
                            cc,
                        ),
                    forall|r0: int|
                        r <= r0 < rr ==> #[trigger] self.borders.vertical_char(r0, k as int)
                            == old(self).borders.vertical_char(r0, k as int),
                    forall|r0: int, k0: int|
                        0 <= r0 < rr && k < k0 <= cc
                            ==> #[trigger] self.borders.vertical_char(r0, k0) == old(
                            self,
                        ).borders.vertical_char(r0, k0),
                decreases rows - r,
            {
                let mut want: Option<char> = None;
                if k < cols && Self::row_in_exec(entity, r, rows) && Self::col_in_exec(
                    entity,
                    k,
                    cols,
                ) && border.left.is_some() {
                    want = border.left;
                } else if k >= 1 && Self::row_in_exec(entity, r, rows) && Self::col_in_exec(
                    entity,
                    k - 1,
                    cols,
                ) && border.right.is_some() {
                    want = border.right;
                }
                let ghost pre = *self;
                match want {
                    Some(ch) => {
                        proof {
                            if k < cols && covers(*entity, r as int, k as int, rr, cc)
                                && border.left is Some {
                                assert(covers(*entity, r as int, k as int, rr, cc));
                            } else {
                                assert(covers(*entity, r as int, k as int - 1, rr, cc));
                            }
                        }
                        let res = self.borders.set_column_symbol(r, k, ch);
                        proof {
                            assert(res is Ok);
                            assert forall|kk: int| #![trigger self.borders.has_vertical(kk)]
                                self.borders.has_vertical(kk) == pre.borders.has_vertical(
                                    kk,
                                ) by {
                                if 0 <= kk <= cc && kk != k as int {
                                    assert(self.borders.vertical@[kk] == pre.borders.vertical@[kk]);
                                }
                            }
                            assert forall|r0: int, k0: int|
                                0 <= r0 < rr && 0 <= k0 <= cc && !(r0 == r as int && k0
                                    == k as int) implies #[trigger] self.borders.vertical_char(
                                r0,
                                k0,
                            ) == pre.borders.vertical_char(r0, k0) by {
                                if k0 != k as int {
                                    assert(self.borders.vertical@[k0] == pre.borders.vertical@[k0]);
                                } else {
                                    assert(self.borders.vertical@[k0]->0@
                                        == pre.borders.vertical@[k0]->0@.update(r as int, ch));
                                }
                            }
                            assert(self.borders.vertical_char(r as int, k as int) == Some(ch));
                        }
                    },
                    None => (),
                }
                r = r + 1;
            }
            k = k + 1;
        }
        let ghost midv = *self;
        let mut hk: usize = 0;
        while hk < rows + 1
            invariant
                hk <= rows + 1,
                self.wf(),
                self.size == old(self).size,
                self.cells == old(self).cells,
                self.styles == old(self).styles,
                self.margin == old(self).margin,
                self.override_split_lines == old(self).override_split_lines,
                self.borders.vertical == midv.borders.vertical,
                self.borders.intersections == old(self).borders.intersections,
                forall|kk: int| #![trigger self.borders.has_vertical(kk)]
                    self.borders.has_vertical(kk) == old(self).borders.has_vertical(kk),
                forall|kk: int| #![trigger self.borders.has_horizontal(kk)]
                    self.borders.has_horizontal(kk) == old(self).borders.has_horizontal(kk),
                forall|k0: int, c0: int|
                    0 <= k0 < hk && 0 <= c0 < cc
                        ==> #[trigger] self.borders.horizontal_char(k0, c0) == sb_h(
                        *entity,
                        *border,
                        old(self).borders.horizontal_char(k0, c0),
                        k0,
                        c0,
                        rr,
                        cc,
                    ),
                forall|k0: int, c0: int|
                    hk <= k0 <= rr && 0 <= c0 < cc
                        ==> #[trigger] self.borders.horizontal_char(k0, c0) == old(
                        self,
                    ).borders.horizontal_char(k0, c0),
            decreases rows + 1 - hk,
        {
            let mut c: usize = 0;
            while c < cols
                invariant
                    c <= cols,
                    hk <= rows,
                    self.wf(),
                    self.size == old(self).size,
                    self.cells == old(self).cells,
                    self.styles == old(self).styles,
                    self.margin == old(self).margin,
                    self.override_split_lines == old(self).override_split_lines,
                    self.borders.vertical == midv.borders.vertical,
                    self.borders.intersections == old(self).borders.intersections,
                    forall|kk: int| #![trigger self.borders.has_vertical(kk)]
                        self.borders.has_vertical(kk) == old(self).borders.has_vertical(kk),
                    forall|kk: int| #![trigger self.borders.has_horizontal(kk)]
                        self.borders.has_horizontal(kk) == old(self).borders.has_horizontal(kk),
                    forall|k0: int, c0: int|
                        0 <= k0 < hk && 0 <= c0 < cc
                            ==> #[trigger] self.borders.horizontal_char(k0, c0) == sb_h(
                            *entity,
                            *border,
                            old(self).borders.horizontal_char(k0, c0),
                            k0,
                            c0,
                            rr,
                            cc,
                        ),
                    forall|c0: int|
                        0 <= c0 < c ==> #[trigger] self.borders.horizontal_char(hk as int, c0)
                            == sb_h(
                            *entity,
                            *border,
                            old(self).borders.horizontal_char(hk as int, c0),
                            hk as int,
                            c0,
                            rr,
                            cc,
                        ),
                    forall|c0: int|
                        c <= c0 < cc ==> #[trigger] self.borders.horizontal_char(hk as int, c0)
                            == old(self).borders.horizontal_char(hk as int, c0),
                    forall|k0: int, c0: int|
                        hk < k0 <= rr && 0 <= c0 < cc
                            ==> #[trigger] self.borders.horizontal_char(k0, c0) == old(
                            self,
                        ).borders.horizontal_char(k0, c0),
                decreases cols - c,
            {
                let mut want: Option<char> = None;
                if hk < rows && Self::row_in_exec(entity, hk, rows) && Self::col_in_exec(
                    entity,
                    c,
                    cols,
                ) && border.top.is_some() {
                    want = border.top;
                } else if hk >= 1 && Self::row_in_exec(entity, hk - 1, rows) && Self::col_in_exec(
                    entity,
                    c,
                    cols,
                ) && border.bottom.is_some() {
                    want = border.bottom;
                }
                let ghost pre = *self;
                match want {
                    Some(ch) => {
                        proof {
                            if hk < rows && covers(*entity, hk as int, c as int, rr, cc)
                                && border.top is Some {
                                assert(covers(*entity, hk as int, c as int, rr, cc));
                            } else {
                                assert(covers(*entity, hk as int - 1, c as int, rr, cc));
                            }
                        }
                        let res = self.borders.set_row_symbol(hk, c, ch);
                        proof {
                            assert(res is Ok);
                            assert forall|kk: int| #![trigger self.borders.has_horizontal(kk)]
                                self.borders.has_horizontal(kk) == pre.borders.has_horizontal(
                                    kk,
                                ) by {
                                if 0 <= kk <= rr && kk != hk as int {
                                    assert(self.borders.horizontal@[kk]
                                        == pre.borders.horizontal@[kk]);
                                }
                            }
                            assert forall|kk: int| #![trigger self.borders.has_vertical(kk)]
                                self.borders.has_vertical(kk) == pre.borders.has_vertical(
                                    kk,
                                ) by {}
                            assert forall|k0: int, c0: int|
                                0 <= k0 <= rr && 0 <= c0 < cc && !(k0 == hk as int && c0
                                    == c as int) implies #[trigger] self.borders.horizontal_char(
                                k0,
                                c0,
                            ) == pre.borders.horizontal_char(k0, c0) by {
                                if k0 != hk as int {
                                    assert(self.borders.horizontal@[k0]
                                        == pre.borders.horizontal@[k0]);
                                } else {
                                    assert(self.borders.horizontal@[k0]->0@
                                        == pre.borders.horizontal@[k0]->0@.update(c as int, ch));
                                }
                            }
                            assert(self.borders.horizontal_char(hk as int, c as int) == Some(ch));
                        }
                    },
                    None => (),
                }
                c = c + 1;
            }
            hk = hk + 1;
        }
        let ghost midh = *self;
        let mut ik: usize = 0;
        while ik < rows + 1
            invariant
                ik <= rows + 1,
                self.wf(),
                self.size == old(self).size,
                self.cells == old(self).cells,
                self.styles == old(self).styles,
                self.margin == old(self).margin,
                self.override_split_lines == old(self).override_split_lines,
                self.borders.vertical == midh.borders.vertical,
                self.borders.horizontal == midh.borders.horizontal,
                self.borders.intersections@.len() == old(self).borders.intersections@.len(),
                forall|kk: int| #![trigger self.borders.has_vertical(kk)]
                    self.borders.has_vertical(kk) == old(self).borders.has_vertical(kk),
                forall|kk: int| #![trigger self.borders.has_horizontal(kk)]
                    self.borders.has_horizontal(kk) == old(self).borders.has_horizontal(kk),
                forall|k0: int|
                    0 <= k0 <= rr ==> (#[trigger] self.borders.intersections@[k0])@.len() == cc + 1,
                forall|k0: int, l0: int|
                    0 <= k0 < ik && 0 <= l0 <= cc ==> #[trigger] self.borders.inter(k0, l0)
                        == sb_i(
                        *entity,
                        *border,
                        old(self).borders.inter(k0, l0),
                        k0,
                        l0,
                        rr,
                        cc,
                    ),
                forall|k0: int, l0: int|
                    ik <= k0 <= rr && 0 <= l0 <= cc ==> #[trigger] self.borders.inter(k0, l0)
                        == old(self).borders.inter(k0, l0),
            decreases rows + 1 - ik,
        {
            let mut l: usize = 0;
            while l < cols + 1
                invariant
                    l <= cols + 1,
                    ik <= rows,
                    self.wf(),
                    self.size == old(self).size,
                    self.cells == old(self).cells,
                    self.styles == old(self).styles,
                    self.margin == old(self).margin,
                    self.override_split_lines == old(self).override_split_lines,
                    self.borders.vertical == midh.borders.vertical,
                    self.borders.horizontal == midh.borders.horizontal,
                    self.borders.intersections@.len() == old(self).borders.intersections@.len(),
                    forall|kk: int| #![trigger self.borders.has_vertical(kk)]
                        self.borders.has_vertical(kk) == old(self).borders.has_vertical(kk),
                    forall|kk: int| #![trigger self.borders.has_horizontal(kk)]
                        self.borders.has_horizontal(kk) == old(self).borders.has_horizontal(kk),
                    forall|k0: int|
                        0 <= k0 <= rr ==> (#[trigger] self.borders.intersections@[k0])@.len() == cc
                            + 1,
                    forall|k0: int, l0: int|
                        0 <= k0 < ik && 0 <= l0 <= cc ==> #[trigger] self.borders.inter(k0, l0)
                            == sb_i(
                            *entity,
                            *border,
                            old(self).borders.inter(k0, l0),
                            k0,
                            l0,
                            rr,
                            cc,
                        ),
                    forall|l0: int|
                        0 <= l0 < l ==> #[trigger] self.borders.inter(ik as int, l0) == sb_i(
                            *entity,
                            *border,
                            old(self).borders.inter(ik as int, l0),
                            ik as int,
                            l0,
                            rr,
                            cc,
                        ),
                    forall|l0: int|
                        l <= l0 <= cc ==> #[trigger] self.borders.inter(ik as int, l0) == old(
                            self,
                        ).borders.inter(ik as int, l0),
                    forall|k0: int, l0: int|
                        ik < k0 <= rr && 0 <= l0 <= cc ==> #[trigger] self.borders.inter(k0, l0)
                            == old(self).borders.inter(k0, l0),
                decreases cols + 1 - l,
            {
                let ghost pre = *self;
                let mut want: Option<char> = None;
                if ik < rows && l < cols && Self::row_in_exec(entity, ik, rows)
                    && Self::col_in_exec(entity, l, cols) && border.left_top_corner.is_some() {
                    want = border.left_top_corner;
                } else if ik >= 1 && l < cols && Self::row_in_exec(entity, ik - 1, rows)
                    && Self::col_in_exec(entity, l, cols) && border.left_bottom_corner.is_some() {
                    want = border.left_bottom_corner;
                } else if ik < rows && l >= 1 && Self::row_in_exec(entity, ik, rows)
                    && Self::col_in_exec(entity, l - 1, cols) && border.right_top_corner.is_some() {
                    want = border.right_top_corner;
                } else if ik >= 1 && l >= 1 && Self::row_in_exec(entity, ik - 1, rows)
                    && Self::col_in_exec(entity, l - 1, cols)
                    && border.right_bottom_corner.is_some() {
                    want = border.right_bottom_corner;
                }
                match want {
                    Some(ch) => {
                        proof {
                            if ik < rows && l < cols && covers(*entity, ik as int, l as int, rr, cc)
                                && border.left_top_corner is Some {
                                assert(covers(*entity, ik as int, l as int, rr, cc));
                            } else if ik >= 1 && l < cols && covers(
                                *entity,
                                ik as int - 1,
                                l as int,
                                rr,
                                cc,
                            ) && border.left_bottom_corner is Some {
                                assert(covers(*entity, ik as int - 1, l as int, rr, cc));
                            } else if ik < rows && l >= 1 && covers(
                                *entity,
                                ik as int,
                                l as int - 1,
                                rr,
                                cc,
                            ) && border.right_top_corner is Some {
                                assert(covers(*entity, ik as int, l as int - 1, rr, cc));
                            } else {
                                assert(covers(*entity, ik as int - 1, l as int - 1, rr, cc));
                            }
                        }
                        let res = self.borders.set_intersection(ik, l, ch);
                        proof {
                            assert(res is Ok);
                            assert forall|kk: int| #![trigger self.borders.has_vertical(kk)]
                                self.borders.has_vertical(kk) == pre.borders.has_vertical(
                                    kk,
                                ) by {}
                            assert forall|kk: int| #![trigger self.borders.has_horizontal(kk)]
                                self.borders.has_horizontal(kk) == pre.borders.has_horizontal(
                                    kk,
                                ) by {}
                            assert forall|k0: int, l0: int|
                                0 <= k0 <= rr && 0 <= l0 <= cc && !(k0 == ik as int && l0
                                    == l as int) implies #[trigger] self.borders.inter(k0, l0)
                                == pre.borders.inter(k0, l0) by {
                                if k0 != ik as int {
                                    assert(self.borders.intersections@[k0]
                                        == pre.borders.intersections@[k0]);
                                } else {
                                    assert(self.borders.intersections@[k0]@
                                        == pre.borders.intersections@[k0]@.update(
                                        l as int,
                                        Some(ch),
                                    ));
                                }
                            }
                            assert(self.borders.inter(ik as int, l as int) == Some(ch));
                        }
                    },
                    None => (),
                }
                l = l + 1;
            }
            ik = ik + 1;
        }
        proof {
            assert forall|r0: int, k0: int|
                0 <= r0 < rr && 0 <= k0 <= cc implies #[trigger] self.borders.vertical_char(
                r0,
                k0,
            ) == sb_v(
                *entity,
                *border,
                old(self).borders.vertical_char(r0, k0),
                r0,
                k0,
                rr,
                cc,
            ) by {
                assert(self.borders.vertical_char(r0, k0) == midh.borders.vertical_char(r0, k0));
                assert(midh.borders.vertical_char(r0, k0) == midv.borders.vertical_char(r0, k0));
            }
            assert forall|k0: int, c0: int|
                0 <= k0 <= rr && 0 <= c0 < cc implies #[trigger] self.borders.horizontal_char(
                k0,
                c0,
            ) == sb_h(
                *entity,
                *border,
                old(self).borders.horizontal_char(k0, c0),
                k0,
                c0,
                rr,
                cc,
            ) by {
                assert(self.borders.horizontal_char(k0, c0) == midh.borders.horizontal_char(
                    k0,
                    c0,
                ));
            }
        }
    }
}

} // verus!

verus! {

impl Grid {
    /// Whether the vertical boundary `k` must exist before `border` is
    /// applied to the entity.
    fn need_v_exec(entity: &Entity, border: &Border, k: usize, rows: usize, cols: usize) -> (b:
        bool)
        requires
            entity.in_bounds(rows as int, cols as int),
        ensures
            b == need_v(*entity, *border, k as int, rows as int, cols as int),
    {
        let left_aff = border.left.is_some() || border.left_bottom_corner.is_some()
            || border.left_top_corner.is_some();
        let right_aff = border.right.is_some() || border.right_bottom_corner.is_some()
            || border.right_top_corner.is_some();
        (left_aff && k < cols && Self::col_in_exec(entity, k, cols) && rows > 0) || (right_aff && k
            >= 1 && k - 1 < cols && Self::col_in_exec(entity, k - 1, cols) && rows > 0)
    }

    /// Whether the horizontal boundary `k` must exist before `border` is
    /// applied to the entity.
    fn need_h_exec(entity: &Entity, border: &Border, k: usize, rows: usize, cols: usize) -> (b:
        bool)
        requires
            entity.in_bounds(rows as int, cols as int),
        ensures
            b == need_h(*entity, *border, k as int, rows as int, cols as int),
    {
        let top_aff = border.top.is_some() || border.right_top_corner.is_some()
            || border.left_top_corner.is_some();
        let bottom_aff = border.bottom.is_some() || border.right_bottom_corner.is_some()
            || border.left_bottom_corner.is_some();
        (top_aff && k < rows && Self::row_in_exec(entity, k, rows) && cols > 0) || (bottom_aff && k
            >= 1 && k - 1 < rows && Self::row_in_exec(entity, k - 1, rows) && cols > 0)
    }

    /// Create, with default space characters, every split line a border
    /// application to the entity would need and that does not exist yet.
    #[verifier::loop_isolation(false)]
    pub fn create_splits(&mut self, entity: &Entity, border: &Border)
        requires
            old(self).wf(),
            entity.in_bounds(old(self).rows(), old(self).cols()),
        ensures
            final(self).wf(),
            final(self).size == old(self).size,
            final(self).cells == old(self).cells,
            final(self).styles == old(self).styles,
            final(self).margin == old(self).margin,
            final(self).override_split_lines == old(self).override_split_lines,
            forall|k: int| #![trigger final(self).borders.has_vertical(k)]
                final(self).borders.has_vertical(k) == (old(self).borders.has_vertical(k) || need_v(
                    *entity,
                    *border,
                    k,
                    old(self).rows(),
                    old(self).cols(),
                )),
            forall|k: int| #![trigger final(self).borders.has_horizontal(k)]
                final(self).borders.has_horizontal(k) == (old(self).borders.has_horizontal(k)
                    || need_h(*entity, *border, k, old(self).rows(), old(self).cols())),
            forall|r: int, k: int|
                0 <= r < old(self).rows() && 0 <= k <= old(self).cols()
                    ==> #[trigger] final(self).borders.vertical_char(r, k) == (if old(
                    self,
                ).borders.has_vertical(k) {
                    old(self).borders.vertical_char(r, k)
                } else if need_v(*entity, *border, k, old(self).rows(), old(self).cols()) {
                    Some(' ')
                } else {
                    None
                }),
            forall|k: int, c: int|
                0 <= k <= old(self).rows() && 0 <= c < old(self).cols()
                    ==> #[trigger] final(self).borders.horizontal_char(k, c) == (if old(
                    self,
                ).borders.has_horizontal(k) {
                    old(self).borders.horizontal_char(k, c)
                } else if need_h(*entity, *border, k, old(self).rows(), old(self).cols()) {
                    Some(' ')
                } else {
                    None
                }),
            forall|k: int, l: int|
                0 <= k <= old(self).rows() && 0 <= l <= old(self).cols()
                    ==> #[trigger] final(self).borders.inter(k, l) == (if old(
                    self,
                ).borders.has_horizontal(k) && old(self).borders.has_vertical(l) {
                    old(self).borders.inter(k, l)
                } else if final(self).borders.has_horizontal(k) && final(self).borders.has_vertical(
                    l,
                ) {
                    Some(' ')
                } else {
                    None
                }),
    {
        let rows = self.size.0;
        let cols = self.size.1;
        let ghost rr = rows as int;
        let ghost cc = cols as int;
        let mut k: usize = 0;
        while k < cols + 1
            invariant
                k <= cols + 1,
                self.wf(),
                self.size == old(self).size,
                self.cells == old(self).cells,
                self.styles == old(self).styles,
                self.margin == old(self).margin,
                self.override_split_lines == old(self).override_split_lines,
                forall|kk: int| #![trigger self.borders.has_horizontal(kk)]
                    self.borders.has_horizontal(kk) == old(self).borders.has_horizontal(kk),
                forall|kk: int| #![trigger self.borders.has_vertical(kk)]
                    self.borders.has_vertical(kk) == (old(self).borders.has_vertical(kk) || (kk < k
                        && need_v(*entity, *border, kk, rr, cc))),
                forall|r0: int, k0: int|
                    0 <= r0 < rr && 0 <= k0 <= cc
                        ==> #[trigger] self.borders.vertical_char(r0, k0) == (if old(
                        self,
                    ).borders.has_vertical(k0) {
                        old(self).borders.vertical_char(r0, k0)
                    } else if k0 < k && need_v(*entity, *border, k0, rr, cc) {
                        Some(' ')
                    } else {
                        None
                    }),
                forall|k0: int, c0: int|
                    0 <= k0 <= rr && 0 <= c0 < cc
                        ==> #[trigger] self.borders.horizontal_char(k0, c0) == old(
                        self,
                    ).borders.horizontal_char(k0, c0),
                forall|k0: int, l0: int|
                    0 <= k0 <= rr && 0 <= l0 <= cc ==> #[trigger] self.borders.inter(k0, l0) == (
                    if old(self).borders.has_vertical(l0) || !(l0 < k && need_v(
                        *entity,
                        *border,
                        l0,
                        rr,
                        cc,
                    )) {
                        old(self).borders.inter(k0, l0)
                    } else if old(self).borders.has_horizontal(k0) {
                        Some(' ')
                    } else {
                        None
                    }),
            decreases cols + 1 - k,
        {
            if Self::need_v_exec(entity, border, k, rows, cols) && !self.borders.is_there_vertical(
                k,
            ) {
                self.add_vertical_split(k);
            }
            k = k + 1;
        }
        let ghost midc = *self;
        let mut hk: usize = 0;
        while hk < rows + 1
            invariant
                hk <= rows + 1,
                self.wf(),
                self.size == old(self).size,
                self.cells == old(self).cells,
                self.styles == old(self).styles,
                self.margin == old(self).margin,
                self.override_split_lines == old(self).override_split_lines,
                forall|kk: int| #![trigger self.borders.has_vertical(kk)]
                    self.borders.has_vertical(kk) == midc.borders.has_vertical(kk),
                forall|kk: int| #![trigger self.borders.has_horizontal(kk)]
                    self.borders.has_horizontal(kk) == (old(self).borders.has_horizontal(kk) || (kk
                        < hk && need_h(*entity, *border, kk, rr, cc))),
                forall|r0: int, k0: int|
                    0 <= r0 < rr && 0 <= k0 <= cc
                        ==> #[trigger] self.borders.vertical_char(r0, k0)
                        == midc.borders.vertical_char(r0, k0),
                forall|k0: int, c0: int|
                    0 <= k0 <= rr && 0 <= c0 < cc
                        ==> #[trigger] self.borders.horizontal_char(k0, c0) == (if old(
                        self,
                    ).borders.has_horizontal(k0) {
                        old(self).borders.horizontal_char(k0, c0)
                    } else if k0 < hk && need_h(*entity, *border, k0, rr, cc) {
                        Some(' ')
                    } else {
                        None
                    }),
                forall|k0: int, l0: int|
                    0 <= k0 <= rr && 0 <= l0 <= cc ==> #[trigger] self.borders.inter(k0, l0) == (
                    if old(self).borders.has_horizontal(k0) || !(k0 < hk && need_h(
                        *entity,
                        *border,
                        k0,
                        rr,
                        cc,
                    )) {
                        midc.borders.inter(k0, l0)
                    } else if midc.borders.has_vertical(l0) {
                        Some(' ')
                    } else {
                        None
                    }),
            decreases rows + 1 - hk,
        {
            if Self::need_h_exec(entity, border, hk, rows, cols)
                && !self.borders.is_there_horizontal(hk) {
                self.add_horizontal_split(hk);
            }
            hk = hk + 1;
        }
    }
}

} // verus!

verus! {

/// Whether a span value stays inside the grid for every cell the entity
/// addresses.
pub open spec fn span_fits(e: Entity, s: int, cols: int) -> bool {
    match e {
        Entity::Cell(r, c) => c + s <= cols,
        _ => s <= cols,
    }
}

/// The character of a vertical boundary slot after the split lines a
/// non-strict border application needs were created.
pub open spec fn mid_v(g: Grid, e: Entity, br: Border, check: bool, r: int, k: int) -> Option<
    char,
> {
    if g.borders.has_vertical(k) {
        g.borders.vertical_char(r, k)
    } else if check && need_v(e, br, k, g.rows(), g.cols()) {
        Some(' ')
    } else {
        None
    }
}

/// The character of a horizontal boundary slot after the split lines a
/// non-strict border application needs were created.
pub open spec fn mid_h(g: Grid, e: Entity, br: Border, check: bool, k: int, c: int) -> Option<
    char,
> {
    if g.borders.has_horizontal(k) {
        g.borders.horizontal_char(k, c)
    } else if check && need_h(e, br, k, g.rows(), g.cols()) {
        Some(' ')
    } else {
        None
    }
}

/// Whether a horizontal boundary exists after split creation.
pub open spec fn mid_has_h(g: Grid, e: Entity, br: Border, check: bool, k: int) -> bool {
    g.borders.has_horizontal(k) || (check && need_h(e, br, k, g.rows(), g.cols()))
}

/// Whether a vertical boundary exists after split creation.
pub open spec fn mid_has_v(g: Grid, e: Entity, br: Border, check: bool, k: int) -> bool {
    g.borders.has_vertical(k) || (check && need_v(e, br, k, g.rows(), g.cols()))
}

/// The character of an intersection after split creation.
pub open spec fn mid_i(g: Grid, e: Entity, br: Border, check: bool, k: int, l: int) -> Option<
    char,
> {
    if g.borders.has_horizontal(k) && g.borders.has_vertical(l) {
        g.borders.inter(k, l)
    } else if mid_has_h(g, e, br, check, k) && mid_has_v(g, e, br, check, l) {
        Some(' ')
    } else {
        None
    }
}

impl Grid {
    /// Apply a settings diff to the entity: content text, style fields and
    /// border, each only where present. A border is applied only over
    /// existing split lines unless the diff asks for their creation.
    pub fn set(&mut self, entity: &Entity, settings: Settings)
        requires
            old(self).wf(),
            entity.in_bounds(old(self).rows(), old(self).cols()),
            settings.span is Some ==> span_fits(*entity, settings.span->0 as int, old(self).cols()),
            settings.border is Some && !settings.border_split_check ==> strict_ok(
                old(self).borders,
                *entity,
                settings.border->0,
                old(self).rows(),
                old(self).cols(),
            ),
        ensures
            final(self).wf(),
            final(self).size == old(self).size,
            final(self).margin == old(self).margin,
            final(self).override_split_lines == old(self).override_split_lines,
            final(self).cells@.len() == old(self).cells@.len(),
            forall|r: int|
                0 <= r < old(self).rows() ==> (#[trigger] final(self).cells@[r])@.len() == old(
                    self,
                ).cols(),
            forall|r: int, c: int|
                0 <= r < old(self).rows() && 0 <= c < old(self).cols()
                    ==> (#[trigger] final(self).cells@[r]@[c])@ == (if settings.text is Some
                    && covers(*entity, r, c, old(self).rows(), old(self).cols()) {
                    settings.text->0@
                } else {
                    old(self).cells@[r]@[c]@
                }),
            crate::types::diff_touches_style(settings) ==> crate::styles::stored(
                old(self).styles,
                final(self).styles,
                *entity,
                crate::types::apply_diff(old(self).styles.resolve(*entity), settings),
            ),
            !crate::types::diff_touches_style(settings) ==> final(self).styles == old(self).styles,
            settings.border is None ==> final(self).borders == old(self).borders,
            settings.border is Some ==> {
                let br = settings.border->0;
                let check = settings.border_split_check;
                &&& forall|k: int| #![trigger final(self).borders.has_vertical(k)]
                    final(self).borders.has_vertical(k) == mid_has_v(
                        *old(self),
                        *entity,
                        br,
                        check,
                        k,
                    )
                &&& forall|k: int| #![trigger final(self).borders.has_horizontal(k)]
                    final(self).borders.has_horizontal(k) == mid_has_h(
                        *old(self),
                        *entity,
                        br,
                        check,
                        k,
                    )
                &&& forall|r: int, k: int|
                    0 <= r < old(self).rows() && 0 <= k <= old(self).cols()
                        ==> #[trigger] final(self).borders.vertical_char(r, k) == sb_v(
                        *entity,
                        br,
                        mid_v(*old(self), *entity, br, check, r, k),
                        r,
                        k,
                        old(self).rows(),
                        old(self).cols(),
                    )
                &&& forall|k: int, c: int|
                    0 <= k <= old(self).rows() && 0 <= c < old(self).cols()
                        ==> #[trigger] final(self).borders.horizontal_char(k, c) == sb_h(
                        *entity,
                        br,
                        mid_h(*old(self), *entity, br, check, k, c),
                        k,
                        c,
                        old(self).rows(),
                        old(self).cols(),
                    )
                &&& forall|k: int, l: int|
                    0 <= k <= old(self).rows() && 0 <= l <= old(self).cols()
                        ==> #[trigger] final(self).borders.inter(k, l) == sb_i(
                        *entity,
                        br,
                        mid_i(*old(self), *entity, br, check, k, l),
                        k,
                        l,
                        old(self).rows(),
                        old(self).cols(),
                    )
            },
    {
        match &settings.text {
            Some(t) => {
                let tcopy = t.clone();
                self.set_text(entity, tcopy.as_str());
            },
            None => (),
        }
        let touches = settings.span.is_some() || settings.padding.is_some()
            || settings.alignment_h.is_some() || settings.alignment_v.is_some()
            || settings.formatting.is_some();
        if touches {
            let base = self.styles.style(entity);
            let mut st = base;
            match settings.padding {
                Some(p) => {
                    st.padding = p;
                },
                None => (),
            }
            match settings.alignment_h {
                Some(a) => {
                    st.alignment_h = a;
                },
                None => (),
            }
            match settings.alignment_v {
                Some(a) => {
                    st.alignment_v = a;
                },
                None => (),
            }
            match settings.span {
                Some(sp) => {
                    st.span = sp;
                },
                None => (),
            }
            match settings.formatting {
                Some(f) => {
                    st.formatting = f;
                },
                None => (),
            }
            self.styles.store(entity, st);
        }
        match &settings.border {
            Some(b) => {
                let bcopy = *b;
                if settings.border_split_check {
                    self.create_splits(entity, &bcopy);
                    proof {
                        assert(strict_ok(
                            self.borders,
                            *entity,
                            bcopy,
                            old(self).rows(),
                            old(self).cols(),
                        ));
                    }
                }
                self.apply_border(entity, &bcopy);
            },
            None => (),
        }
    }
}

} // verus!

verus! {

/// `n` bands of `w` fill characters, each on its own line.
pub open spec fn bands(fill: char, w: int, n: int) -> Seq<char>
    decreases n,
{
    if n <= 0 {
        Seq::empty()
    } else {
        bands(fill, w, n - 1) + crate::text::repeat_char_seq(fill, w) + seq!['\n']
    }
}

impl Grid {
    /// The style every cell resolves to.
    pub open spec fn resolved_styles(self) -> Seq<Seq<Style>> {
        Seq::new(
            self.size.0 as nat,
            |r: int| Seq::new(self.size.1 as nat, |c: int| self.styles.cell_style(r, c)),
        )
    }

    /// Every cell's content, tab-replaced and split into lines.
    pub open spec fn cell_lines(self) -> Seq<Seq<Seq<Seq<char>>>> {
        Seq::new(
            self.size.0 as nat,
            |r: int|
                Seq::new(
                    self.size.1 as nat,
                    |c: int|
                        crate::text::spec_lines(
                            crate::text::spec_replace_tab(
                                self.cells@[r]@[c]@,
                                self.styles.cell_style(r, c).formatting.tab_width as int,
                            ),
                        ),
                ),
        )
    }

    /// The styles of one row after the span repair passes.
    pub open spec fn prep_styles(self) -> Seq<Seq<Style>> {
        Seq::new(
            self.size.0 as nat,
            |r: int|
                crate::spans::fix_zero_spans(
                    crate::spans::fix_first_styles(
                        crate::spans::fix_invisible(self.resolved_styles()[r]),
                    ),
                ),
        )
    }

    /// The cell lines of one row after the first-column repair swap.
    pub open spec fn prep_cells(self) -> Seq<Seq<Seq<Seq<char>>>> {
        Seq::new(
            self.size.0 as nat,
            |r: int|
                crate::spans::fix_first_cells(
                    crate::spans::fix_invisible(self.resolved_styles()[r]),
                    self.cell_lines()[r],
                ),
        )
    }

    /// The vertical connectors each content row meets.
    pub open spec fn inner_borders(self) -> Seq<Seq<crate::borders::BorderLine>> {
        Seq::new(self.size.0 as nat, |r: int| self.borders.spec_inner_row(r))
    }

    /// The resolved widths of every cell.
    pub open spec fn grid_widths(self) -> Seq<Seq<usize>> {
        crate::width::spec_columns_width(
            self.prep_styles(),
            self.inner_borders(),
            self.prep_cells(),
            self.rows(),
            self.cols(),
        )
    }

    /// The height of every row.
    pub open spec fn grid_heights(self) -> Seq<usize> {
        crate::width::spec_rows_height(
            self.prep_cells(),
            self.prep_styles(),
            self.rows(),
            self.cols(),
        )
    }

    /// The per-column widths used for ruling lines.
    pub open spec fn grid_normal(self) -> Seq<usize> {
        crate::width::spec_normalized_width(
            self.prep_styles(),
            self.grid_widths(),
            self.rows(),
            self.cols(),
        )
    }

    /// The total printed width of the grid.
    pub open spec fn grid_total_width(self) -> usize {
        crate::width::spec_total_width(
            self.grid_widths(),
            self.prep_styles(),
            self.inner_borders(),
            self.margin,
        )
    }

    /// The override line of a split row, as characters.
    pub open spec fn override_of(self, k: int) -> Option<Seq<char>> {
        match self.override_split_lines@[k] {
            Some(s) => Some(s@),
            None => None,
        }
    }

    /// One whole split row of the output.
    pub open spec fn split_row_of(self, k: int) -> Seq<char> {
        crate::render::spec_split_line_row(
            self.grid_normal(),
            self.borders.spec_get_row(k),
            self.override_of(k),
            self.margin,
        )
    }

    /// The output of the first `r` rows: the top split line before row 0,
    /// each row's text lines, and a split line after every row.
    pub open spec fn rows_out_upto(self, r: int) -> Seq<char>
        decreases r,
    {
        if r <= 0 {
            Seq::empty()
        } else {
            let head = if r - 1 == 0 {
                self.split_row_of(0)
            } else {
                Seq::empty()
            };
            self.rows_out_upto(r - 1) + head + crate::render::build_row_lines_upto(
                self.prep_cells()[r - 1],
                self.prep_styles()[r - 1],
                self.grid_widths()[r - 1],
                self.inner_borders()[r - 1],
                self.cols(),
                self.grid_heights()[r - 1] as int,
                self.margin,
                self.grid_heights()[r - 1] as int,
            ) + self.split_row_of(r)
        }
    }

    /// The full rendered grid: nothing for an empty grid, else the top
    /// margin bands, every row with its split lines, and the bottom margin
    /// bands.
    pub open spec fn spec_render(self) -> Seq<char> {
        if self.rows() == 0 || self.cols() == 0 {
            Seq::empty()
        } else {
            bands(self.margin.top.fill, self.grid_total_width() as int, self.margin.top.size as int)
                + self.rows_out_upto(self.rows()) + bands(
                self.margin.bottom.fill,
                self.grid_total_width() as int,
                self.margin.bottom.size as int,
            )
        }
    }

    /// Collect the prepared cell lines, repaired styles and inner border
    /// rows of the whole grid.
    #[verifier::loop_isolation(false)]
    fn prepare(&self) -> (r: (Vec<Vec<Vec<String>>>, Vec<Vec<Style>>, Vec<
        Vec<crate::borders::BorderLine>,
    >))
        requires
            self.wf(),
            self.cols() > 0,
        ensures
            r.0.deep_view() == self.prep_cells(),
            crate::width::view2(r.1@) == self.prep_styles(),
            crate::width::view2(r.2@) == self.inner_borders(),
            r.0@.len() == self.rows(),
            r.1@.len() == self.rows(),
            r.2@.len() == self.rows(),
            forall|j: int| 0 <= j < self.rows() ==> (#[trigger] r.0@[j])@.len() == self.cols(),
            forall|j: int| 0 <= j < self.rows() ==> (#[trigger] r.1@[j])@.len() == self.cols(),
            forall|j: int| 0 <= j < self.rows() ==> (#[trigger] r.2@[j])@.len() == self.cols(),
    {
        let rows = self.size.0;
        let cols = self.size.1;
        let mut cells: Vec<Vec<Vec<String>>> = Vec::new();
        let mut styles: Vec<Vec<Style>> = Vec::new();
        let mut borders: Vec<Vec<crate::borders::BorderLine>> = Vec::new();
        let mut r0: usize = 0;
        while r0 < rows
            invariant
                r0 <= rows,
                cells@.len() == r0,
                styles@.len() == r0,
                borders@.len() == r0,
                forall|j: int|
                    0 <= j < r0 ==> #[trigger] cells@[j].deep_view() == self.prep_cells()[j],
                forall|j: int| 0 <= j < r0 ==> (#[trigger] styles@[j])@ == self.prep_styles()[j],
                forall|j: int| 0 <= j < r0 ==> (#[trigger] borders@[j])@ == self.inner_borders()[j],
                forall|j: int| 0 <= j < r0 ==> (#[trigger] cells@[j])@.len() == cols,
                forall|j: int| 0 <= j < r0 ==> (#[trigger] styles@[j])@.len() == cols,
                forall|j: int| 0 <= j < r0 ==> (#[trigger] borders@[j])@.len() == cols,
            decreases rows - r0,
        {
            let mut crow: Vec<Vec<String>> = Vec::new();
            let mut srow: Vec<Style> = Vec::new();
            let mut c0: usize = 0;
            while c0 < cols
                invariant
                    r0 < rows,
                    c0 <= cols,
                    crow@.len() == c0,
                    srow@.len() == c0,
                    forall|j: int|
                        0 <= j < c0 ==> #[trigger] crow@[j].deep_view() == self.cell_lines()[
                            r0 as int
                        ][j],
                    forall|j: int|
                        0 <= j < c0 ==> #[trigger] srow@[j] == self.resolved_styles()[r0 as int][j],
                decreases cols - c0,
            {
                let st = self.styles.style(&Entity::Cell(r0, c0));
                let mut content = self.cells[r0][c0].clone();
                crate::text::replace_tab(&mut content, st.formatting.tab_width);
                let lines = crate::text::split_lines(content.as_str());
                crow.push(lines);
                srow.push(st);
                c0 = c0 + 1;
            }
            proof {
                assert(crow.deep_view() =~= self.cell_lines()[r0 as int]);
                assert(srow@ =~= self.resolved_styles()[r0 as int]);
            }
            crate::spans::fix_invisible_cells(&mut srow);
            let ghost fixed = srow@;
            proof {
                crate::spans::lemma_prep_lens(self.resolved_styles()[r0 as int]);
            }
            crate::spans::fix_first_column_span(&mut srow, &mut crow);
            proof {
                assert(crow.deep_view() =~= crate::spans::fix_first_cells(
                    fixed,
                    self.cell_lines()[r0 as int],
                ));
            }
            crate::spans::fix_zero_column_span(&mut srow);
            let brow = self.borders.get_inner_row(r0);
            proof {
                assert(crow.deep_view() == self.prep_cells()[r0 as int]);
                assert(srow@ == self.prep_styles()[r0 as int]);
                crate::spans::lemma_prep_lens(self.resolved_styles()[r0 as int]);
                crate::spans::lemma_fix_first_cells_len(
                    crate::spans::fix_invisible(self.resolved_styles()[r0 as int]),
                    self.cell_lines()[r0 as int],
                );
            }
            cells.push(crow);
            styles.push(srow);
            borders.push(brow);
            r0 = r0 + 1;
        }
        proof {
            assert(cells.deep_view() =~= self.prep_cells());
            assert(crate::width::view2(styles@) =~= self.prep_styles());
            assert(crate::width::view2(borders@) =~= self.inner_borders());
        }
        (cells, styles, borders)
    }

    /// Render the grid as one block of characters, line by line.
    #[verifier::loop_isolation(false)]
    #[verifier::rlimit(60)]
    pub fn render(&self) -> (out: String)
        requires
            self.wf(),
        ensures
            out@ == self.spec_render(),
    {
        let rows = self.size.0;
        let cols = self.size.1;
        if rows == 0 || cols == 0 {
            return String::new();
        }
        let prep = self.prepare();
        let cells = prep.0;
        let styles = prep.1;
        let borders = prep.2;
        let heights = crate::width::rows_height(&cells, &styles, rows, cols);
        let widths = crate::width::columns_width(&cells, &styles, &borders, rows, cols);
        let normal = crate::width::normalized_width(&widths, &styles, rows, cols);
        let total = crate::width::total_width(&widths, &styles, &borders, &self.margin);
        let mut out = String::new();
        let mut b0: usize = 0;
        while b0 < self.margin.top.size
            invariant
                b0 <= self.margin.top.size,
                out@ == bands(self.margin.top.fill, total as int, b0 as int),
            decreases self.margin.top.size - b0,
        {
            crate::text::repeat_char(&mut out, self.margin.top.fill, total);
            crate::text::push_char(&mut out, '\n');
            proof {
                assert(out@ =~= bands(self.margin.top.fill, total as int, b0 as int + 1));
            }
            b0 = b0 + 1;
        }
        let ghost base = out@;
        let mut r0: usize = 0;
        while r0 < rows
            invariant
                r0 <= rows,
                out@ == base + self.rows_out_upto(r0 as int),
            decreases rows - r0,
        {
            if r0 == 0 {
                let bl0 = self.borders.get_row(0);
                let ov = match &self.override_split_lines[0] {
                    Some(s) => Some(s),
                    None => None,
                };
                crate::render::build_split_line_row(&mut out, &normal, &bl0, ov, &self.margin);
            }
            crate::render::build_row_cells(
                &mut out,
                &cells[r0],
                &styles[r0],
                &widths[r0],
                &borders[r0],
                cols,
                heights[r0],
                &self.margin,
            );
            let blr = self.borders.get_row(r0 + 1);
            let ovr = match &self.override_split_lines[r0 + 1] {
                Some(s) => Some(s),
                None => None,
            };
            crate::render::build_split_line_row(&mut out, &normal, &blr, ovr, &self.margin);
            proof {
                assert(out@ =~= base + self.rows_out_upto(r0 as int + 1));
            }
            r0 = r0 + 1;
        }
        let ghost base2 = out@;
        let mut b1: usize = 0;
        while b1 < self.margin.bottom.size
            invariant
                b1 <= self.margin.bottom.size,
                out@ == base2 + bands(self.margin.bottom.fill, total as int, b1 as int),
            decreases self.margin.bottom.size - b1,
        {
            crate::text::repeat_char(&mut out, self.margin.bottom.fill, total);
            crate::text::push_char(&mut out, '\n');
            proof {
                assert(out@ =~= base2 + bands(
                    self.margin.bottom.fill,
                    total as int,
                    b1 as int + 1,
                ));
            }
            b1 = b1 + 1;
        }
        proof {
            assert(out@ =~= self.spec_render());
        }
        out
    }
}

} // verus!

verus! {

impl Grid {
    /// The border around one cell, each side present only where a split
    /// line or intersection is materialized.
    pub fn get_border(&mut self, row: usize, column: usize) -> (r: Border)
        requires
            old(self).wf(),
            row < old(self).rows(),
            column < old(self).cols(),
        ensures
            *final(self) == *old(self),
            r == old(self).borders.spec_get_border(row as int, column as int),
    {
        self.borders.get_border(row, column)
    }

    /// The full settings of one cell: its content, resolved style fields
    /// and border, ready to be applied to another cell.
    pub fn get_settings(&self, row: usize, column: usize) -> (r: Settings)
        requires
            self.wf(),
            row < self.rows(),
            column < self.cols(),
        ensures
            r.text is Some && r.text->0@ == self.cells@[row as int]@[column as int]@,
            r.alignment_h == Some(self.styles.cell_style(row as int, column as int).alignment_h),
            r.alignment_v == Some(self.styles.cell_style(row as int, column as int).alignment_v),
            r.span == Some(self.styles.cell_style(row as int, column as int).span),
            r.padding == Some(self.styles.cell_style(row as int, column as int).padding),
            r.border == Some(self.borders.spec_get_border(row as int, column as int)),
            r.formatting is None,
            r.border_split_check == false,
    {
        let style = self.styles.style(&Entity::Cell(row, column));
        let content = self.cells[row][column].clone();
        let border = self.borders.get_border(row, column);
        Settings {
            text: Some(content),
            padding: Some(style.padding),
            border: Some(border),
            border_split_check: false,
            span: Some(style.span),
            alignment_h: Some(style.alignment_h),
            alignment_v: Some(style.alignment_v),
            formatting: None,
        }
    }

    /// Install a split line on every boundary and apply the border to
    /// every cell of the grid.
    pub fn set_cell_borders(&mut self, border: Border)
        requires
            old(self).wf(),
        ensures
            final(self).wf(),
            final(self).size == old(self).size,
            final(self).cells == old(self).cells,
            final(self).styles == old(self).styles,
            final(self).margin == old(self).margin,
            final(self).override_split_lines == old(self).override_split_lines,
            forall|k: int| #![trigger final(self).borders.has_horizontal(k)]
                final(self).borders.has_horizontal(k) == (0 <= k <= old(self).rows()),
            forall|k: int| #![trigger final(self).borders.has_vertical(k)]
                final(self).borders.has_vertical(k) == (0 <= k <= old(self).cols()),
            forall|r: int, k: int|
                0 <= r < old(self).rows() && 0 <= k <= old(self).cols()
                    ==> #[trigger] final(self).borders.vertical_char(r, k) == sb_v(
                    Entity::Global,
                    border,
                    Some(' '),
                    r,
                    k,
                    old(self).rows(),
                    old(self).cols(),
                ),
            forall|k: int, c: int|
                0 <= k <= old(self).rows() && 0 <= c < old(self).cols()
                    ==> #[trigger] final(self).borders.horizontal_char(k, c) == sb_h(
                    Entity::Global,
                    border,
                    Some(' '),
                    k,
                    c,
                    old(self).rows(),
                    old(self).cols(),
                ),
            forall|k: int, l: int|
                0 <= k <= old(self).rows() && 0 <= l <= old(self).cols()
                    ==> #[trigger] final(self).borders.inter(k, l) == sb_i(
                    Entity::Global,
                    border,
                    Some(' '),
                    k,
                    l,
                    old(self).rows(),
                    old(self).cols(),
                ),
    {
        self.add_grid_split();
        self.apply_border(&Entity::Global, &border);
    }

    /// The intrinsic width of one row of the grid, from its raw contents
    /// and resolved styles.
    pub open spec fn spec_grid_row_width(self, row: int) -> usize {
        crate::width::spec_row_width(
            self.resolved_styles()[row],
            Seq::new(
                self.size.1 as nat,
                |c: int|
                    crate::text::cap_usize(
                        crate::text::spec_string_width(self.cells@[row]@[c]@)
                            + self.styles.cell_style(row, c).padding.left.size
                            + self.styles.cell_style(row, c).padding.right.size,
                    ),
            ),
            self.borders.spec_inner_row(row),
            0,
            self.cols(),
        )
    }

    /// The total width one row asks for: its visible cells' content plus
    /// padding, and the vertical split lines among them.
    #[verifier::loop_isolation(false)]
    pub fn row_width(&self, row: usize) -> (r: usize)
        requires
            self.wf(),
            row < self.rows(),
        ensures
            r == self.spec_grid_row_width(row as int),
    {
        let cols = self.size.1;
        let mut row_widths: Vec<usize> = Vec::new();
        let mut row_styles: Vec<Style> = Vec::new();
        let mut c: usize = 0;
        while c < cols
            invariant
                c <= cols,
                row_widths@.len() == c,
                row_styles@.len() == c,
                forall|j: int|
                    0 <= j < c ==> #[trigger] row_widths@[j] == crate::text::cap_usize(
                        crate::text::spec_string_width(self.cells@[row as int]@[j]@)
                            + self.styles.cell_style(row as int, j).padding.left.size
                            + self.styles.cell_style(row as int, j).padding.right.size,
                    ),
                forall|j: int|
                    0 <= j < c ==> #[trigger] row_styles@[j] == self.resolved_styles()[row as int][
                        j
                    ],
            decreases cols - c,
        {
            let style = self.styles.style(&Entity::Cell(row, c));
            let w = crate::text::string_width(self.cells[row][c].as_str());
            let w2 = crate::text::add_capped(
                crate::text::add_capped(w, style.padding.left.size),
                style.padding.right.size,
            );
            row_widths.push(w2);
            row_styles.push(style);
            c = c + 1;
        }
        let row_borders = self.borders.get_inner_row(row);
        proof {
            assert(row_styles@ =~= self.resolved_styles()[row as int]);
            assert(row_widths@ =~= Seq::new(
                self.size.1 as nat,
                |j: int|
                    crate::text::cap_usize(
                        crate::text::spec_string_width(self.cells@[row as int]@[j]@)
                            + self.styles.cell_style(row as int, j).padding.left.size
                            + self.styles.cell_style(row as int, j).padding.right.size,
                    ),
            ));
        }
        crate::width::row_width(&row_styles, &row_widths, &row_borders, 0, cols)
    }

    /// The total printed width of the grid, with its split lines and
    /// margins; 0 for a grid without rows or columns.
    pub fn total_width(&self) -> (r: usize)
        requires
            self.wf(),
        ensures
            r == (if self.rows() == 0 || self.cols() == 0 {
                0usize
            } else {
                self.grid_total_width()
            }),
    {
        let rows = self.size.0;
        let cols = self.size.1;
        if rows == 0 || cols == 0 {
            return 0;
        }
        let prep = self.prepare();
        let cells = prep.0;
        let styles = prep.1;
        let borders = prep.2;
        let widths = crate::width::columns_width(&cells, &styles, &borders, rows, cols);
        crate::width::total_width(&widths, &styles, &borders, &self.margin)
    }
}

} // verus!

verus! {

impl Grid {
    /// An independent grid holding the rectangle `[row_start, row_end) x
    /// [col_start, col_end)` of this grid, renumbered from `(0, 0)`: its
    /// cells own copies of the contents, every cell's resolved text
    /// settings become cell overrides of the new grid (formatting
    /// switches reset to their defaults), and the borders inside the
    /// rectangle are recreated boundary by boundary.
    #[verifier::loop_isolation(false)]
    #[verifier::rlimit(100)]
    pub fn extract(&self, row_start: usize, row_end: usize, col_start: usize, col_end: usize) -> (g:
        Grid)
        requires
            self.wf(),
            row_start <= row_end <= self.rows(),
            col_start <= col_end <= self.cols(),
        ensures
            g.wf(),
            g.rows() == row_end - row_start,
            g.cols() == col_end - col_start,
            g.margin == crate::types::default_margin(),
            forall|k: int|
                0 <= k <= g.rows() ==> #[trigger] g.override_split_lines@[k] is None,
            forall|r: int, c: int|
                0 <= r < g.rows() && 0 <= c < g.cols() ==> (#[trigger] g.cells@[r]@[c])@
                    == self.cells@[row_start + r]@[col_start + c]@,
            forall|r: int, c: int|
                0 <= r < g.rows() && 0 <= c < g.cols() ==> #[trigger] g.styles.cell_style(r, c)
                    == (Style {
                    formatting: crate::types::default_style().formatting,
                    ..self.styles.cell_style(row_start + r, col_start + c)
                }),
            forall|k: int| #![trigger g.borders.has_vertical(k)]
                g.borders.has_vertical(k) == (0 <= k <= g.cols() && self.borders.has_vertical(
                    col_start + k,
                )),
            forall|k: int| #![trigger g.borders.has_horizontal(k)]
                g.borders.has_horizontal(k) == (0 <= k <= g.rows() && self.borders.has_horizontal(
                    row_start + k,
                )),
            forall|r: int, k: int|
                0 <= r < g.rows() && 0 <= k <= g.cols()
                    ==> #[trigger] g.borders.vertical_char(r, k) == self.borders.vertical_char(
                    row_start + r,
                    col_start + k,
                ),
            forall|k: int, c: int|
                0 <= k <= g.rows() && 0 <= c < g.cols()
                    ==> #[trigger] g.borders.horizontal_char(k, c) == self.borders.horizontal_char(
                    row_start + k,
                    col_start + c,
                ),
            forall|k: int, l: int|
                0 <= k <= g.rows() && 0 <= l <= g.cols() ==> #[trigger] g.borders.inter(k, l)
                    == self.borders.inter(row_start + k, col_start + l),
    {
        let nr = row_end - row_start;
        let nc = col_end - col_start;
        let mut g = Grid::new(nr, nc);
        proof {
            assert forall|kk: int, ll: int|
                0 <= kk <= nr && 0 <= ll <= nc implies #[trigger] g.borders.inter(kk, ll)
                is None by {
                assert(!g.borders.has_horizontal(kk));
                assert(!g.borders.has_vertical(ll));
            }
        }
        let mut r: usize = 0;
        while r < nr
            invariant
                r <= nr,
                g.wf(),
                g.rows() == nr,
                g.cols() == nc,
                g.margin == crate::types::default_margin(),
                forall|kk: int| #![trigger g.borders.has_horizontal(kk)]
                    !g.borders.has_horizontal(kk),
                forall|kk: int| #![trigger g.borders.has_vertical(kk)]
                    !g.borders.has_vertical(kk),
                forall|kk: int, ll: int|
                    0 <= kk <= nr && 0 <= ll <= nc ==> #[trigger] g.borders.inter(kk, ll) is None,
                forall|k: int| 0 <= k <= nr ==> #[trigger] g.override_split_lines@[k] is None,
                forall|r0: int, c0: int|
                    0 <= r0 < r && 0 <= c0 < nc ==> (#[trigger] g.cells@[r0]@[c0])@
                        == self.cells@[row_start + r0]@[col_start + c0]@,
                forall|r0: int, c0: int|
                    r <= r0 < nr && 0 <= c0 < nc ==> (#[trigger] g.cells@[r0]@[c0])@
                        == Seq::<char>::empty(),
                forall|r0: int, c0: int|
                    0 <= r0 < r && 0 <= c0 < nc ==> #[trigger] g.styles.cell_style(r0, c0)
                        == (Style {
                        formatting: crate::types::default_style().formatting,
                        ..self.styles.cell_style(row_start + r0, col_start + c0)
                    }),
                forall|r0: int, c0: int|
                    0 <= r0 < nr && 0 <= c0 < nc && r0 >= r
                        ==> #[trigger] g.styles.cell_overrides@[r0]@[c0] is None,
                forall|c0: int| 0 <= c0 < nc ==> #[trigger] g.styles.col_overrides@[c0] is None,
                forall|r0: int| 0 <= r0 < nr ==> #[trigger] g.styles.row_overrides@[r0] is None,
                g.styles.global == crate::types::default_style(),
            decreases nr - r,
        {
            let mut c: usize = 0;
            while c < nc
                invariant
                    r < nr,
                    c <= nc,
                    g.wf(),
                    g.rows() == nr,
                    g.cols() == nc,
                    g.margin == crate::types::default_margin(),
                    forall|kk: int| #![trigger g.borders.has_horizontal(kk)]
                        !g.borders.has_horizontal(kk),
                    forall|kk: int| #![trigger g.borders.has_vertical(kk)]
                        !g.borders.has_vertical(kk),
                    forall|kk: int, ll: int|
                        0 <= kk <= nr && 0 <= ll <= nc ==> #[trigger] g.borders.inter(kk, ll)
                            is None,
                    forall|k: int| 0 <= k <= nr ==> #[trigger] g.override_split_lines@[k] is None,
                    forall|r0: int, c0: int|
                        0 <= r0 < nr && 0 <= c0 < nc && (r0 < r || (r0 == r && c0 < c)) ==> (
                        #[trigger] g.cells@[r0]@[c0])@ == self.cells@[row_start + r0]@[col_start
                            + c0]@,
                    forall|r0: int, c0: int|
                        0 <= r0 < nr && 0 <= c0 < nc && (r0 > r || (r0 == r && c0 >= c)) ==> (
                        #[trigger] g.cells@[r0]@[c0])@ == Seq::<char>::empty(),
                    forall|r0: int, c0: int|
                        0 <= r0 < nr && 0 <= c0 < nc && (r0 < r || (r0 == r && c0 < c))
                            ==> #[trigger] g.styles.cell_style(r0, c0) == (Style {
                            formatting: crate::types::default_style().formatting,
                            ..self.styles.cell_style(row_start + r0, col_start + c0)
                        }),
                    forall|r0: int, c0: int|
                        0 <= r0 < nr && 0 <= c0 < nc && (r0 > r || (r0 == r && c0 >= c))
                            ==> #[trigger] g.styles.cell_overrides@[r0]@[c0] is None,
                    forall|c0: int| 0 <= c0 < nc ==> #[trigger] g.styles.col_overrides@[c0] is None,
                    forall|r0: int| 0 <= r0 < nr ==> #[trigger] g.styles.row_overrides@[r0] is None,
                    g.styles.global == crate::types::default_style(),
                decreases nc - c,
            {
                let content = self.cells[row_start + r][col_start + c].clone();
                g.cells[r][c] = content;
                let old_style = self.styles.style(&Entity::Cell(row_start + r, col_start + c));
                let mut st = old_style;
                st.formatting = crate::types::Formatting {
                    horizontal_trim: false,
                    vertical_trim: false,
                    allow_lines_alignement: false,
                    tab_width: 4,
                };
                let ghost pre = g;
                g.styles.store(&Entity::Cell(r, c), st);
                proof {
                    assert forall|r0: int, c0: int|
                        0 <= r0 < nr && 0 <= c0 < nc && !(r0 == r as int && c0 == c as int)
                        implies #[trigger] g.styles.cell_style(r0, c0) == pre.styles.cell_style(
                        r0,
                        c0,
                    ) by {
                        if r0 != r as int {
                            assert(g.styles.cell_overrides@[r0] == pre.styles.cell_overrides@[r0]);
                        } else {
                            assert(g.styles.cell_overrides@[r0]@[c0]
                                == pre.styles.cell_overrides@[r0]@[c0]);
                        }
                    }
                    assert(g.styles.cell_style(r as int, c as int) == st);
                }
                c = c + 1;
            }
            r = r + 1;
        }
        let mut k: usize = 0;
        while k < nc + 1
            invariant
                k <= nc + 1,
                g.wf(),
                g.rows() == nr,
                g.cols() == nc,
                g.margin == crate::types::default_margin(),
                g.cells@.len() == nr,
                forall|kk: int| 0 <= kk <= nr ==> #[trigger] g.override_split_lines@[kk] is None,
                forall|r0: int, c0: int|
                    0 <= r0 < nr && 0 <= c0 < nc ==> (#[trigger] g.cells@[r0]@[c0])@
                        == self.cells@[row_start + r0]@[col_start + c0]@,
                forall|r0: int, c0: int|
                    0 <= r0 < nr && 0 <= c0 < nc ==> #[trigger] g.styles.cell_style(r0, c0)
                        == (Style {
                        formatting: crate::types::default_style().formatting,
                        ..self.styles.cell_style(row_start + r0, col_start + c0)
                    }),
                forall|kk: int| #![trigger g.borders.has_horizontal(kk)]
                    !g.borders.has_horizontal(kk),
                forall|kk: int| #![trigger g.borders.has_vertical(kk)]
                    g.borders.has_vertical(kk) == (0 <= kk < k && self.borders.has_vertical(
                        col_start + kk,
                    )),
                forall|r0: int, kk: int|
                    0 <= r0 < nr && 0 <= kk <= nc ==> #[trigger] g.borders.vertical_char(r0, kk)
                        == (if 0 <= kk < k {
                        self.borders.vertical_char(row_start + r0, col_start + kk)
                    } else {
                        None
                    }),
                forall|kk: int, ll: int|
                    0 <= kk <= nr && 0 <= ll <= nc ==> #[trigger] g.borders.inter(kk, ll) is None,
            decreases nc + 1 - k,
        {
            if self.borders.is_there_vertical(col_start + k) {
                g.add_vertical_split(k);
                let mut r2: usize = 0;
                while r2 < nr
                    invariant
                        r2 <= nr,
                        k <= nc,
                        g.wf(),
                        g.rows() == nr,
                        g.cols() == nc,
                        g.margin == crate::types::default_margin(),
                        g.cells@.len() == nr,
                        self.borders.has_vertical(col_start + k),
                        forall|kk: int| 0 <= kk <= nr ==> #[trigger] g.override_split_lines@[kk]
                            is None,
                        forall|r0: int, c0: int|
                            0 <= r0 < nr && 0 <= c0 < nc ==> (#[trigger] g.cells@[r0]@[c0])@
                                == self.cells@[row_start + r0]@[col_start + c0]@,
                        forall|r0: int, c0: int|
                            0 <= r0 < nr && 0 <= c0 < nc ==> #[trigger] g.styles.cell_style(
                                r0,
                                c0,
                            ) == (Style {
                                formatting: crate::types::default_style().formatting,
                                ..self.styles.cell_style(row_start + r0, col_start + c0)
                            }),
                        forall|kk: int| #![trigger g.borders.has_horizontal(kk)]
                            !g.borders.has_horizontal(kk),
                        forall|kk: int| #![trigger g.borders.has_vertical(kk)]
                            g.borders.has_vertical(kk) == (0 <= kk <= k
                                && self.borders.has_vertical(col_start + kk)),
                        forall|r0: int, kk: int|
                            0 <= r0 < nr && 0 <= kk <= nc && kk != k as int
                                ==> #[trigger] g.borders.vertical_char(r0, kk) == (if 0 <= kk < k {
                                self.borders.vertical_char(row_start + r0, col_start + kk)
                            } else {
                                None
                            }),
                        forall|r0: int|
                            0 <= r0 < r2 ==> #[trigger] g.borders.vertical_char(r0, k as int)
                                == self.borders.vertical_char(row_start + r0, col_start + k),
                        forall|r0: int|
                            r2 <= r0 < nr ==> #[trigger] g.borders.vertical_char(r0, k as int)
                                == Some(' '),
                        forall|kk: int, ll: int|
                            0 <= kk <= nr && 0 <= ll <= nc ==> #[trigger] g.borders.inter(kk, ll)
                                is None,
                    decreases nr - r2,
                {
                    let ch = match self.borders.get_vertical_char(row_start + r2, col_start + k) {
                        Some(x) => x,
                        None => ' ',
                    };
                    let ghost pre = g;
                    let res = g.borders.set_column_symbol(r2, k, ch);
                    proof {
                        assert(res is Ok);
                        assert forall|kk: int| #![trigger g.borders.has_vertical(kk)]
                            g.borders.has_vertical(kk) == pre.borders.has_vertical(kk) by {
                            if 0 <= kk <= nc && kk != k as int {
                                assert(g.borders.vertical@[kk] == pre.borders.vertical@[kk]);
                            }
                        }
                        assert forall|kk: int| #![trigger g.borders.has_horizontal(kk)]
                            g.borders.has_horizontal(kk) == pre.borders.has_horizontal(kk) by {}
                        assert forall|r0: int, kk: int|
                            0 <= r0 < nr && 0 <= kk <= nc && !(r0 == r2 as int && kk
                                == k as int) implies #[trigger] g.borders.vertical_char(r0, kk)
                            == pre.borders.vertical_char(r0, kk) by {
                            if kk != k as int {
                                assert(g.borders.vertical@[kk] == pre.borders.vertical@[kk]);
                            } else {
                                assert(g.borders.vertical@[kk]->0@
                                    == pre.borders.vertical@[kk]->0@.update(r2 as int, ch));
                            }
                        }
                        assert(g.borders.vertical_char(r2 as int, k as int) == Some(ch));
                        assert forall|kk: int, ll: int|
                            0 <= kk <= nr && 0 <= ll <= nc implies #[trigger] g.borders.inter(
                            kk,
                            ll,
                        ) == pre.borders.inter(kk, ll) by {}
                    }
                    r2 = r2 + 1;
                }
            }
            k = k + 1;
        }
        let mut hk: usize = 0;
        while hk < nr + 1
            invariant
                hk <= nr + 1,
                g.wf(),
                g.rows() == nr,
                g.cols() == nc,
                g.margin == crate::types::default_margin(),
                g.cells@.len() == nr,
                forall|kk: int| 0 <= kk <= nr ==> #[trigger] g.override_split_lines@[kk] is None,
                forall|r0: int, c0: int|
                    0 <= r0 < nr && 0 <= c0 < nc ==> (#[trigger] g.cells@[r0]@[c0])@
                        == self.cells@[row_start + r0]@[col_start + c0]@,
                forall|r0: int, c0: int|
                    0 <= r0 < nr && 0 <= c0 < nc ==> #[trigger] g.styles.cell_style(r0, c0)
                        == (Style {
                        formatting: crate::types::default_style().formatting,
                        ..self.styles.cell_style(row_start + r0, col_start + c0)
                    }),
                forall|kk: int| #![trigger g.borders.has_vertical(kk)]
                    g.borders.has_vertical(kk) == (0 <= kk <= nc && self.borders.has_vertical(
                        col_start + kk,
                    )),
                forall|r0: int, kk: int|
                    0 <= r0 < nr && 0 <= kk <= nc ==> #[trigger] g.borders.vertical_char(r0, kk)
                        == self.borders.vertical_char(row_start + r0, col_start + kk),
                forall|kk: int| #![trigger g.borders.has_horizontal(kk)]
                    g.borders.has_horizontal(kk) == (0 <= kk < hk && self.borders.has_horizontal(
                        row_start + kk,
                    )),
                forall|kk: int, c0: int|
                    0 <= kk <= nr && 0 <= c0 < nc ==> #[trigger] g.borders.horizontal_char(kk, c0)
                        == (if 0 <= kk < hk {
                        self.borders.horizontal_char(row_start + kk, col_start + c0)
                    } else {
                        None
                    }),
                forall|kk: int, ll: int|
                    0 <= kk <= nr && 0 <= ll <= nc ==> #[trigger] g.borders.inter(kk, ll) == (
                    if g.borders.has_horizontal(kk) && g.borders.has_vertical(ll) {
                        Some(' ')
                    } else {
                        None
                    }),
            decreases nr + 1 - hk,
        {
            if self.borders.is_there_horizontal(row_start + hk) {
                g.add_horizontal_split(hk);
                let mut c2: usize = 0;
                while c2 < nc
                    invariant
                        c2 <= nc,
                        hk <= nr,
                        g.wf(),
                        g.rows() == nr,
                        g.cols() == nc,
                        g.margin == crate::types::default_margin(),
                        g.cells@.len() == nr,
                        self.borders.has_horizontal(row_start + hk),
                        forall|kk: int| 0 <= kk <= nr ==> #[trigger] g.override_split_lines@[kk]
                            is None,
                        forall|r0: int, c0: int|
                            0 <= r0 < nr && 0 <= c0 < nc ==> (#[trigger] g.cells@[r0]@[c0])@
                                == self.cells@[row_start + r0]@[col_start + c0]@,
                        forall|r0: int, c0: int|
                            0 <= r0 < nr && 0 <= c0 < nc ==> #[trigger] g.styles.cell_style(
                                r0,
                                c0,
                            ) == (Style {
                                formatting: crate::types::default_style().formatting,
                                ..self.styles.cell_style(row_start + r0, col_start + c0)
                            }),
                        forall|kk: int| #![trigger g.borders.has_vertical(kk)]
                            g.borders.has_vertical(kk) == (0 <= kk <= nc
                                && self.borders.has_vertical(col_start + kk)),
                        forall|r0: int, kk: int|
                            0 <= r0 < nr && 0 <= kk <= nc
                                ==> #[trigger] g.borders.vertical_char(r0, kk)
                                == self.borders.vertical_char(row_start + r0, col_start + kk),
                        forall|kk: int| #![trigger g.borders.has_horizontal(kk)]
                            g.borders.has_horizontal(kk) == (0 <= kk <= hk
                                && self.borders.has_horizontal(row_start + kk)),
                        forall|kk: int, c0: int|
                            0 <= kk <= nr && 0 <= c0 < nc && kk != hk as int
                                ==> #[trigger] g.borders.horizontal_char(kk, c0) == (if 0 <= kk
                                < hk {
                                self.borders.horizontal_char(row_start + kk, col_start + c0)
                            } else {
                                None
                            }),
                        forall|c0: int|
                            0 <= c0 < c2 ==> #[trigger] g.borders.horizontal_char(hk as int, c0)
                                == self.borders.horizontal_char(row_start + hk, col_start + c0),
                        forall|c0: int|
                            c2 <= c0 < nc ==> #[trigger] g.borders.horizontal_char(hk as int, c0)
                                == Some(' '),
                        forall|kk: int, ll: int|
                            0 <= kk <= nr && 0 <= ll <= nc ==> #[trigger] g.borders.inter(kk, ll)
                                == (if g.borders.has_horizontal(kk) && g.borders.has_vertical(ll) {
                                Some(' ')
                            } else {
                                None
                            }),
                    decreases nc - c2,
                {
                    let ch = match self.borders.get_horizontal_char(
                        row_start + hk,
                        col_start + c2,
                    ) {
                        Some(x) => x,
                        None => ' ',
                    };
                    let ghost pre = g;
                    let res = g.borders.set_row_symbol(hk, c2, ch);
                    proof {
                        assert(res is Ok);
                        assert forall|kk: int| #![trigger g.borders.has_horizontal(kk)]
                            g.borders.has_horizontal(kk) == pre.borders.has_horizontal(kk) by {
                            if 0 <= kk <= nr && kk != hk as int {
                                assert(g.borders.horizontal@[kk] == pre.borders.horizontal@[kk]);
                            }
                        }
                        assert forall|kk: int| #![trigger g.borders.has_vertical(kk)]
                            g.borders.has_vertical(kk) == pre.borders.has_vertical(kk) by {}
                        assert forall|kk: int, c0: int|
                            0 <= kk <= nr && 0 <= c0 < nc && !(kk == hk as int && c0
                                == c2 as int) implies #[trigger] g.borders.horizontal_char(kk, c0)
                            == pre.borders.horizontal_char(kk, c0) by {
                            if kk != hk as int {
                                assert(g.borders.horizontal@[kk] == pre.borders.horizontal@[kk]);
                            } else {
                                assert(g.borders.horizontal@[kk]->0@
                                    == pre.borders.horizontal@[kk]->0@.update(c2 as int, ch));
                            }
                        }
                        assert(g.borders.horizontal_char(hk as int, c2 as int) == Some(ch));
                        assert forall|r0: int, kk: int|
                            0 <= r0 < nr && 0 <= kk <= nc
                            implies #[trigger] g.borders.vertical_char(r0, kk)
                            == pre.borders.vertical_char(r0, kk) by {}
                        assert forall|kk: int, ll: int|
                            0 <= kk <= nr && 0 <= ll <= nc implies #[trigger] g.borders.inter(
                            kk,
                            ll,
                        ) == pre.borders.inter(kk, ll) by {}
                    }
                    c2 = c2 + 1;
                }
            }
            hk = hk + 1;
        }
        let mut ik: usize = 0;
        while ik < nr + 1
            invariant
                ik <= nr + 1,
                g.wf(),
                g.rows() == nr,
                g.cols() == nc,
                g.margin == crate::types::default_margin(),
                g.cells@.len() == nr,
                forall|kk: int| 0 <= kk <= nr ==> #[trigger] g.override_split_lines@[kk] is None,
                forall|r0: int, c0: int|
                    0 <= r0 < nr && 0 <= c0 < nc ==> (#[trigger] g.cells@[r0]@[c0])@
                        == self.cells@[row_start + r0]@[col_start + c0]@,
                forall|r0: int, c0: int|
                    0 <= r0 < nr && 0 <= c0 < nc ==> #[trigger] g.styles.cell_style(r0, c0)
                        == (Style {
                        formatting: crate::types::default_style().formatting,
                        ..self.styles.cell_style(row_start + r0, col_start + c0)
                    }),
                forall|kk: int| #![trigger g.borders.has_vertical(kk)]
                    g.borders.has_vertical(kk) == (0 <= kk <= nc && self.borders.has_vertical(
                        col_start + kk,
                    )),
                forall|r0: int, kk: int|
                    0 <= r0 < nr && 0 <= kk <= nc ==> #[trigger] g.borders.vertical_char(r0, kk)
                        == self.borders.vertical_char(row_start + r0, col_start + kk),
                forall|kk: int| #![trigger g.borders.has_horizontal(kk)]
                    g.borders.has_horizontal(kk) == (0 <= kk <= nr && self.borders.has_horizontal(
                        row_start + kk,
                    )),
                forall|kk: int, c0: int|
                    0 <= kk <= nr && 0 <= c0 < nc ==> #[trigger] g.borders.horizontal_char(kk, c0)
                        == self.borders.horizontal_char(row_start + kk, col_start + c0),
                forall|kk: int, ll: int|
                    0 <= kk < ik && 0 <= ll <= nc ==> #[trigger] g.borders.inter(kk, ll)
                        == self.borders.inter(row_start + kk, col_start + ll),
                forall|kk: int, ll: int|
                    ik <= kk <= nr && 0 <= ll <= nc ==> #[trigger] g.borders.inter(kk, ll) == (
                    if g.borders.has_horizontal(kk) && g.borders.has_vertical(ll) {
                        Some(' ')
                    } else {
                        None
                    }),
            decreases nr + 1 - ik,
        {
            let mut il: usize = 0;
            while il < nc + 1
                invariant
                    il <= nc + 1,
                    ik <= nr,
                    g.wf(),
                    g.rows() == nr,
                    g.cols() == nc,
                    g.margin == crate::types::default_margin(),
                    g.cells@.len() == nr,
                    forall|kk: int| 0 <= kk <= nr ==> #[trigger] g.override_split_lines@[kk]
                        is None,
                    forall|r0: int, c0: int|
                        0 <= r0 < nr && 0 <= c0 < nc ==> (#[trigger] g.cells@[r0]@[c0])@
                            == self.cells@[row_start + r0]@[col_start + c0]@,
                    forall|r0: int, c0: int|
                        0 <= r0 < nr && 0 <= c0 < nc ==> #[trigger] g.styles.cell_style(r0, c0)
                            == (Style {
                            formatting: crate::types::default_style().formatting,
                            ..self.styles.cell_style(row_start + r0, col_start + c0)
                        }),
                    forall|kk: int| #![trigger g.borders.has_vertical(kk)]
                        g.borders.has_vertical(kk) == (0 <= kk <= nc && self.borders.has_vertical(
                            col_start + kk,
                        )),
                    forall|r0: int, kk: int|
                        0 <= r0 < nr && 0 <= kk <= nc ==> #[trigger] g.borders.vertical_char(
                            r0,
                            kk,
                        ) == self.borders.vertical_char(row_start + r0, col_start + kk),
                    forall|kk: int| #![trigger g.borders.has_horizontal(kk)]
                        g.borders.has_horizontal(kk) == (0 <= kk <= nr
                            && self.borders.has_horizontal(row_start + kk)),
                    forall|kk: int, c0: int|
                        0 <= kk <= nr && 0 <= c0 < nc ==> #[trigger] g.borders.horizontal_char(
                            kk,
                            c0,
                        ) == self.borders.horizontal_char(row_start + kk, col_start + c0),
                    forall|kk: int, ll: int|
                        0 <= kk < ik && 0 <= ll <= nc ==> #[trigger] g.borders.inter(kk, ll)
                            == self.borders.inter(row_start + kk, col_start + ll),
                    forall|ll: int|
                        0 <= ll < il ==> #[trigger] g.borders.inter(ik as int, ll)
                            == self.borders.inter(row_start + ik, col_start + ll),
                    forall|ll: int|
                        il <= ll <= nc ==> #[trigger] g.borders.inter(ik as int, ll) == (
                        if g.borders.has_horizontal(ik as int) && g.borders.has_vertical(ll) {
                            Some(' ')
                        } else {
                            None
                        }),
                    forall|kk: int, ll: int|
                        ik < kk <= nr && 0 <= ll <= nc ==> #[trigger] g.borders.inter(kk, ll) == (
                        if g.borders.has_horizontal(kk) && g.borders.has_vertical(ll) {
                            Some(' ')
                        } else {
                            None
                        }),
                decreases nc + 1 - il,
            {
                if g.borders.is_there_horizontal(ik) && g.borders.is_there_vertical(il) {
                    let ch = match self.borders.get_intersection_char(
                        row_start + ik,
                        col_start + il,
                    ) {
                        Some(x) => x,
                        None => ' ',
                    };
                    let ghost pre = g;
                    let res = g.borders.set_intersection(ik, il, ch);
                    proof {
                        assert(res is Ok);
                        assert forall|kk: int| #![trigger g.borders.has_vertical(kk)]
                            g.borders.has_vertical(kk) == pre.borders.has_vertical(kk) by {}
                        assert forall|kk: int| #![trigger g.borders.has_horizontal(kk)]
                            g.borders.has_horizontal(kk) == pre.borders.has_horizontal(kk) by {}
                        assert forall|kk: int, ll: int|
                            0 <= kk <= nr && 0 <= ll <= nc && !(kk == ik as int && ll
                                == il as int) implies #[trigger] g.borders.inter(kk, ll)
                            == pre.borders.inter(kk, ll) by {
                            if kk != ik as int {
                                assert(g.borders.intersections@[kk]
                                    == pre.borders.intersections@[kk]);
                            } else {
                                assert(g.borders.intersections@[kk]@
                                    == pre.borders.intersections@[kk]@.update(
                                    il as int,
                                    Some(ch),
                                ));
                            }
                        }
                        assert(g.borders.inter(ik as int, il as int) == Some(ch));
                        assert forall|r0: int, kk: int|
                            0 <= r0 < nr && 0 <= kk <= nc
                            implies #[trigger] g.borders.vertical_char(r0, kk)
                            == pre.borders.vertical_char(r0, kk) by {}
                        assert forall|kk: int, c0: int|
                            0 <= kk <= nr && 0 <= c0 < nc
                            implies #[trigger] g.borders.horizontal_char(kk, c0)
                            == pre.borders.horizontal_char(kk, c0) by {}
                    }
                }
                il = il + 1;
            }
            ik = ik + 1;
        }
        g
    }
}

} // verus!
