//! Cascading style storage: a global style, optional per-row and per-column
//! overrides, and optional per-cell overrides. A cell lookup falls back
//! Cell > Column > Row > Global; a row lookup Row > Global; a column lookup
//! Column > Global. The global entry always exists.

use vstd::prelude::*;

use crate::types::Entity;
use crate::types::Style;

verus! {

/// How a style map looks after storing `st` as the override of entity `e`
/// in `pre`: exactly that one slot changed.
pub open spec fn stored(pre: StyleMap, post: StyleMap, e: Entity, st: Style) -> bool {
    match e {
        Entity::Global => {
            &&& post.global == st
            &&& post.row_overrides == pre.row_overrides
            &&& post.col_overrides == pre.col_overrides
            &&& post.cell_overrides == pre.cell_overrides
        },
        Entity::Row(r) => {
            &&& post.global == pre.global
            &&& post.row_overrides@ == pre.row_overrides@.update(r as int, Some(st))
            &&& post.col_overrides == pre.col_overrides
            &&& post.cell_overrides == pre.cell_overrides
        },
        Entity::Column(c) => {
            &&& post.global == pre.global
            &&& post.row_overrides == pre.row_overrides
            &&& post.col_overrides@ == pre.col_overrides@.update(c as int, Some(st))
            &&& post.cell_overrides == pre.cell_overrides
        },
        Entity::Cell(r, c) => {
            &&& post.global == pre.global
            &&& post.row_overrides == pre.row_overrides
            &&& post.col_overrides == pre.col_overrides
            &&& post.cell_overrides@ == pre.cell_overrides@.update(
                r as int,
                post.cell_overrides@[r as int],
            )
            &&& post.cell_overrides@[r as int]@ == pre.cell_overrides@[r as int]@.update(
                c as int,
                Some(st),
            )
        },
    }
}

/// Arena-style storage of the style overrides of every entity.
#[derive(Debug, Clone)]
pub struct StyleMap {
    pub global: Style,
    pub row_overrides: Vec<Option<Style>>,
    pub col_overrides: Vec<Option<Style>>,
    pub cell_overrides: Vec<Vec<Option<Style>>>,
}

impl StyleMap {
    /// Whether the storage is shaped for a `rows x cols` grid.
    pub open spec fn wf(self, rows: int, cols: int) -> bool {
        &&& self.row_overrides.len() == rows
        &&& self.col_overrides.len() == cols
        &&& self.cell_overrides.len() == rows
        &&& forall|r: int|
            0 <= r < rows ==> (#[trigger] self.cell_overrides@[r])@.len() == cols
    }

    /// The style an entity resolves to, walking the fallback chain and
    /// terminating at the global style.
    pub open spec fn resolve(self, e: Entity) -> Style {
        match e {
            Entity::Global => self.global,
            Entity::Row(r) => if self.row_overrides@[r as int] is Some {
                self.row_overrides@[r as int]->0
            } else {
                self.global
            },
            Entity::Column(c) => if self.col_overrides@[c as int] is Some {
                self.col_overrides@[c as int]->0
            } else {
                self.global
            },
            Entity::Cell(r, c) => if self.cell_overrides@[r as int]@[c as int] is Some {
                self.cell_overrides@[r as int]@[c as int]->0
            } else if self.col_overrides@[c as int] is Some {
                self.col_overrides@[c as int]->0
            } else if self.row_overrides@[r as int] is Some {
                self.row_overrides@[r as int]->0
            } else {
                self.global
            },
        }
    }

    /// The style cell `(r, c)` resolves to.
    pub open spec fn cell_style(self, r: int, c: int) -> Style {
        self.resolve(Entity::Cell(r as usize, c as usize))
    }

    /// Storage for a `rows x cols` grid with the given global style and no
    /// overrides.
    pub fn new(rows: usize, cols: usize, global: Style) -> (r: Self)
        ensures
            r.wf(rows as int, cols as int),
            r.global == global,
            forall|i: int| 0 <= i < rows ==> #[trigger] r.row_overrides@[i] is None,
            forall|i: int| 0 <= i < cols ==> #[trigger] r.col_overrides@[i] is None,
            forall|i: int, j: int|
                0 <= i < rows && 0 <= j < cols ==> #[trigger] r.cell_overrides@[i]@[j] is None,
            forall|e: Entity| e.in_bounds(rows as int, cols as int) ==> r.resolve(e) == global,
    {
        let mut row_overrides: Vec<Option<Style>> = Vec::new();
        let mut i: usize = 0;
        while i < rows
            invariant
                i <= rows,
                row_overrides.len() == i,
                forall|k: int| 0 <= k < i ==> #[trigger] row_overrides@[k] is None,
            decreases rows - i,
        {
            row_overrides.push(None);
            i = i + 1;
        }
        let mut col_overrides: Vec<Option<Style>> = Vec::new();
        let mut j: usize = 0;
        while j < cols
            invariant
                j <= cols,
                col_overrides.len() == j,
                forall|k: int| 0 <= k < j ==> #[trigger] col_overrides@[k] is None,
            decreases cols - j,
        {
            col_overrides.push(None);
            j = j + 1;
        }
        let mut cell_overrides: Vec<Vec<Option<Style>>> = Vec::new();
        let mut r0: usize = 0;
        while r0 < rows
            invariant
                r0 <= rows,
                cell_overrides.len() == r0,
                forall|k: int|
                    0 <= k < r0 ==> (#[trigger] cell_overrides@[k])@.len() == cols,
                forall|k: int, l: int|
                    0 <= k < r0 && 0 <= l < cols ==> #[trigger] cell_overrides@[k]@[l] is None,
            decreases rows - r0,
        {
            let mut row: Vec<Option<Style>> = Vec::new();
            let mut c0: usize = 0;
            while c0 < cols
                invariant
                    c0 <= cols,
                    row.len() == c0,
                    forall|k: int| 0 <= k < c0 ==> #[trigger] row@[k] is None,
                decreases cols - c0,
            {
                row.push(None);
                c0 = c0 + 1;
            }
            cell_overrides.push(row);
            r0 = r0 + 1;
        }
        StyleMap { global, row_overrides, col_overrides, cell_overrides }
    }

    /// The style the entity resolves to.
    pub fn style(&self, e: &Entity) -> (r: Style)
        requires
            self.wf(self.row_overrides.len() as int, self.col_overrides.len() as int),
            e.in_bounds(self.row_overrides.len() as int, self.col_overrides.len() as int),
        ensures
            r == self.resolve(*e),
    {
        match e {
            Entity::Global => self.global,
            Entity::Row(r) => {
                match &self.row_overrides[*r] {
                    Some(st) => *st,
                    None => self.global,
                }
            },
            Entity::Column(c) => {
                match &self.col_overrides[*c] {
                    Some(st) => *st,
                    None => self.global,
                }
            },
            Entity::Cell(r, c) => {
                match &self.cell_overrides[*r][*c] {
                    Some(st) => *st,
                    None => {
                        match &self.col_overrides[*c] {
                            Some(st) => *st,
                            None => {
                                match &self.row_overrides[*r] {
                                    Some(st) => *st,
                                    None => self.global,
                                }
                            },
                        }
                    },
                }
            },
        }
    }

    /// Store `st` as the entity's override (the global style for `Global`).
    pub fn store(&mut self, e: &Entity, st: Style)
        requires
            old(self).wf(old(self).row_overrides.len() as int, old(self).col_overrides.len() as int),
            e.in_bounds(
                old(self).row_overrides.len() as int,
                old(self).col_overrides.len() as int,
            ),
        ensures
            final(self).wf(
                old(self).row_overrides.len() as int,
                old(self).col_overrides.len() as int,
            ),
            final(self).resolve(*e) == st,
            stored(*old(self), *final(self), *e, st),
    {
        match e {
            Entity::Global => {
                self.global = st;
            },
            Entity::Row(r) => {
                self.row_overrides[*r] = Some(st);
            },
            Entity::Column(c) => {
                self.col_overrides[*c] = Some(st);
            },
            Entity::Cell(r, c) => {
                self.cell_overrides[*r][*c] = Some(st);
            },
        }
    }
}

} // verus!
