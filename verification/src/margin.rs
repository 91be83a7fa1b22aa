//! A whole-grid setting: the outer margin, applied through the common
//! grid-option interface.

use vstd::prelude::*;

use crate::grid::Grid;

verus! {

/// A modification of a grid as a whole.
pub trait TableOption {
    /// Change the grid, keeping it consistent.
    fn change(&mut self, grid: &mut Grid)
        requires
            old(grid).wf(),
        ensures
            final(grid).wf(),
    ;
}

/// An outer margin of the grid: fixed-width bands above and below, and
/// fixed-width fill before and after every line.
pub struct Margin(pub crate::types::Margin);

impl Margin {
    /// A margin of the given widths on each side, filled with spaces.
    pub fn new(left: usize, right: usize, top: usize, bottom: usize) -> (r: Self)
        ensures
            r.0 == (crate::types::Margin {
                top: crate::types::Indent { size: top, fill: ' ' },
                bottom: crate::types::Indent { size: bottom, fill: ' ' },
                left: crate::types::Indent { size: left, fill: ' ' },
                right: crate::types::Indent { size: right, fill: ' ' },
            }),
    {
        Margin(
            crate::types::Margin {
                top: crate::types::Indent::spaced(top),
                bottom: crate::types::Indent::spaced(bottom),
                left: crate::types::Indent::spaced(left),
                right: crate::types::Indent::spaced(right),
            },
        )
    }

    /// Use these characters for the fill on each side.
    pub fn set_fill(self, left: char, right: char, top: char, bottom: char) -> (r: Self)
        ensures
            r.0.top == (crate::types::Indent { size: self.0.top.size, fill: top }),
            r.0.bottom == (crate::types::Indent { size: self.0.bottom.size, fill: bottom }),
            r.0.left == (crate::types::Indent { size: self.0.left.size, fill: left }),
            r.0.right == (crate::types::Indent { size: self.0.right.size, fill: right }),
    {
        let mut m = self.0;
        m.left.fill = left;
        m.right.fill = right;
        m.top.fill = top;
        m.bottom.fill = bottom;
        Margin(m)
    }
}

impl TableOption for Margin {
    fn change(&mut self, grid: &mut Grid) {
        grid.margin(self.0)
    }
}

} // verus!
