//! Ranges of selected cells.

use vstd::prelude::*;
use crate::index::Point;

verus! {

/// A range of selected cells.
#[derive(Copy, Clone, Debug, PartialEq, Eq, Structural)]
pub struct SelectionRange<L = usize> {
    /// Start point, top left of the selection.
    pub start: Point<L>,
    /// End point, bottom right of the selection.
    pub end: Point<L>,
    /// Whether this selection is a block selection.
    pub is_block: bool,
}

} // verus!
