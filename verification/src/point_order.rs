//! Ordering of grid points.

use vstd::prelude::*;
use vstd::std_specs::cmp::PartialOrdSpecImpl;
use core::cmp::Ordering;
use crate::index::{Line, Point};

verus! {

/// Order of two cells compared by line first and column second, where `lines_up` tells
/// whether line numbers grow upwards (so a greater line comes earlier).
pub open spec fn cell_order(
    a_line: usize,
    a_col: usize,
    b_line: usize,
    b_col: usize,
    lines_up: bool,
) -> Ordering {
    if a_line < b_line {
        if lines_up {
            Ordering::Greater
        } else {
            Ordering::Less
        }
    } else if a_line > b_line {
        if lines_up {
            Ordering::Less
        } else {
            Ordering::Greater
        }
    } else if a_col < b_col {
        Ordering::Less
    } else if a_col > b_col {
        Ordering::Greater
    } else {
        Ordering::Equal
    }
}

fn order_cells(a_line: usize, a_col: usize, b_line: usize, b_col: usize, lines_up: bool) -> (r:
    Ordering)
    ensures
        r == cell_order(a_line, a_col, b_line, b_col, lines_up),
{
    if a_line < b_line {
        if lines_up {
            Ordering::Greater
        } else {
            Ordering::Less
        }
    } else if a_line > b_line {
        if lines_up {
            Ordering::Less
        } else {
            Ordering::Greater
        }
    } else if a_col < b_col {
        Ordering::Less
    } else if a_col > b_col {
        Ordering::Greater
    } else {
        Ordering::Equal
    }
}

/// Points on the screen are ordered top to bottom, then left to right.
impl PartialOrd for Point<Line> {
    fn partial_cmp(&self, other: &Point<Line>) -> (r: Option<Ordering>) {
        Some(order_cells(self.line.0, self.col.0, other.line.0, other.col.0, false))
    }
}

impl PartialOrdSpecImpl for Point<Line> {
    open spec fn obeys_partial_cmp_spec() -> bool {
        true
    }

    open spec fn partial_cmp_spec(&self, other: &Point<Line>) -> Option<Ordering> {
        Some(cell_order(self.line.0, self.col.0, other.line.0, other.col.0, false))
    }
}

/// Points of the buffer are numbered upwards, so a higher line comes earlier.
impl PartialOrd for Point<usize> {
    fn partial_cmp(&self, other: &Point<usize>) -> (r: Option<Ordering>) {
        Some(order_cells(self.line, self.col.0, other.line, other.col.0, true))
    }
}

impl PartialOrdSpecImpl for Point<usize> {
    open spec fn obeys_partial_cmp_spec() -> bool {
        true
    }

    open spec fn partial_cmp_spec(&self, other: &Point<usize>) -> Option<Ordering> {
        Some(cell_order(self.line, self.col.0, other.line, other.col.0, true))
    }
}

} // verus!
