//! Settings of the decorations drawn over charts.

use vstd::prelude::*;

verus! {

/// How the value of a series is compared with the threshold of an alert.
#[derive(Debug, PartialEq, Eq, Clone, Copy, Structural)]
pub enum AlertComparator {
    GreaterThan,
    GreaterThanOrEqual,
    LessThan,
    LessThanOrEqual,
    Equal,
}

impl Default for AlertComparator {
    fn default() -> (r: AlertComparator)
        ensures
            r == AlertComparator::GreaterThan,
    {
        AlertComparator::GreaterThan
    }
}

} // verus!
