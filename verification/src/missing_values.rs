//! How a chart fills the epochs of a series that hold no value.

use vstd::prelude::*;
use crate::text::{find_char, first_index, text_equals, text_result};

verus! {

/// What stands for a missing value when a series is drawn.
#[derive(Debug, Clone, Copy, PartialEq)]
pub enum MissingValuesPolicy<V> {
    Zero,
    One,
    First,
    Last,
    Fixed(V),
    Avg,
    Max,
    Min,
}

impl<V> Default for MissingValuesPolicy<V> {
    fn default() -> (r: MissingValuesPolicy<V>)
        ensures
            r is Zero,
    {
        MissingValuesPolicy::Zero
    }
}

/// The policy a configuration names with one word, if any: `zero`, `one`, `min`, `max`,
/// `last`, `avg` or `first`.
pub open spec fn named_policy<V>(name: Seq<char>) -> Option<MissingValuesPolicy<V>> {
    if name == "zero"@ {
        Some(MissingValuesPolicy::Zero)
    } else if name == "one"@ {
        Some(MissingValuesPolicy::One)
    } else if name == "min"@ {
        Some(MissingValuesPolicy::Min)
    } else if name == "max"@ {
        Some(MissingValuesPolicy::Max)
    } else if name == "last"@ {
        Some(MissingValuesPolicy::Last)
    } else if name == "avg"@ {
        Some(MissingValuesPolicy::Avg)
    } else if name == "first"@ {
        Some(MissingValuesPolicy::First)
    } else {
        None
    }
}

/// The policy a configuration names with one word, if any (see `named_policy`).
pub fn policy_named<V>(name: &str) -> (r: Option<MissingValuesPolicy<V>>)
    ensures
        r == named_policy::<V>(name@),
{
    if text_equals(name, "zero") {
        Some(MissingValuesPolicy::Zero)
    } else if text_equals(name, "one") {
        Some(MissingValuesPolicy::One)
    } else if text_equals(name, "min") {
        Some(MissingValuesPolicy::Min)
    } else if text_equals(name, "max") {
        Some(MissingValuesPolicy::Max)
    } else if text_equals(name, "last") {
        Some(MissingValuesPolicy::Last)
    } else if text_equals(name, "avg") {
        Some(MissingValuesPolicy::Avg)
    } else if text_equals(name, "first") {
        Some(MissingValuesPolicy::First)
    } else {
        None
    }
}

/// The message for a fixed policy without a value in parentheses.
pub open spec fn missing_parenthesis_message() -> Seq<char> {
    "Unable to find parenthesis enclosed f64 value"@
}

/// The text of a fixed policy `Fixed(value)` between the first `(` and the first `)`: refused
/// when either is missing or nothing lies between them.
pub open spec fn enclosed_text(input: Seq<char>) -> Result<Seq<char>, Seq<char>> {
    let open = first_index(input, '(');
    let close = first_index(input, ')');
    if open < input.len() && close < input.len() {
        if open + 1 >= close {
            Err(missing_parenthesis_message())
        } else {
            Ok(input.subrange(open + 1, close))
        }
    } else {
        Err(missing_parenthesis_message())
    }
}

/// The text of a fixed policy between its parentheses (see `enclosed_text`).
pub fn enclosed_value(input: &str) -> (r: Result<String, String>)
    ensures
        text_result(r) == enclosed_text(input@),
{
    let n = input.unicode_len();
    let open = find_char(input, '(');
    let close = find_char(input, ')');
    if open < n && close < n {
        if open + 1 >= close {
            return Err("Unable to find parenthesis enclosed f64 value".to_owned());
        }
        return Ok(input.substring_char(open + 1, close).to_owned());
    }
    Err("Unable to find parenthesis enclosed f64 value".to_owned())
}

} // verus!
