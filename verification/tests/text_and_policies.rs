use chartacritty::decorations::AlertComparator;
use chartacritty::missing_values::{enclosed_value, policy_named, MissingValuesPolicy};
use chartacritty::renderer::{DrawArrayMode, Error};
use chartacritty::text::{decimal_text, ends_with_text, join_text, text_equals};

/// Reads a fixed policy as the configuration reader does: the enclosed text, parsed as a number.
fn fixed(input: &str) -> Result<MissingValuesPolicy<f64>, String> {
    let enclosed = enclosed_value(input)?;
    enclosed
        .parse::<f64>()
        .map(MissingValuesPolicy::Fixed)
        .map_err(|_| String::from("Invalid f64 value"))
}

#[test]
fn missing_values_policy_fixed() {
    let test_string_0 = fixed(")");
    assert_eq!(test_string_0, Err(String::from("Unable to find parenthesis enclosed f64 value")));
    let test_string_1 = fixed("(");
    assert_eq!(test_string_1, Err(String::from("Unable to find parenthesis enclosed f64 value")));
    let test_string_2 = fixed("Fixed)(");
    assert_eq!(test_string_2, Err(String::from("Unable to find parenthesis enclosed f64 value")));
    let test_empty_literal = fixed("Fixed()");
    assert_eq!(test_empty_literal, Err(String::from("Unable to find parenthesis enclosed f64 value")));
    let test_bad_num = fixed("Fixed(A)");
    assert_eq!(test_bad_num, Err(String::from("Invalid f64 value")));
    let test_good = fixed("Fixed(10.0)");
    assert_eq!(test_good, Ok(MissingValuesPolicy::Fixed(10f64)));
}

#[test]
fn encloses_the_text_between_the_first_parentheses() {
    assert_eq!(enclosed_value("Fixed(1.5)"), Ok(String::from("1.5")));
    assert_eq!(enclosed_value("x(ab)c)"), Ok(String::from("ab")));
    assert_eq!(enclosed_value("none"), Err(String::from("Unable to find parenthesis enclosed f64 value")));
}

#[test]
fn names_policies() {
    assert_eq!(policy_named::<f64>("zero"), Some(MissingValuesPolicy::Zero));
    assert_eq!(policy_named::<f64>("one"), Some(MissingValuesPolicy::One));
    assert_eq!(policy_named::<f64>("min"), Some(MissingValuesPolicy::Min));
    assert_eq!(policy_named::<f64>("max"), Some(MissingValuesPolicy::Max));
    assert_eq!(policy_named::<f64>("last"), Some(MissingValuesPolicy::Last));
    assert_eq!(policy_named::<f64>("avg"), Some(MissingValuesPolicy::Avg));
    assert_eq!(policy_named::<f64>("first"), Some(MissingValuesPolicy::First));
    assert_eq!(policy_named::<f64>("Fixed(1)"), None);
    assert_eq!(MissingValuesPolicy::<f64>::default(), MissingValuesPolicy::Zero);
}

#[test]
fn handles_text() {
    assert_eq!(decimal_text(0), "0");
    assert_eq!(decimal_text(1558253499), "1558253499");
    assert_eq!(decimal_text(u64::MAX), u64::MAX.to_string());
    assert_eq!(join_text("ab", "cd"), "abcd");
    assert!(text_equals("success", "success"));
    assert!(!text_equals("success", "error"));
    assert!(ends_with_text("/api/v1/query_range", "query_range"));
    assert!(!ends_with_text("range", "query_range"));
}

#[test]
fn maps_draw_modes_to_gl_primitives() {
    assert_eq!(u32::from(DrawArrayMode::Points), 0x0000);
    assert_eq!(u32::from(DrawArrayMode::LineLoop), 0x0002);
    assert_eq!(u32::from(DrawArrayMode::LineStrip), 0x0003);
    assert_eq!(u32::from(DrawArrayMode::GlTriangles), 0x0004);
}

#[test]
fn describes_renderer_errors() {
    let shader = Error::Shader(String::from("bad vertex shader"));
    assert_eq!(shader.message(), "There was an error initializing the shaders: bad vertex shader");
    let other: Error = String::from("no context").into();
    assert_eq!(other.message(), "no context");
}

#[test]
fn alerts_compare_greater_than_by_default() {
    assert_eq!(AlertComparator::default(), AlertComparator::GreaterThan);
}
