use chartacritty::index::{Boundary, Column, Direction, IndexRange, Line, Linear, Point};

#[test]
fn location_ordering() {
    assert!(Point::new(Line(0), Column(0)) == Point::new(Line(0), Column(0)));
    assert!(Point::new(Line(1), Column(0)) > Point::new(Line(0), Column(0)));
    assert!(Point::new(Line(0), Column(1)) > Point::new(Line(0), Column(0)));
    assert!(Point::new(Line(1), Column(1)) > Point::new(Line(0), Column(0)));
    assert!(Point::new(Line(1), Column(1)) > Point::new(Line(0), Column(1)));
    assert!(Point::new(Line(1), Column(1)) > Point::new(Line(1), Column(0)));
}

#[test]
fn sub() {
    let num_cols = Column(42);
    let point = Point::new(0, Column(13));

    let result = point.sub(num_cols, 1);

    assert_eq!(result, Point::new(0, point.col - 1));
}

#[test]
fn sub_wrap() {
    let num_cols = Column(42);
    let point = Point::new(1, Column(0));

    let result = point.sub(num_cols, 1);

    assert_eq!(result, Point::new(0, num_cols - 1));
}

#[test]
fn sub_clamp() {
    let num_cols = Column(42);
    let point = Point::new(0, Column(0));

    let result = point.sub(num_cols, 1);

    assert_eq!(result, point);
}

#[test]
fn add() {
    let num_cols = Column(42);
    let point = Point::new(0, Column(13));

    let result = point.add(num_cols, 1);

    assert_eq!(result, Point::new(0, point.col + 1));
}

#[test]
fn add_wrap() {
    let num_cols = Column(42);
    let point = Point::new(0, num_cols - 1);

    let result = point.add(num_cols, 1);

    assert_eq!(result, Point::new(1, Column(0)));
}

#[test]
fn add_absolute() {
    let point = Point::new(0, Column(13));

    let result = point.add_absolute(&(Line(1), Column(42)), Boundary::Clamp, 1);

    assert_eq!(result, Point::new(0, point.col + 1));
}

#[test]
fn add_absolute_wrapline() {
    let point = Point::new(1, Column(41));

    let result = point.add_absolute(&(Line(2), Column(42)), Boundary::Clamp, 1);

    assert_eq!(result, Point::new(0, Column(0)));
}

#[test]
fn add_absolute_multiline_wrapline() {
    let point = Point::new(2, Column(9));

    let result = point.add_absolute(&(Line(3), Column(10)), Boundary::Clamp, 11);

    assert_eq!(result, Point::new(0, Column(0)));
}

#[test]
fn add_absolute_clamp() {
    let point = Point::new(0, Column(41));

    let result = point.add_absolute(&(Line(1), Column(42)), Boundary::Clamp, 1);

    assert_eq!(result, point);
}

#[test]
fn add_absolute_wrap() {
    let point = Point::new(0, Column(41));

    let result = point.add_absolute(&(Line(3), Column(42)), Boundary::Wrap, 1);

    assert_eq!(result, Point::new(2, Column(0)));
}

#[test]
fn add_absolute_multiline_wrap() {
    let point = Point::new(0, Column(9));

    let result = point.add_absolute(&(Line(3), Column(10)), Boundary::Wrap, 11);

    assert_eq!(result, Point::new(1, Column(0)));
}

#[test]
fn sub_absolute() {
    let point = Point::new(0, Column(13));

    let result = point.sub_absolute(&(Line(1), Column(42)), Boundary::Clamp, 1);

    assert_eq!(result, Point::new(0, point.col - 1));
}

#[test]
fn sub_absolute_wrapline() {
    let point = Point::new(0, Column(0));

    let result = point.sub_absolute(&(Line(2), Column(42)), Boundary::Clamp, 1);

    assert_eq!(result, Point::new(1, Column(41)));
}

#[test]
fn sub_absolute_multiline_wrapline() {
    let point = Point::new(0, Column(0));

    let result = point.sub_absolute(&(Line(3), Column(10)), Boundary::Clamp, 11);

    assert_eq!(result, Point::new(2, Column(9)));
}

#[test]
fn sub_absolute_wrap() {
    let point = Point::new(2, Column(0));

    let result = point.sub_absolute(&(Line(3), Column(42)), Boundary::Wrap, 1);

    assert_eq!(result, Point::new(0, Column(41)));
}

#[test]
fn sub_absolute_multiline_wrap() {
    let point = Point::new(2, Column(0));

    let result = point.sub_absolute(&(Line(3), Column(10)), Boundary::Wrap, 11);

    assert_eq!(result, Point::new(1, Column(9)));
}

#[test]
fn direction_opposite_flips() {
    assert_eq!(Direction::Left.opposite(), Direction::Right);
    assert_eq!(Direction::Right.opposite(), Direction::Left);
}

#[test]
fn sub_absolute_clamps_to_top_line() {
    let point = Point::new(2, Column(0));
    let result = point.sub_absolute(&(Line(3), Column(10)), Boundary::Clamp, 11);
    assert_eq!(result, Point::new(2, Column(0)));
}

#[test]
fn add_then_sub_returns_to_start() {
    let num_cols = Column(7);
    let point = Point::new(Line(3), Column(5));
    let moved = point.add(num_cols, 23);
    assert_eq!(moved, Point::new(Line(7), Column(0)));
    assert_eq!(moved.sub(num_cols, 23), point);
}

#[test]
fn sub_past_origin_clamps_to_origin() {
    let point = Point::new(Line(1), Column(2));
    assert_eq!(point.sub(Column(5), 8), Point::new(Line(0), Column(0)));
    assert_eq!(point.sub(Column(5), 7), Point::new(Line(0), Column(0)));
    assert_eq!(point.sub(Column(5), 6), Point::new(Line(0), Column(1)));
}

#[test]
fn linear_counts_cells_in_reading_order() {
    assert_eq!(Linear::new(Column(10), Column(3), Line(2)), Linear(23));
    assert_eq!(Linear::from_point(Column(10), Point::new(4, Column(9))), Linear(49));
}

#[test]
fn index_range_walks_both_ends() {
    let mut range = IndexRange::from(Line(2)..Line(5));
    assert_eq!(range.size_hint(), (3, Some(3)));
    assert_eq!(range.next(), Some(Line(2)));
    assert_eq!(range.next_back(), Some(Line(4)));
    assert_eq!(range.next(), Some(Line(3)));
    assert_eq!(range.next(), None);
    assert_eq!(range.next_back(), None);
    assert_eq!(range.size_hint(), (0, Some(0)));
}

#[test]
fn buffer_points_order_upwards() {
    assert!(Point::new(2usize, Column(0)) < Point::new(1usize, Column(0)));
    assert!(Point::new(1usize, Column(0)) < Point::new(1usize, Column(3)));
}
