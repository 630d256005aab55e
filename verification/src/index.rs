//! Line and column newtypes and points of the terminal grid.

use vstd::prelude::*;
use vstd::std_specs::ops::{AddSpecImpl, SubSpecImpl};
use vstd::std_specs::convert::FromSpecImpl;
use core::ops::{Add, Sub, Range};

verus! {

/// Horizontal direction.
#[derive(Debug, Copy, Clone, PartialEq, Eq, Structural)]
pub enum Direction {
    Left,
    Right,
}

/// The side of a cell.
pub type Side = Direction;

impl Direction {
    /// The other horizontal direction.
    pub fn opposite(self) -> (r: Self)
        ensures
            r != self,
            self == Direction::Left ==> r == Direction::Right,
            self == Direction::Right ==> r == Direction::Left,
    {
        match self {
            Direction::Right => Direction::Left,
            Direction::Left => Direction::Right,
        }
    }
}

/// Behavior for handling grid boundaries.
#[derive(Debug, Copy, Clone, PartialEq, Eq, Structural)]
pub enum Boundary {
    /// Clamp to grid boundaries: the last point is returned no matter how far the boundaries
    /// were exceeded.
    Clamp,
    /// Wrap around grid boundaries: the point continues at the other side of the grid history.
    Wrap,
}

/// A line.
#[derive(Debug, Copy, Clone, PartialEq, Eq, Default, PartialOrd, Ord, Structural)]
pub struct Line(pub usize);

/// A column.
#[derive(Debug, Copy, Clone, PartialEq, Eq, Default, PartialOrd, Ord, Structural)]
pub struct Column(pub usize);

/// A linear index.
#[derive(Debug, Copy, Clone, PartialEq, Eq, Default, PartialOrd, Ord, Structural)]
pub struct Linear(pub usize);

/// Index types that stand for a single `usize` value: the grid newtypes and `usize` itself.
pub trait GridIndex: Copy + Sized {
    /// The number the index stands for.
    spec fn index_value(&self) -> nat;

    /// The number the index stands for.
    fn value(&self) -> (r: usize)
        ensures
            r == self.index_value(),
    ;

    /// The index that stands for `v`.
    fn from_value(v: usize) -> (r: Self)
        ensures
            r.index_value() == v,
    ;
}

impl GridIndex for usize {
    open spec fn index_value(&self) -> nat {
        *self as nat
    }

    fn value(&self) -> (r: usize) {
        *self
    }

    fn from_value(v: usize) -> (r: usize) {
        v
    }
}

impl GridIndex for Line {
    open spec fn index_value(&self) -> nat {
        self.0 as nat
    }

    fn value(&self) -> (r: usize) {
        self.0
    }

    fn from_value(v: usize) -> (r: Line) {
        Line(v)
    }
}

impl GridIndex for Column {
    open spec fn index_value(&self) -> nat {
        self.0 as nat
    }

    fn value(&self) -> (r: usize) {
        self.0
    }

    fn from_value(v: usize) -> (r: Column) {
        Column(v)
    }
}

impl GridIndex for Linear {
    open spec fn index_value(&self) -> nat {
        self.0 as nat
    }

    fn value(&self) -> (r: usize) {
        self.0
    }

    fn from_value(v: usize) -> (r: Linear) {
        Linear(v)
    }
}


impl Add<Line> for Line {
    type Output = Line;

    fn add(self, rhs: Line) -> (r: Line) {
        Line(self.0 + rhs.0)
    }
}

impl AddSpecImpl<Line> for Line {
    open spec fn obeys_add_spec() -> bool {
        true
    }

    open spec fn add_req(self, rhs: Line) -> bool {
        self.0 + rhs.0 <= usize::MAX
    }

    open spec fn add_spec(self, rhs: Line) -> Line {
        Line((self.0 + rhs.0) as usize)
    }
}

impl Sub<Line> for Line {
    type Output = Line;

    fn sub(self, rhs: Line) -> (r: Line) {
        Line(self.0 - rhs.0)
    }
}

impl SubSpecImpl<Line> for Line {
    open spec fn obeys_sub_spec() -> bool {
        true
    }

    open spec fn sub_req(self, rhs: Line) -> bool {
        self.0 >= rhs.0
    }

    open spec fn sub_spec(self, rhs: Line) -> Line {
        Line((self.0 - rhs.0) as usize)
    }
}

impl Add<usize> for Line {
    type Output = Line;

    fn add(self, rhs: usize) -> (r: Line) {
        Line(self.0 + rhs)
    }
}

impl AddSpecImpl<usize> for Line {
    open spec fn obeys_add_spec() -> bool {
        true
    }

    open spec fn add_req(self, rhs: usize) -> bool {
        self.0 + rhs <= usize::MAX
    }

    open spec fn add_spec(self, rhs: usize) -> Line {
        Line((self.0 + rhs) as usize)
    }
}

impl Sub<usize> for Line {
    type Output = Line;

    fn sub(self, rhs: usize) -> (r: Line) {
        Line(self.0 - rhs)
    }
}

impl SubSpecImpl<usize> for Line {
    open spec fn obeys_sub_spec() -> bool {
        true
    }

    open spec fn sub_req(self, rhs: usize) -> bool {
        self.0 >= rhs
    }

    open spec fn sub_spec(self, rhs: usize) -> Line {
        Line((self.0 - rhs) as usize)
    }
}

impl From<usize> for Line {
    fn from(val: usize) -> (r: Line) {
        Line(val)
    }
}

impl FromSpecImpl<usize> for Line {
    open spec fn obeys_from_spec() -> bool {
        true
    }

    open spec fn from_spec(val: usize) -> Line {
        Line(val)
    }
}

impl Add<Column> for Column {
    type Output = Column;

    fn add(self, rhs: Column) -> (r: Column) {
        Column(self.0 + rhs.0)
    }
}

impl AddSpecImpl<Column> for Column {
    open spec fn obeys_add_spec() -> bool {
        true
    }

    open spec fn add_req(self, rhs: Column) -> bool {
        self.0 + rhs.0 <= usize::MAX
    }

    open spec fn add_spec(self, rhs: Column) -> Column {
        Column((self.0 + rhs.0) as usize)
    }
}

impl Sub<Column> for Column {
    type Output = Column;

    fn sub(self, rhs: Column) -> (r: Column) {
        Column(self.0 - rhs.0)
    }
}

impl SubSpecImpl<Column> for Column {
    open spec fn obeys_sub_spec() -> bool {
        true
    }

    open spec fn sub_req(self, rhs: Column) -> bool {
        self.0 >= rhs.0
    }

    open spec fn sub_spec(self, rhs: Column) -> Column {
        Column((self.0 - rhs.0) as usize)
    }
}

impl Add<usize> for Column {
    type Output = Column;

    fn add(self, rhs: usize) -> (r: Column) {
        Column(self.0 + rhs)
    }
}

impl AddSpecImpl<usize> for Column {
    open spec fn obeys_add_spec() -> bool {
        true
    }

    open spec fn add_req(self, rhs: usize) -> bool {
        self.0 + rhs <= usize::MAX
    }

    open spec fn add_spec(self, rhs: usize) -> Column {
        Column((self.0 + rhs) as usize)
    }
}

impl Sub<usize> for Column {
    type Output = Column;

    fn sub(self, rhs: usize) -> (r: Column) {
        Column(self.0 - rhs)
    }
}

impl SubSpecImpl<usize> for Column {
    open spec fn obeys_sub_spec() -> bool {
        true
    }

    open spec fn sub_req(self, rhs: usize) -> bool {
        self.0 >= rhs
    }

    open spec fn sub_spec(self, rhs: usize) -> Column {
        Column((self.0 - rhs) as usize)
    }
}

impl From<usize> for Column {
    fn from(val: usize) -> (r: Column) {
        Column(val)
    }
}

impl FromSpecImpl<usize> for Column {
    open spec fn obeys_from_spec() -> bool {
        true
    }

    open spec fn from_spec(val: usize) -> Column {
        Column(val)
    }
}

impl Add<Linear> for Linear {
    type Output = Linear;

    fn add(self, rhs: Linear) -> (r: Linear) {
        Linear(self.0 + rhs.0)
    }
}

impl AddSpecImpl<Linear> for Linear {
    open spec fn obeys_add_spec() -> bool {
        true
    }

    open spec fn add_req(self, rhs: Linear) -> bool {
        self.0 + rhs.0 <= usize::MAX
    }

    open spec fn add_spec(self, rhs: Linear) -> Linear {
        Linear((self.0 + rhs.0) as usize)
    }
}

impl Sub<Linear> for Linear {
    type Output = Linear;

    fn sub(self, rhs: Linear) -> (r: Linear) {
        Linear(self.0 - rhs.0)
    }
}

impl SubSpecImpl<Linear> for Linear {
    open spec fn obeys_sub_spec() -> bool {
        true
    }

    open spec fn sub_req(self, rhs: Linear) -> bool {
        self.0 >= rhs.0
    }

    open spec fn sub_spec(self, rhs: Linear) -> Linear {
        Linear((self.0 - rhs.0) as usize)
    }
}

impl Add<usize> for Linear {
    type Output = Linear;

    fn add(self, rhs: usize) -> (r: Linear) {
        Linear(self.0 + rhs)
    }
}

impl AddSpecImpl<usize> for Linear {
    open spec fn obeys_add_spec() -> bool {
        true
    }

    open spec fn add_req(self, rhs: usize) -> bool {
        self.0 + rhs <= usize::MAX
    }

    open spec fn add_spec(self, rhs: usize) -> Linear {
        Linear((self.0 + rhs) as usize)
    }
}

impl Sub<usize> for Linear {
    type Output = Linear;

    fn sub(self, rhs: usize) -> (r: Linear) {
        Linear(self.0 - rhs)
    }
}

impl SubSpecImpl<usize> for Linear {
    open spec fn obeys_sub_spec() -> bool {
        true
    }

    open spec fn sub_req(self, rhs: usize) -> bool {
        self.0 >= rhs
    }

    open spec fn sub_spec(self, rhs: usize) -> Linear {
        Linear((self.0 - rhs) as usize)
    }
}

impl From<usize> for Linear {
    fn from(val: usize) -> (r: Linear) {
        Linear(val)
    }
}

impl FromSpecImpl<usize> for Linear {
    open spec fn obeys_from_spec() -> bool {
        true
    }

    open spec fn from_spec(val: usize) -> Linear {
        Linear(val)
    }
}


/// Index in the grid using row, column notation.
#[derive(Debug, Clone, Copy, Default, PartialEq, Eq, Structural)]
pub struct Point<L = Line> {
    pub line: L,
    pub col: Column,
}

/// Lines crossed when moving `rhs` cells backwards from column `col` in rows of `n` cells.
pub open spec fn lines_back(n: int, col: int, rhs: int) -> int {
    if rhs + n - 1 > col {
        (rhs + n - 1 - col) / n
    } else {
        0
    }
}

/// Column reached when moving `rhs` cells backwards from column `col` in rows of `n` cells.
pub open spec fn col_back(n: int, col: int, rhs: int) -> int {
    (n + col - rhs % n) % n
}

/// Lines crossed when moving `rhs` cells forwards from column `col` in rows of `n` cells.
pub open spec fn lines_forward(n: int, col: int, rhs: int) -> int {
    (rhs + col) / n
}

/// Column reached when moving `rhs` cells forwards from column `col` in rows of `n` cells.
pub open spec fn col_forward(n: int, col: int, rhs: int) -> int {
    (col + rhs) % n
}

/// Position of a cell in reading order, counting `n` cells per line.
pub open spec fn linear_position(n: int, line: int, col: int) -> int {
    line * n + col
}

/// Moving backwards by `rhs` cells lands `rhs` cells earlier in reading order, and the move
/// underflows exactly when fewer than `rhs` cells precede the start.
pub proof fn lemma_back_move(n: int, line: int, col: int, rhs: int)
    requires
        n > 0,
        0 <= col < n,
        0 <= line,
        0 <= rhs,
    ensures
        0 <= col_back(n, col, rhs) < n,
        0 <= lines_back(n, col, rhs),
        line >= lines_back(n, col, rhs) ==> linear_position(n, line - lines_back(n, col, rhs),
            col_back(n, col, rhs)) == linear_position(n, line, col) - rhs,
        line < lines_back(n, col, rhs) <==> linear_position(n, line, col) < rhs,
{
    let k = lines_back(n, col, rhs);
    let m = rhs % n;
    let q = rhs / n;
    vstd::arithmetic::div_mod::lemma_fundamental_div_mod(rhs, n);
    assert(0 <= m < n) by {
        vstd::arithmetic::div_mod::lemma_mod_bound(rhs, n);
    }
    if rhs + n - 1 > col {
        let d = rhs - col;
        let r1 = (rhs + n - 1 - col) % n;
        vstd::arithmetic::div_mod::lemma_fundamental_div_mod(rhs + n - 1 - col, n);
        vstd::arithmetic::div_mod::lemma_mod_bound(rhs + n - 1 - col, n);
        assert(rhs + n - 1 - col == n * k + r1);
        assert(0 <= k) by {
            vstd::arithmetic::div_mod::lemma_div_pos_is_pos(rhs + n - 1 - col, n);
        }
        let c = k * n - d;
        assert(c == n - 1 - r1) by (nonlinear_arith)
            requires
                rhs + n - 1 - col == n * k + r1,
                d == rhs - col,
                c == k * n - d,
        ;
        assert(n + col - m == c + (q + 1 - k) * n) by (nonlinear_arith)
            requires
                rhs == n * q + m,
                c == k * n - d,
                d == rhs - col,
        ;
        vstd::arithmetic::div_mod::lemma_fundamental_div_mod_converse(n + col - m, n, q + 1 - k, c);
        assert(col_back(n, col, rhs) == c);
        assert(linear_position(n, line - k, c) == linear_position(n, line, col) - rhs) by (
        nonlinear_arith)
            requires
                c == k * n - d,
                d == rhs - col,
        ;
        if line < k {
            assert(linear_position(n, line, col) < rhs) by (nonlinear_arith)
                requires
                    line < k,
                    c == k * n - d,
                    d == rhs - col,
                    c <= n - 1,
                    n > 0,
            ;
        } else {
            assert(linear_position(n, line, col) >= rhs) by (nonlinear_arith)
                requires
                    line >= k,
                    c == k * n - d,
                    d == rhs - col,
                    c >= 0,
                    n > 0,
            ;
        }
    } else {
        assert(k == 0);
        assert(m == rhs) by {
            vstd::arithmetic::div_mod::lemma_small_mod(rhs as nat, n as nat);
        }
        vstd::arithmetic::div_mod::lemma_small_mod((col - rhs) as nat, n as nat);
        vstd::arithmetic::div_mod::lemma_mod_add_multiples_vanish(col - rhs, n);
        assert(col_back(n, col, rhs) == col - rhs);
        assert(linear_position(n, line, col) >= rhs) by (nonlinear_arith)
            requires
                line >= 0,
                n > 0,
                col >= rhs,
        ;
    }
}

/// Moving forwards by `rhs` cells lands `rhs` cells later in reading order.
pub proof fn lemma_forward_move(n: int, line: int, col: int, rhs: int)
    requires
        n > 0,
        0 <= col,
        0 <= rhs,
    ensures
        0 <= col_forward(n, col, rhs) < n,
        0 <= lines_forward(n, col, rhs),
        linear_position(n, line + lines_forward(n, col, rhs), col_forward(n, col, rhs))
            == linear_position(n, line, col) + rhs,
{
    vstd::arithmetic::div_mod::lemma_fundamental_div_mod(col + rhs, n);
    vstd::arithmetic::div_mod::lemma_mod_bound(col + rhs, n);
    vstd::arithmetic::div_mod::lemma_div_pos_is_pos(col + rhs, n);
    let k = lines_forward(n, col, rhs);
    let c = col_forward(n, col, rhs);
    assert(linear_position(n, line + k, c) == linear_position(n, line, col) + rhs) by (
    nonlinear_arith)
        requires
            col + rhs == n * k + c,
    ;
}

impl<L> Point<L> {
    pub fn new(line: L, col: Column) -> (r: Point<L>)
        ensures
            r.line == line,
            r.col == col,
    {
        Point { line, col }
    }

    /// Moves the point `rhs` cells backwards in reading order in rows of `num_cols` cells,
    /// stopping at the origin when the move would go past it.
    pub fn sub(self, num_cols: Column, rhs: usize) -> (r: Point<L>) where L: GridIndex
        requires
            num_cols.0 > 0,
            rhs + num_cols.0 <= usize::MAX,
            self.line.index_value() >= lines_back(num_cols.0 as int, self.col.0 as int, rhs as int)
                ==> num_cols.0 + self.col.0 <= usize::MAX,
        ensures
            self.line.index_value() >= lines_back(num_cols.0 as int, self.col.0 as int, rhs as int)
                ==> {
                &&& r.line.index_value() == self.line.index_value() - lines_back(
                    num_cols.0 as int,
                    self.col.0 as int,
                    rhs as int,
                )
                &&& r.col.0 == col_back(num_cols.0 as int, self.col.0 as int, rhs as int)
            },
            self.line.index_value() < lines_back(num_cols.0 as int, self.col.0 as int, rhs as int)
                ==> r.line.index_value() == 0 && r.col.0 == 0,
    {
        let num_cols = num_cols.0;
        let line_changes = (rhs + num_cols - 1).saturating_sub(self.col.0) / num_cols;
        let line = self.line.value();
        if line >= line_changes {
            Point { line: L::from_value(line - line_changes), col: Column((num_cols + self.col.0 - rhs % num_cols) % num_cols) }
        } else {
            Point::new(L::from_value(0), Column(0))
        }
    }

    /// Moves the point `rhs` cells forwards in reading order in rows of `num_cols` cells.
    pub fn add(self, num_cols: Column, rhs: usize) -> (r: Point<L>) where L: GridIndex
        requires
            num_cols.0 > 0,
            rhs + self.col.0 <= usize::MAX,
            self.line.index_value() + lines_forward(num_cols.0 as int, self.col.0 as int, rhs as int)
                <= usize::MAX,
        ensures
            r.line.index_value() == self.line.index_value() + lines_forward(
                num_cols.0 as int,
                self.col.0 as int,
                rhs as int,
            ),
            r.col.0 == col_forward(num_cols.0 as int, self.col.0 as int, rhs as int),
    {
        let num_cols = num_cols.0;
        let line = self.line.value() + (rhs + self.col.0) / num_cols;
        Point { line: L::from_value(line), col: Column((self.col.0 + rhs) % num_cols) }
    }
}

/// Moving forwards and then backwards by the same number of cells gives back the start.
pub proof fn lemma_forward_then_back(n: int, line: int, col: int, rhs: int)
    requires
        n > 0,
        0 <= col < n,
        0 <= line,
        0 <= rhs,
    ensures
        line + lines_forward(n, col, rhs) >= lines_back(n, col_forward(n, col, rhs), rhs),
        line + lines_forward(n, col, rhs) - lines_back(n, col_forward(n, col, rhs), rhs) == line,
        col_back(n, col_forward(n, col, rhs), rhs) == col,
{
    lemma_forward_move(n, line, col, rhs);
    let l2 = line + lines_forward(n, col, rhs);
    let c2 = col_forward(n, col, rhs);
    lemma_back_move(n, l2, c2, rhs);
    let l3 = l2 - lines_back(n, c2, rhs);
    let c3 = col_back(n, c2, rhs);
    assert(linear_position(n, l3, c3) == linear_position(n, line, col));
    vstd::arithmetic::div_mod::lemma_fundamental_div_mod_converse(linear_position(n, line, col), n, line, col);
    vstd::arithmetic::div_mod::lemma_fundamental_div_mod_converse(linear_position(n, line, col), n, l3, c3);
}

/// `Point::add` then `Point::sub` by the same number of cells gives back the point, for every
/// point inside the row width and every count on which neither move overflows (the bounds are
/// the `requires` of the two moves, which are where their arithmetic overflows).
pub proof fn lemma_point_add_then_sub<L: GridIndex>(p: Point<L>, num_cols: Column, k: usize)
    requires
        num_cols.0 > 0,
        p.col.0 < num_cols.0,
        k + p.col.0 <= usize::MAX,
        p.line.index_value() + lines_forward(num_cols.0 as int, p.col.0 as int, k as int) <= usize::MAX,
        k + num_cols.0 <= usize::MAX,
        num_cols.0 + col_forward(num_cols.0 as int, p.col.0 as int, k as int) <= usize::MAX,
    ensures
        ({
            let n = num_cols.0 as int;
            let line = p.line.index_value() + lines_forward(n, p.col.0 as int, k as int);
            let col = col_forward(n, p.col.0 as int, k as int);
            &&& line >= lines_back(n, col, k as int)
            &&& line - lines_back(n, col, k as int) == p.line.index_value()
            &&& col_back(n, col, k as int) == p.col.0
        }),
{
    lemma_forward_then_back(num_cols.0 as int, p.line.index_value() as int, p.col.0 as int, k as int);
}

/// Grid dimensions.
pub trait Dimensions {
    /// Total number of lines in the buffer, scrollback and visible lines together.
    spec fn spec_total_lines(&self) -> nat;

    /// Height of the viewport in lines.
    spec fn spec_screen_lines(&self) -> nat;

    /// Width of the terminal in columns.
    spec fn spec_cols(&self) -> nat;

    /// Total number of lines in the buffer, this includes scrollback and visible lines.
    fn total_lines(&self) -> (r: usize)
        ensures
            r == self.spec_total_lines(),
    ;

    /// Height of the viewport in lines.
    fn screen_lines(&self) -> (r: Line)
        ensures
            r.0 == self.spec_screen_lines(),
    ;

    /// Width of the terminal in columns.
    fn cols(&self) -> (r: Column)
        ensures
            r.0 == self.spec_cols(),
    ;

    /// Number of invisible lines part of the scrollback history.
    fn history_size(&self) -> (r: usize)
        requires
            self.spec_screen_lines() <= self.spec_total_lines(),
        ensures
            r == self.spec_total_lines() - self.spec_screen_lines(),
    {
        self.total_lines() - self.screen_lines().0
    }
}

/// A grid of the given number of lines, all of them on screen, and columns.
impl Dimensions for (Line, Column) {
    open spec fn spec_total_lines(&self) -> nat {
        self.0.0 as nat
    }

    open spec fn spec_screen_lines(&self) -> nat {
        self.0.0 as nat
    }

    open spec fn spec_cols(&self) -> nat {
        self.1.0 as nat
    }

    fn total_lines(&self) -> (r: usize) {
        self.0.0
    }

    fn screen_lines(&self) -> (r: Line) {
        self.0
    }

    fn cols(&self) -> (r: Column) {
        self.1
    }
}

/// Position of a cell counted backwards from the last cell of line 0, where lines are
/// numbered upwards from the bottom of the buffer and `n` cells make a line.
pub open spec fn reverse_position(n: int, line: int, col: int) -> int {
    line * n + (n - 1 - col)
}

/// In a buffer whose lines are numbered upwards, moving `rhs` cells back in reading order
/// moves the reverse position `rhs` cells forwards.
pub proof fn lemma_absolute_back_move(n: int, line: int, col: int, rhs: int)
    requires
        n > 0,
        0 <= col < n,
        0 <= rhs,
    ensures
        0 <= col_back(n, col, rhs) < n,
        reverse_position(n, line + lines_back(n, col, rhs), col_back(n, col, rhs))
            == reverse_position(n, line, col) + rhs,
{
    let k = lines_back(n, col, rhs);
    lemma_back_move(n, k, col, rhs);
    assert(linear_position(n, k - k, col_back(n, col, rhs)) == linear_position(n, k, col) - rhs);
    let c = col_back(n, col, rhs);
    assert(reverse_position(n, line + k, c) == reverse_position(n, line, col) + rhs) by (
    nonlinear_arith)
        requires
            0 * n + c == k * n + col - rhs,
    ;
}

/// In a buffer whose lines are numbered upwards, moving `rhs` cells forwards in reading order
/// moves the reverse position `rhs` cells back.
pub proof fn lemma_absolute_forward_move(n: int, line: int, col: int, rhs: int)
    requires
        n > 0,
        0 <= col < n,
        0 <= rhs,
    ensures
        0 <= col_forward(n, col, rhs) < n,
        reverse_position(n, line - lines_forward(n, col, rhs), col_forward(n, col, rhs))
            == reverse_position(n, line, col) - rhs,
{
    let k = lines_forward(n, col, rhs);
    let c = col_forward(n, col, rhs);
    lemma_forward_move(n, 0, col, rhs);
    assert(reverse_position(n, line - k, c) == reverse_position(n, line, col) - rhs) by (
    nonlinear_arith)
        requires
            (0 + k) * n + c == 0 * n + col + rhs,
    ;
}

impl Point<usize> {
    /// Moves the point `rhs` cells backwards in reading order in a buffer whose lines are
    /// numbered upwards, clamping or wrapping at the top of the buffer.
    pub fn sub_absolute<D: Dimensions>(self, dimensions: &D, boundary: Boundary, rhs: usize) -> (r:
        Point<usize>)
        requires
            dimensions.spec_cols() > 0,
            rhs + dimensions.spec_cols() <= usize::MAX,
            dimensions.spec_cols() + self.col.0 <= usize::MAX,
            self.line + lines_back(dimensions.spec_cols() as int, self.col.0 as int, rhs as int)
                <= usize::MAX,
            boundary == Boundary::Clamp ==> dimensions.spec_total_lines() > 0,
        ensures
            ({
                let n = dimensions.spec_cols() as int;
                let total = dimensions.spec_total_lines() as int;
                let line = self.line + lines_back(n, self.col.0 as int, rhs as int);
                let col = col_back(n, self.col.0 as int, rhs as int);
                &&& line < total ==> r.line == line && r.col.0 == col
                &&& line >= total && boundary == Boundary::Clamp ==> r.line == total - 1
                    && r.col.0 == 0
                &&& line >= total && boundary == Boundary::Wrap ==> r.line == line - total
                    && r.col.0 == col
            }),
    {
        let total_lines = dimensions.total_lines();
        let num_cols = dimensions.cols().0;
        let line = self.line + (rhs + num_cols - 1).saturating_sub(self.col.0) / num_cols;
        let col = Column((num_cols + self.col.0 - rhs % num_cols) % num_cols);
        if line >= total_lines {
            match boundary {
                Boundary::Clamp => Point::new(total_lines - 1, Column(0)),
                Boundary::Wrap => Point::new(line - total_lines, col),
            }
        } else {
            Point { line, col }
        }
    }

    /// Moves the point `rhs` cells forwards in reading order in a buffer whose lines are
    /// numbered upwards, clamping or wrapping at the bottom of the buffer.
    pub fn add_absolute<D: Dimensions>(self, dimensions: &D, boundary: Boundary, rhs: usize) -> (r:
        Point<usize>)
        requires
            dimensions.spec_cols() > 0,
            rhs + self.col.0 <= usize::MAX,
            boundary == Boundary::Wrap && self.line < lines_forward(
                dimensions.spec_cols() as int,
                self.col.0 as int,
                rhs as int,
            ) ==> {
                &&& dimensions.spec_total_lines() + self.line <= usize::MAX
                &&& dimensions.spec_total_lines() + self.line >= lines_forward(
                    dimensions.spec_cols() as int,
                    self.col.0 as int,
                    rhs as int,
                )
            },
        ensures
            ({
                let n = dimensions.spec_cols() as int;
                let total = dimensions.spec_total_lines() as int;
                let delta = lines_forward(n, self.col.0 as int, rhs as int);
                let col = col_forward(n, self.col.0 as int, rhs as int);
                &&& self.line >= delta ==> r.line == self.line - delta && r.col.0 == col
                &&& self.line < delta && boundary == Boundary::Clamp ==> r.line == 0 && r.col.0
                    == n - 1
                &&& self.line < delta && boundary == Boundary::Wrap ==> r.line == total
                    + self.line - delta && r.col.0 == col
            }),
    {
        let num_cols = dimensions.cols();
        let line_delta = (rhs + self.col.0) / num_cols.0;
        if self.line >= line_delta {
            Point { line: self.line - line_delta, col: Column((self.col.0 + rhs) % num_cols.0) }
        } else {
            match boundary {
                Boundary::Clamp => Point::new(0, num_cols - 1),
                Boundary::Wrap => {
                    let col = Column((self.col.0 + rhs) % num_cols.0);
                    let line = dimensions.total_lines() + self.line - line_delta;
                    Point::new(line, col)
                },
            }
        }
    }
}

impl Linear {
    /// The linear index of `column` on `line` with `columns` cells per line.
    pub fn new(columns: Column, column: Column, line: Line) -> (r: Self)
        requires
            line.0 * columns.0 + column.0 <= usize::MAX,
        ensures
            r.0 == linear_position(columns.0 as int, line.0 as int, column.0 as int),
    {
        proof {
            vstd::arithmetic::mul::lemma_mul_nonnegative(line.0 as int, columns.0 as int);
        }
        Linear(line.0 * columns.0 + column.0)
    }

    /// The linear index of `point` with `columns` cells per line.
    pub fn from_point(columns: Column, point: Point<usize>) -> (r: Self)
        requires
            point.line * columns.0 + point.col.0 <= usize::MAX,
        ensures
            r.0 == linear_position(columns.0 as int, point.line as int, point.col.0 as int),
    {
        proof {
            vstd::arithmetic::mul::lemma_mul_nonnegative(point.line as int, columns.0 as int);
        }
        Linear(point.line * columns.0 + point.col.0)
    }
}


/// Number of steps of size `by` needed to go from `start` up to `end`, rounded up.
pub open spec fn spec_steps_between(start: int, end: int, by: int) -> int {
    if start < end {
        if (end - start) % by > 0 {
            (end - start) / by + 1
        } else {
            (end - start) / by
        }
    } else {
        0
    }
}

/// Number of steps of size `by` needed to go from `start` up to `end`, rounded up; `None`
/// for a step of zero.
fn steps_between<T: GridIndex>(start: T, end: T, by: T) -> (r: Option<usize>)
    ensures
        by.index_value() == 0 ==> r is None,
        by.index_value() > 0 ==> r is Some && r.unwrap() == spec_steps_between(
            start.index_value() as int,
            end.index_value() as int,
            by.index_value() as int,
        ),
{
    let by = by.value();
    if by == 0 {
        return None;
    }
    let start = start.value();
    let end = end.value();
    if start < end {
        let diff = end - start;
        if diff % by > 0 {
            assert(diff / by < diff) by {
                vstd::arithmetic::div_mod::lemma_fundamental_div_mod(diff as int, by as int);
                assert(diff / by < diff) by (nonlinear_arith)
                    requires
                        diff == by * (diff / by) + diff % by,
                        diff % by > 0,
                        by > 1,
                        diff / by >= 0,
                ;
            }
            Some(diff / by + 1)
        } else {
            Some(diff / by)
        }
    } else {
        Some(0)
    }
}

/// A range of grid indices that can be walked from either end.
pub struct IndexRange<T>(pub Range<T>);

impl<T> From<Range<T>> for IndexRange<T> {
    fn from(from: Range<T>) -> (r: Self) {
        IndexRange(from)
    }
}

impl<T> FromSpecImpl<Range<T>> for IndexRange<T> {
    open spec fn obeys_from_spec() -> bool {
        true
    }

    open spec fn from_spec(from: Range<T>) -> IndexRange<T> {
        IndexRange(from)
    }
}

impl<T: GridIndex> IndexRange<T> {
    /// Takes the first index of the range, if the range is not empty.
    pub fn next(&mut self) -> (r: Option<T>)
        ensures
            old(self).0.start.index_value() < old(self).0.end.index_value() ==> {
                &&& r == Some(old(self).0.start)
                &&& final(self).0.start.index_value() == old(self).0.start.index_value() + 1
                &&& final(self).0.end == old(self).0.end
            },
            old(self).0.start.index_value() >= old(self).0.end.index_value() ==> r is None
                && *final(self) == *old(self),
    {
        let start = self.0.start.value();
        if start < self.0.end.value() {
            let old = self.0.start;
            self.0.start = T::from_value(start + 1);
            Some(old)
        } else {
            None
        }
    }

    /// Takes the last index of the range, if the range is not empty.
    pub fn next_back(&mut self) -> (r: Option<T>)
        ensures
            old(self).0.start.index_value() < old(self).0.end.index_value() ==> {
                &&& r is Some
                &&& r.unwrap().index_value() == old(self).0.end.index_value() - 1
                &&& final(self).0.end == r.unwrap()
                &&& final(self).0.start == old(self).0.start
            },
            old(self).0.start.index_value() >= old(self).0.end.index_value() ==> r is None
                && *final(self) == *old(self),
    {
        let end = self.0.end.value();
        if self.0.start.value() < end {
            let new = T::from_value(end - 1);
            self.0.end = new;
            Some(new)
        } else {
            None
        }
    }

    /// Exact number of indices left in the range, as lower and upper bound.
    pub fn size_hint(&self) -> (r: (usize, Option<usize>))
        ensures
            r.0 == spec_steps_between(
                self.0.start.index_value() as int,
                self.0.end.index_value() as int,
                1,
            ),
            r.1 == Some(r.0),
    {
        match steps_between(self.0.start, self.0.end, T::from_value(1)) {
            Some(hint) => (hint, Some(hint)),
            None => (0, None),
        }
    }
}

} // verus!
