//! The straight line through two pixels, in exact integer arithmetic.

use vstd::prelude::*;

verus! {

/// (x, y)
pub type Point = (u32, u32);

/// The line `y = m * x + b` with slope `m = rise / run` and intercept
/// `b = base / run`, that is, the points with `run * y == rise * x + base`.
///
/// Slope and intercept are kept as fractions over the common positive
/// denominator `run`, so that no rounding takes place.
#[derive(Clone, Copy, Debug, PartialEq, Eq, Structural)]
pub struct LinearEq {
    pub rise: i64,
    pub run: i64,
    pub base: i128,
}

/// A bound on the magnitude that `base` takes for two points with `u32`
/// coordinates.
pub open spec fn base_limit() -> int {
    0x2_0000_0000_0000_0000
}

/// The denominator of the line through `p` and `q`: the distance between
/// their columns.
pub open spec fn line_run(p: Point, q: Point) -> int {
    if p.0 < q.0 {
        q.0 - p.0
    } else {
        p.0 - q.0
    }
}

/// The numerator of the slope of the line through `p` and `q`: the
/// difference of their rows, taken from the left point to the right one.
pub open spec fn line_rise(p: Point, q: Point) -> int {
    if p.0 < q.0 {
        q.1 - p.1
    } else {
        p.1 - q.1
    }
}

/// The numerator of the intercept of the line through `p` and `q`.
pub open spec fn line_base(p: Point, q: Point) -> int {
    line_run(p, q) * p.1 - line_rise(p, q) * p.0
}

/// The row in which the line through `from` and `to` crosses column `x`,
/// rounded down.
pub open spec fn line_y(from: Point, to: Point, x: int) -> int {
    (line_rise(from, to) * x + line_base(from, to)) / line_run(from, to)
}

/// Whether `eq` is the line through `p` and `q`.
pub open spec fn solves(eq: LinearEq, p: Point, q: Point) -> bool {
    &&& eq.run == line_run(p, q)
    &&& eq.rise == line_rise(p, q)
    &&& eq.base == line_base(p, q)
}

impl LinearEq {
    /// The denominator is positive and the three numbers are small enough to
    /// evaluate the line at any `u32` column.
    pub open spec fn wf(&self) -> bool {
        &&& 0 < self.run <= u32::MAX
        &&& -(u32::MAX as int) <= self.rise <= u32::MAX
        &&& -base_limit() < self.base < base_limit()
    }

    /// Whether `p` lies on the line.
    pub open spec fn passes_through(&self, p: Point) -> bool {
        self.run * p.1 == self.rise * p.0 + self.base
    }

    /// The line's height at column `x`, rounded down to a whole row.
    pub open spec fn y_at(&self, x: int) -> int {
        (self.rise * x + self.base) / (self.run as int)
    }

    /// The row of the line at column `x`, rounded down, where that row is a
    /// `u32`.
    pub fn y(&self, x: u32) -> (row: Option<u32>)
        requires
            self.wf(),
        ensures
            row is Some <==> 0 <= self.y_at(x as int) <= u32::MAX,
            row matches Some(y) ==> y == self.y_at(x as int),
    {
        assert(-0x1_0000_0000_0000_0000 < self.rise * x < 0x1_0000_0000_0000_0000)
            by (nonlinear_arith)
            requires
                -0x1_0000_0000 < self.rise < 0x1_0000_0000,
                0 <= x < 0x1_0000_0000,
        ;
        let numerator: i128 = (self.rise as i128) * (x as i128) + self.base;
        let ghost quotient = self.y_at(x as int);
        assert(numerator < 0 <==> quotient < 0) by (nonlinear_arith)
            requires
                self.run > 0,
                quotient == (numerator as int) / (self.run as int),
        ;
        if numerator < 0 {
            return None;
        }
        let row: u128 = (numerator as u128) / (self.run as u128);
        if row > u32::MAX as u128 {
            None
        } else {
            Some(row as u32)
        }
    }
}

/// Returns the line through `p` and `q`, which must lie in different
/// columns: a vertical line has no slope.
///
/// The result passes through both points exactly.
pub fn solve_linear_eq(p: Point, q: Point) -> (eq: LinearEq)
    requires
        p.0 != q.0,
    ensures
        solves(eq, p, q),
        eq.wf(),
        eq.passes_through(p),
        eq.passes_through(q),
        eq.y_at(p.0 as int) == p.1,
        eq.y_at(q.0 as int) == q.1,
{
    let (x1, y1): (i64, i64) = (p.0 as i64, p.1 as i64);
    let (x2, y2): (i64, i64) = (q.0 as i64, q.1 as i64);
    let (rise, run): (i64, i64) = if x1 < x2 {
        (y2 - y1, x2 - x1)
    } else {
        (y1 - y2, x1 - x2)
    };
    assert(-0x1_0000_0000_0000_0000 < run * y1 < 0x1_0000_0000_0000_0000
        && -0x1_0000_0000_0000_0000 < rise * x1 < 0x1_0000_0000_0000_0000) by (nonlinear_arith)
        requires
            0 < run < 0x1_0000_0000,
            -0x1_0000_0000 < rise < 0x1_0000_0000,
            0 <= x1 < 0x1_0000_0000,
            0 <= y1 < 0x1_0000_0000,
    ;
    let base: i128 = (run as i128) * (y1 as i128) - (rise as i128) * (x1 as i128);
    let eq = LinearEq { rise, run, base };
    proof {
        assert(run * y2 == rise * x2 + base) by (nonlinear_arith)
            requires
                base == run * y1 - rise * x1,
                (rise == y2 - y1 && run == x2 - x1) || (rise == y1 - y2 && run == x1 - x2),
        ;
        assert((run * y1) / (run as int) == y1 && (run * y2) / (run as int) == y2)
            by (nonlinear_arith)
            requires
                run > 0,
        ;
    }
    eq
}

/// The line through two points meets each of them in its own row.
pub proof fn lemma_line_meets_points(p: Point, q: Point)
    requires
        p.0 != q.0,
    ensures
        line_y(p, q, p.0 as int) == p.1,
        line_y(p, q, q.0 as int) == q.1,
{
    let run = line_run(p, q);
    let rise = line_rise(p, q);
    let base = line_base(p, q);
    assert(rise * p.0 + base == run * p.1 && rise * q.0 + base == run * q.1)
        by (nonlinear_arith)
        requires
            base == run * p.1 - rise * p.0,
            (rise == q.1 - p.1 && run == q.0 - p.0) || (rise == p.1 - q.1 && run == p.0
                - q.0),
    ;
    assert((run * p.1) / run == p.1 && (run * q.1) / run == q.1) by (nonlinear_arith)
        requires
            run > 0,
    ;
}

/// Between its two points a line stays between their rows.
pub proof fn lemma_line_between(from: Point, to: Point, x: int)
    requires
        from.0 < to.0,
        from.0 <= x <= to.0,
    ensures
        from.1 <= to.1 ==> from.1 <= line_y(from, to, x) <= to.1,
        from.1 >= to.1 ==> to.1 <= line_y(from, to, x) <= from.1,
{
    let run = to.0 - from.0;
    let rise = to.1 - from.1;
    let step = x - from.0;
    let y = line_y(from, to, x);
    assert(rise * x + (run * from.1 - rise * from.0) == run * from.1 + rise * step)
        by (nonlinear_arith)
        requires
            step == x - from.0,
    ;
    assert(rise >= 0 ==> from.1 <= y <= from.1 + rise) by (nonlinear_arith)
        requires
            y == (run * from.1 + rise * step) / run,
            0 <= step <= run,
            0 < run,
    ;
    assert(rise <= 0 ==> from.1 + rise <= y <= from.1) by (nonlinear_arith)
        requires
            y == (run * from.1 + rise * step) / run,
            0 <= step <= run,
            0 < run,
    ;
}

/// A line between two points of one row stays in that row.
pub proof fn lemma_level_line(from: Point, to: Point, x: int)
    requires
        from.0 != to.0,
        from.1 == to.1,
    ensures
        line_y(from, to, x) == from.1,
{
    let run = line_run(from, to);
    let rise = line_rise(from, to);
    assert((run * from.1) / run == from.1) by (nonlinear_arith)
        requires
            run > 0,
    ;
    assert(rise * x + line_base(from, to) == run * from.1) by (nonlinear_arith)
        requires
            rise == 0,
            line_base(from, to) == run * from.1 - rise * from.0,
    ;
}

} // verus!
