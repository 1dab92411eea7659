//! Grid coordinates and the time a drone needs to fly between them.

use vstd::prelude::*;

verus! {

pub type Row = u16;

pub type Col = u16;

pub type Turn = u32;

/// Extent of the grid.
#[derive(Copy, Clone, PartialEq, Eq, Debug, Structural)]
pub struct MapSize {
    pub rows: Row,
    pub cols: Col,
}

/// A cell of the grid.
#[derive(Copy, Clone, PartialEq, Eq, Debug, Structural)]
pub struct Location {
    pub row: Row,
    pub col: Col,
}

/// `r` is the least natural number whose square reaches `n`.
pub open spec fn is_ceil_sqrt(n: int, r: int) -> bool {
    &&& r >= 0
    &&& r * r >= n
    &&& (r == 0 || (r - 1) * (r - 1) < n)
}

/// The ceiling of the square root of `n`.
pub open spec fn ceil_sqrt(n: int) -> int {
    choose|r: int| is_ceil_sqrt(n, r)
}

/// Squared Euclidean distance between two cells.
pub open spec fn distance_squared(a: Location, b: Location) -> int {
    (a.row - b.row) * (a.row - b.row) + (a.col - b.col) * (a.col - b.col)
}

/// Turns needed to fly from `a` to `b`: the Euclidean distance, rounded up.
pub open spec fn spec_flight_time(a: Location, b: Location) -> int {
    ceil_sqrt(distance_squared(a, b))
}

proof fn lemma_square_monotone(a: int, b: int)
    requires
        0 <= a <= b,
    ensures
        a * a <= b * b,
{
    assert(a * a <= b * b) by (nonlinear_arith)
        requires
            0 <= a <= b,
    ;
}

/// At most one number is the ceiling of the square root of `n`.
pub proof fn lemma_ceil_sqrt_unique(n: int, r1: int, r2: int)
    requires
        is_ceil_sqrt(n, r1),
        is_ceil_sqrt(n, r2),
    ensures
        r1 == r2,
{
    if r1 < r2 {
        lemma_square_monotone(r1, r2 - 1);
    }
    if r2 < r1 {
        lemma_square_monotone(r2, r1 - 1);
    }
}

/// A number that meets the definition is the ceiling of the square root.
pub proof fn lemma_ceil_sqrt_is(n: int, r: int)
    requires
        is_ceil_sqrt(n, r),
    ensures
        ceil_sqrt(n) == r,
{
    lemma_ceil_sqrt_unique(n, r, ceil_sqrt(n));
}

/// Flying from a cell to itself takes no time.
pub proof fn lemma_flight_time_to_self(a: Location)
    ensures
        spec_flight_time(a, a) == 0,
{
    lemma_ceil_sqrt_is(distance_squared(a, a), 0);
}

/// Flying back takes as long as flying there.
pub proof fn lemma_flight_time_symmetric(a: Location, b: Location)
    ensures
        spec_flight_time(a, b) == spec_flight_time(b, a),
{
    assert(distance_squared(a, b) == distance_squared(b, a)) by (nonlinear_arith);
}

/// The flight time is the distance rounded up: its square reaches the squared
/// distance, and no smaller number's does. It never exceeds 92682 turns.
pub proof fn lemma_flight_time_is_rounded_distance(a: Location, b: Location)
    ensures
        is_ceil_sqrt(distance_squared(a, b), spec_flight_time(a, b)),
        0 <= spec_flight_time(a, b) <= 92682,
        a != b ==> spec_flight_time(a, b) >= 1,
{
    let n = distance_squared(a, b);
    let dr = a.row - b.row;
    let dc = a.col - b.col;
    assert(0 <= n <= 8589672450) by (nonlinear_arith)
        requires
            n == dr * dr + dc * dc,
            -65535 <= dr <= 65535,
            -65535 <= dc <= 65535,
    ;
    lemma_ceil_sqrt_exists(n, 92682);
    let r = spec_flight_time(a, b);
    if r > 92682 {
        lemma_square_monotone(92682, r - 1);
    }
    if a != b {
        assert(n >= 1) by (nonlinear_arith)
            requires
                n == dr * dr + dc * dc,
                dr != 0 || dc != 0,
        ;
        assert(r != 0) by (nonlinear_arith)
            requires
                r * r >= n,
                n >= 1,
        ;
    }
}

proof fn lemma_ceil_sqrt_exists(n: int, bound: int)
    requires
        0 <= bound,
        n <= bound * bound,
    ensures
        is_ceil_sqrt(n, ceil_sqrt(n)),
    decreases bound,
{
    if bound == 0 || (bound - 1) * (bound - 1) < n {
        assert(is_ceil_sqrt(n, bound));
    } else {
        lemma_ceil_sqrt_exists(n, bound - 1);
    }
}

fn abs_diff(a: u16, b: u16) -> (d: u64)
    ensures
        d == (if a > b { a - b } else { b - a }),
{
    if a > b {
        (a - b) as u64
    } else {
        (b - a) as u64
    }
}

impl Location {
    /// Turns needed to fly from here to `other`.
    pub fn flight_time(&self, other: &Location) -> (turns: Turn)
        ensures
            turns == spec_flight_time(*self, *other),
            (*self == *other) ==> turns == 0,
    {
        let diff_row: u64 = abs_diff(self.row, other.row);
        let diff_col: u64 = abs_diff(self.col, other.col);
        assert(diff_row * diff_row + diff_col * diff_col == distance_squared(*self, *other)
            && diff_row * diff_row + diff_col * diff_col <= 8589672450) by (nonlinear_arith)
            requires
                diff_row == self.row - other.row || diff_row == other.row - self.row,
                diff_col == self.col - other.col || diff_col == other.col - self.col,
                0 <= diff_row <= 65535,
                0 <= diff_col <= 65535,
        ;
        let target: u64 = diff_row * diff_row + diff_col * diff_col;
        // Least `high` with `high * high >= target`, found by bisection.
        let mut low: u64 = 0;
        let mut high: u64 = 92682;
        assert(92682 * 92682 >= 8589672450int) by (nonlinear_arith);
        while low < high
            invariant
                0 <= low <= high <= 92682,
                high * high >= target,
                low == 0 || (low - 1) * (low - 1) < target,
            decreases high - low,
        {
            let mid: u64 = low + (high - low) / 2;
            assert(mid * mid <= 92682 * 92682) by (nonlinear_arith)
                requires
                    0 <= mid <= 92682,
            ;
            if mid * mid >= target {
                high = mid;
            } else {
                low = mid + 1;
            }
        }
        proof {
            lemma_ceil_sqrt_is(target as int, high as int);
            lemma_flight_time_to_self(*self);
        }
        high as Turn
    }
}

} // verus!
