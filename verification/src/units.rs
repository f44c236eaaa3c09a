//! Integer subunit coordinates.
//!
//! Continuous positions are measured in subunits: `SUBUNITS` subunits make up
//! one tile. A pair of subunit scalars forms a [`Vec2`]. Helpers convert a
//! subunit scalar to the tile cell containing it (flooring, rounding or
//! truncating), mirroring the ways a continuous coordinate can be mapped to a
//! grid cell.

use vstd::prelude::*;

verus! {

use vstd::arithmetic::div_mod::{lemma_fundamental_div_mod, lemma_fundamental_div_mod_converse};

/// Number of subunits per tile.
pub const SUBUNITS: i64 = 1000;

/// Largest magnitude a subunit scalar may have inside a well-formed hitbox.
pub const UNIT_LIMIT: i64 = 2_000_000_000_000;

/// Largest magnitude of a position handed to the surroundings computation;
/// keeps the derived cell indices within `CELL_LIMIT`.
pub const POS_LIMIT: i64 = 1_000_000_000_000;

/// Largest magnitude of a cell index for which a tile hitbox stays within
/// `UNIT_LIMIT` subunits.
pub const CELL_LIMIT: i32 = 1_999_999_999;

/// The scalar is small enough that sums of a few of them fit in `i64` and its
/// cell index fits in `i32`.
pub open spec fn unit_ok(x: int) -> bool {
    -UNIT_LIMIT <= x <= UNIT_LIMIT
}

/// Tighter bound used for positions from which cell ranges are derived.
pub open spec fn pos_ok(x: int) -> bool {
    -POS_LIMIT <= x <= POS_LIMIT
}

/// The cell index is small enough that its tile square stays within `unit_ok`.
pub open spec fn cell_ok(c: int) -> bool {
    -CELL_LIMIT <= c <= CELL_LIMIT
}

/// A two-dimensional point or extent in subunits.
#[derive(Clone, Copy, PartialEq, Eq, Structural, Debug)]
pub struct Vec2 {
    pub x: i64,
    pub y: i64,
}

impl Vec2 {
    pub fn new(x: i64, y: i64) -> (r: Vec2)
        ensures
            r.x == x,
            r.y == y,
    {
        Vec2 { x, y }
    }

    /// Both components are within `unit_ok`.
    pub open spec fn wf(self) -> bool {
        unit_ok(self.x as int) && unit_ok(self.y as int)
    }
}

/// Index of the tile cell containing subunit coordinate `a`: the floor of
/// `a / SUBUNITS`.
pub open spec fn floor_units(a: int) -> int {
    a / (SUBUNITS as int)
}

/// Smallest cell index at or above `a / SUBUNITS`: the ceiling.
pub open spec fn ceil_units(a: int) -> int {
    -((-a) / (SUBUNITS as int))
}

/// Cell index obtained by rounding `a / SUBUNITS` to the nearest integer,
/// halves away from zero.
pub open spec fn round_units(a: int) -> int {
    if a >= 0 {
        (a + SUBUNITS / 2) / (SUBUNITS as int)
    } else {
        -((-a + SUBUNITS / 2) / (SUBUNITS as int))
    }
}

/// Cell index obtained by truncating `a / SUBUNITS` toward zero.
pub open spec fn trunc_units(a: int) -> int {
    if a >= 0 {
        a / (SUBUNITS as int)
    } else {
        -((-a) / (SUBUNITS as int))
    }
}

/// The defining inequalities of the floor cell: `a` lies in the tile square
/// of its floor cell.
pub proof fn lemma_floor_units_bounds(a: int)
    ensures
        SUBUNITS * floor_units(a) <= a < SUBUNITS * floor_units(a) + SUBUNITS,
{
    lemma_fundamental_div_mod(a, SUBUNITS as int);
    vstd::arithmetic::div_mod::lemma_mod_bound(a, SUBUNITS as int);
}

/// The defining inequalities of the ceiling cell: `a` lies at or below the
/// start of its ceiling cell, less than one tile away.
pub proof fn lemma_ceil_units_bounds(a: int)
    ensures
        a <= SUBUNITS * ceil_units(a) < a + SUBUNITS,
{
    lemma_floor_units_bounds(-a);
}

/// Floor division of a subunit scalar by `SUBUNITS`.
pub fn floor_div_subunits(a: i64) -> (q: i64)
    requires
        unit_ok(a as int),
    ensures
        q == floor_units(a as int),
{
    if a >= 0 {
        a / SUBUNITS
    } else {
        let m = -a;
        let q0 = (m + (SUBUNITS - 1)) / SUBUNITS;
        proof {
            lemma_ceil_as_floor_div(m as int, SUBUNITS as int);
        }
        -q0
    }
}

/// For positive `d`, `-((m + d - 1) / d)` equals `(-m) / d`: negating the
/// ceiling of `m / d` gives the floor of `-m / d`.
proof fn lemma_ceil_as_floor_div(m: int, d: int)
    requires
        m >= 0,
        d > 0,
    ensures
        -((m + d - 1) / d) == (-m) / d,
{
    let q = m / d;
    let r = m % d;
    lemma_fundamental_div_mod(m, d);
    assert(m == q * d + r);
    if r == 0 {
        assert(m + d - 1 == q * d + (d - 1)) by (nonlinear_arith)
            requires m == q * d + 0
        ;
        assert(-m == (-q) * d + 0) by (nonlinear_arith)
            requires m == q * d + 0
        ;
        lemma_fundamental_div_mod_converse(m + d - 1, d, q, d - 1);
        lemma_fundamental_div_mod_converse(-m, d, -q, 0);
    } else {
        assert(m + d - 1 == (q + 1) * d + (r - 1)) by (nonlinear_arith)
            requires m == q * d + r
        ;
        assert(-m == (-q - 1) * d + (d - r)) by (nonlinear_arith)
            requires m == q * d + r
        ;
        lemma_fundamental_div_mod_converse(m + d - 1, d, q + 1, r - 1);
        lemma_fundamental_div_mod_converse(-m, d, -q - 1, d - r);
    }
}

/// Cell index of the tile containing subunit coordinate `a` (floor-based:
/// the canonical conversion used for map lookups).
pub fn floor_to_cell(a: i64) -> (c: i32)
    requires
        unit_ok(a as int),
    ensures
        c == floor_units(a as int),
        -2_000_000_000 <= c <= 2_000_000_000,
{
    let q = floor_div_subunits(a);
    proof {
        lemma_floor_units_bounds(a as int);
    }
    q as i32
}

/// Smallest cell index at or above `a / SUBUNITS`.
pub fn ceil_to_cell(a: i64) -> (c: i32)
    requires
        unit_ok(a as int),
    ensures
        c == ceil_units(a as int),
        -2_000_000_000 <= c <= 2_000_000_001,
{
    proof {
        lemma_ceil_units_bounds(a as int);
    }
    if a >= 0 {
        let q0 = (a + (SUBUNITS - 1)) / SUBUNITS;
        proof {
            lemma_ceil_as_floor_div(a as int, SUBUNITS as int);
        }
        q0 as i32
    } else {
        let m = -a;
        -((m / SUBUNITS) as i32)
    }
}

/// Cell index nearest to `a / SUBUNITS`, halves rounded away from zero.
pub fn round_to_cell(a: i64) -> (c: i32)
    requires
        unit_ok(a as int),
    ensures
        c == round_units(a as int),
{
    if a >= 0 {
        ((a + SUBUNITS / 2) / SUBUNITS) as i32
    } else {
        let m = -a;
        -(((m + SUBUNITS / 2) / SUBUNITS) as i32)
    }
}

/// Cell index of `a / SUBUNITS` truncated toward zero.
pub fn trunc_to_cell(a: i64) -> (c: i32)
    requires
        unit_ok(a as int),
    ensures
        c == trunc_units(a as int),
{
    if a >= 0 {
        (a / SUBUNITS) as i32
    } else {
        let m = -a;
        -((m / SUBUNITS) as i32)
    }
}

/// Product of two subunit scalars, scaled back down by `SUBUNITS` (flooring).
/// This is the exact counterpart of multiplying two continuous quantities.
pub fn mul_units(a: i64, b: i64) -> (r: i64)
    requires
        -0x7fff_ffff_ffff_ffff <= a * b <= 0x7fff_ffff_ffff_ffff,
    ensures
        r == (a * b) / (SUBUNITS as int),
{
    let p = a * b;
    if p >= 0 {
        p / SUBUNITS
    } else {
        let m = -p;
        let q0 = m / SUBUNITS;
        let r0 = m % SUBUNITS;
        proof {
            lemma_floor_div_of_negated(m as int, SUBUNITS as int);
        }
        if r0 == 0 {
            -q0
        } else {
            -q0 - 1
        }
    }
}

/// For positive `d` and nonnegative `m`, the floor of `-m / d` is `-(m / d)`
/// when `d` divides `m` and `-(m / d) - 1` otherwise.
proof fn lemma_floor_div_of_negated(m: int, d: int)
    requires
        m >= 0,
        d > 0,
    ensures
        m % d == 0 ==> (-m) / d == -(m / d),
        m % d != 0 ==> (-m) / d == -(m / d) - 1,
{
    let q = m / d;
    let r = m % d;
    lemma_fundamental_div_mod(m, d);
    if r == 0 {
        assert(-m == (-q) * d + 0) by (nonlinear_arith)
            requires m == q * d + 0
        ;
        lemma_fundamental_div_mod_converse(-m, d, -q, 0);
    } else {
        assert(-m == (-q - 1) * d + (d - r)) by (nonlinear_arith)
            requires m == q * d + r
        ;
        lemma_fundamental_div_mod_converse(-m, d, -q - 1, d - r);
    }
}

} // verus!
