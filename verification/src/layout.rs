//! Grid placement of parts.
//!
//! Parts sit on a square grid in creation order. The side of the grid is the
//! integer square root of the smallest power of two that is at least the
//! number of parts; a part's row is its index modulo the side and its column
//! is its index divided by the side.

use vstd::prelude::*;
use vstd::arithmetic::power2::is_pow2;

verus! {

/// Distance between neighbouring grid slots.
pub const PART_SPACING: i32 = 300;

/// The most parts a circuit can hold. Every part identity then fits the
/// 32-bit index of a connection record and every coordinate fits an `i32`.
pub const MAX_PARTS: usize = 0xFFFF_FFFF;

/// The smallest power of two that is at least `n`; 1 for `n == 0`.
pub open spec fn next_power_of_two(n: nat) -> nat
    decreases n,
{
    if n <= 1 {
        1
    } else {
        2 * next_power_of_two((n + 1) / 2)
    }
}

/// `g` is the integer part of the square root of `m`.
pub open spec fn is_floor_sqrt(g: nat, m: nat) -> bool {
    g * g <= m < (g + 1) * (g + 1)
}

/// The integer part of the square root of `m`.
pub open spec fn floor_sqrt(m: nat) -> nat {
    choose|g: nat| is_floor_sqrt(g, m)
}

/// The side of the grid that holds `n` parts.
pub open spec fn grid_side(n: nat) -> nat {
    floor_sqrt(next_power_of_two(n))
}

/// Horizontal coordinate of part `i` on a grid of side `g`.
pub open spec fn grid_x(i: nat, g: nat) -> int {
    (i % g) * PART_SPACING
}

/// Vertical coordinate of part `i` on a grid of side `g`. Columns grow
/// downwards in the model and upwards on screen, hence the sign.
pub open spec fn grid_y(i: nat, g: nat) -> int {
    -((i / g) * PART_SPACING)
}

/// Where part `i` sits in a circuit of `n` parts.
pub open spec fn grid_position(i: nat, n: nat) -> (int, int) {
    (grid_x(i, grid_side(n)), grid_y(i, grid_side(n)))
}

/// `next_power_of_two(n)` is a power of two and is at least `n`, and from
/// 2 on, half of it is below `n`.
pub proof fn lemma_next_power_of_two(n: nat)
    ensures
        is_pow2(next_power_of_two(n) as int),
        n <= next_power_of_two(n),
        n >= 2 ==> next_power_of_two(n) <= 2 * (n - 1),
    decreases n,
{
    reveal(is_pow2);
    if n > 1 {
        lemma_next_power_of_two((n + 1) / 2);
    }
}

/// No power of two that is at least `n` lies below `next_power_of_two(n)`.
pub proof fn lemma_next_power_of_two_least(n: nat, q: nat)
    requires
        is_pow2(q as int),
        n <= q,
    ensures
        next_power_of_two(n) <= q,
    decreases n,
{
    reveal(is_pow2);
    if n > 1 {
        lemma_next_power_of_two_least((n + 1) / 2, q / 2);
    }
}

/// There is only one integer square root.
pub proof fn lemma_floor_sqrt_unique(g: nat, m: nat)
    requires
        is_floor_sqrt(g, m),
    ensures
        floor_sqrt(m) == g,
{
    let h = floor_sqrt(m);
    assert(is_floor_sqrt(h, m));
    if h < g {
        assert((h + 1) * (h + 1) <= g * g) by (nonlinear_arith)
            requires
                h + 1 <= g,
        ;
    }
    if g < h {
        assert((g + 1) * (g + 1) <= h * h) by (nonlinear_arith)
            requires
                g + 1 <= h,
        ;
    }
}

/// Every number has an integer square root.
pub proof fn lemma_floor_sqrt_exists(m: nat)
    ensures
        is_floor_sqrt(floor_sqrt(m), m),
    decreases m,
{
    if m == 0 {
        assert(is_floor_sqrt(0, 0)) by (nonlinear_arith);
    } else {
        lemma_floor_sqrt_exists((m - 1) as nat);
        let r = floor_sqrt((m - 1) as nat);
        if (r + 1) * (r + 1) <= m {
            assert((r + 1) * (r + 1) == m);
            assert(m < (r + 2) * (r + 2)) by (nonlinear_arith)
                requires
                    (r + 1) * (r + 1) == m,
            ;
            assert(is_floor_sqrt(r + 1, m));
        } else {
            assert(is_floor_sqrt(r, m));
        }
    }
}

/// A circuit within the size limit has a grid of at most 65536 slots a side.
pub proof fn lemma_grid_side_limit(n: nat)
    requires
        n <= MAX_PARTS,
    ensures
        next_power_of_two(n) <= 0x1_0000_0000,
        grid_side(n) <= 0x1_0000,
{
    assert(is_pow2(0x1_0000_0000)) by {
        reveal_with_fuel(is_pow2, 34);
    }
    lemma_next_power_of_two_least(n, 0x1_0000_0000);
    lemma_floor_sqrt_exists(next_power_of_two(n));
    let g = grid_side(n);
    if g > 0x1_0000 {
        assert(g * g > 0x1_0000_0000) by (nonlinear_arith)
            requires
                g >= 0x1_0001,
        ;
    }
}

/// Every grid has a positive side, the square of the side does not exceed
/// the power of two it was taken from, and every part lands within
/// `side + 1` columns.
pub proof fn lemma_grid_side_bounds(n: nat)
    ensures
        1 <= grid_side(n),
        grid_side(n) * grid_side(n) <= next_power_of_two(n),
        forall|i: nat| i < n ==> #[trigger] (i / grid_side(n)) <= grid_side(n) + 1,
{
    let p = next_power_of_two(n);
    let g = grid_side(n);
    lemma_next_power_of_two(n);
    lemma_floor_sqrt_exists(p);
    assert(p >= 1) by {
        reveal(is_pow2);
    }
    if g == 0 {
        assert((g + 1) * (g + 1) == 1) by (nonlinear_arith)
            requires
                g == 0,
        ;
    }
    assert forall|i: nat| i < n implies #[trigger] (i / g) <= g + 1 by {
        assert(i + 1 < (g + 1) * (g + 1));
        assert(i / g <= g + 1) by (nonlinear_arith)
            requires
                g >= 1,
                i + 1 < (g + 1) * (g + 1),
        ;
    }
}

/// Within the size limit every part sits at coordinates that fit an `i32`:
/// to the right of or on the origin, and below or on it.
pub proof fn lemma_position_fits(i: nat, n: nat)
    requires
        i < n <= MAX_PARTS,
    ensures
        0 <= grid_position(i, n).0 <= i32::MAX,
        i32::MIN <= grid_position(i, n).1 <= 0,
{
    let g = grid_side(n);
    lemma_grid_side_bounds(n);
    lemma_grid_side_limit(n);
    assert(i / g <= g + 1);
    assert(0 <= i % g < g);
    assert(0 <= i / g);
}

/// Computes the smallest power of two that is at least `n`.
pub fn next_power_of_two_u64(n: u64) -> (p: u64)
    requires
        n <= 0x8000_0000_0000_0000,
    ensures
        p == next_power_of_two(n as nat),
    decreases n,
{
    proof {
        lemma_next_power_of_two(n as nat);
    }
    if n <= 1 {
        1
    } else {
        let half: u64 = (n - 1) / 2 + 1;
        assert(half == (n + 1) / 2);
        proof {
            lemma_next_power_of_two(half as nat);
        }
        2 * next_power_of_two_u64(half)
    }
}

/// Computes the integer part of the square root of `m`.
pub fn floor_sqrt_u64(m: u64) -> (g: u64)
    ensures
        g == floor_sqrt(m as nat),
        g <= 0xFFFF_FFFF,
{
    let mut low: u64 = 0;
    let mut high: u64 = 0x1_0000_0000;
    while high - low > 1
        invariant
            low < high <= 0x1_0000_0000,
            low * low <= m < high * high,
        decreases high - low,
    {
        let mid: u64 = low + (high - low) / 2;
        assert(mid * mid <= 0xFFFF_FFFF * 0xFFFF_FFFF) by (nonlinear_arith)
            requires
                mid <= 0xFFFF_FFFF,
        ;
        if mid * mid <= m {
            low = mid;
        } else {
            high = mid;
        }
    }
    proof {
        lemma_floor_sqrt_unique(low as nat, m as nat);
    }
    low
}

/// Computes the side of the grid that holds `n` parts.
pub fn grid_side_of(n: usize) -> (g: usize)
    requires
        n <= MAX_PARTS,
    ensures
        g == grid_side(n as nat),
        1 <= g <= 0x1_0000,
{
    let p = next_power_of_two_u64(n as u64);
    let g = floor_sqrt_u64(p);
    proof {
        lemma_grid_side_bounds(n as nat);
        lemma_grid_side_limit(n as nat);
    }
    g as usize
}

/// Computes where part `i` sits in a circuit of `n` parts whose grid has
/// side `g`.
pub fn position_on_grid(i: usize, n: usize, g: usize) -> (at: (i32, i32))
    requires
        i < n <= MAX_PARTS,
        g == grid_side(n as nat),
    ensures
        at.0 == grid_position(i as nat, n as nat).0,
        at.1 == grid_position(i as nat, n as nat).1,
{
    proof {
        lemma_grid_side_bounds(n as nat);
        lemma_grid_side_limit(n as nat);
        lemma_position_fits(i as nat, n as nat);
        assert((i as nat) / (g as nat) <= g + 1);
    }
    let row: i32 = (i % g) as i32;
    let column: i32 = (i / g) as i32;
    (row * PART_SPACING, -(column * PART_SPACING))
}

} // verus!
