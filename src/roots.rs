use vstd::prelude::*;

verus! {

/// `y <= sqrt(d)`, stated over integers.
pub open spec fn le_sqrt(y: int, d: int) -> bool {
    y <= 0 || y * y <= d
}

/// `y >= sqrt(d)`, stated over integers.
pub open spec fn ge_sqrt(y: int, d: int) -> bool {
    y >= 0 && y * y >= d
}

/// Upper bound on the values whose square roots are taken.
pub const SQRT_INPUT_LIMIT: i128 = 0x1_0000_0000_0000_0000_0000_0000;

/// Bound on the square roots of inputs below `SQRT_INPUT_LIMIT`.
pub const SQRT_LIMIT: i128 = 0x1_0000_0000_0000;

/// The integer square root: the largest `s` with `s * s <= d`.
pub fn isqrt(d: i128) -> (s: i128)
    requires
        0 <= d < SQRT_INPUT_LIMIT,
    ensures
        0 <= s <= SQRT_LIMIT,
        s * s <= d < (s + 1) * (s + 1),
{
    let mut lo: i128 = 0;
    let mut hi: i128 = SQRT_LIMIT;
    assert(SQRT_LIMIT * SQRT_LIMIT == SQRT_INPUT_LIMIT);
    while lo + 1 < hi
        invariant
            0 <= lo < hi <= SQRT_LIMIT,
            lo * lo <= d < hi * hi,
        decreases hi - lo,
    {
        let mid: i128 = lo + (hi - lo) / 2;
        assert(mid * mid <= SQRT_LIMIT * SQRT_LIMIT) by (nonlinear_arith)
            requires 0 <= mid <= SQRT_LIMIT;
        if mid * mid <= d {
            lo = mid;
        } else {
            hi = mid;
        }
    }
    lo
}

/// For the integer square root `s` of `d`, `y <= sqrt(d)` exactly when `y <= s`.
pub proof fn lemma_le_sqrt(y: int, d: int, s: int)
    requires
        0 <= s,
        s * s <= d < (s + 1) * (s + 1),
    ensures
        le_sqrt(y, d) <==> y <= s,
{
    if y > s {
        assert(y * y >= (s + 1) * (s + 1)) by (nonlinear_arith)
            requires y >= s + 1, s >= 0;
    } else if y > 0 {
        assert(y * y <= s * s) by (nonlinear_arith)
            requires 0 < y <= s;
    }
}

/// For `c`, the least non-negative integer whose square is at least `d`,
/// `y >= sqrt(d)` exactly when `y >= c`.
pub proof fn lemma_ge_sqrt(y: int, d: int, c: int)
    requires
        0 <= c,
        0 <= d,
        c * c >= d,
        c == 0 || (c - 1) * (c - 1) < d,
    ensures
        ge_sqrt(y, d) <==> y >= c,
{
    if y >= c {
        assert(y * y >= c * c) by (nonlinear_arith)
            requires y >= c, c >= 0;
    } else if y >= 0 {
        assert(y * y <= (c - 1) * (c - 1)) by (nonlinear_arith)
            requires 0 <= y <= c - 1;
    }
}

/// The ceiling of the square root: the least `c >= 0` with `c * c >= d`.
pub fn ceil_sqrt(d: i128) -> (c: i128)
    requires
        0 <= d < SQRT_INPUT_LIMIT,
    ensures
        0 <= c <= SQRT_LIMIT + 1,
        c * c >= d,
        c == 0 || (c - 1) * (c - 1) < d,
        forall|y: int| ge_sqrt(y, d as int) <==> y >= c,
{
    let s = isqrt(d);
    let c = if s * s == d { s } else { s + 1 };
    if c > 0 && c == s {
        assert((c - 1) * (c - 1) < c * c) by (nonlinear_arith)
            requires c > 0;
    }
    assert forall|y: int| ge_sqrt(y, d as int) <==> y >= c by {
        lemma_ge_sqrt(y, d as int, c as int);
    }
    c
}

/// Division rounded toward negative infinity.
pub fn floor_div(n: i128, d: i128) -> (q: i128)
    requires
        d > 0,
        n > i128::MIN,
    ensures
        q == n / d,
{
    if n >= 0 {
        n / d
    } else {
        let m: i128 = -n;
        let k: i128 = (m - 1) / d;
        proof {
            let mi = m as int - 1;
            vstd::arithmetic::div_mod::lemma_fundamental_div_mod(mi, d as int);
            vstd::arithmetic::div_mod::lemma_mod_bound(mi, d as int);
            let r0 = mi % (d as int);
            assert(n as int == (-(k as int) - 1) * (d as int) + ((d as int) - r0 - 1)) by (nonlinear_arith)
                requires
                    mi == (d as int) * (k as int) + r0,
                    mi == -(n as int) - 1,
            ;
            vstd::arithmetic::div_mod::lemma_fundamental_div_mod_converse(
                n as int,
                d as int,
                -(k as int) - 1,
                (d as int) - r0 - 1,
            );
        }
        -k - 1
    }
}

} // verus!
