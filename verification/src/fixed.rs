//! Fixed-point arithmetic: the scale, division that rounds towards zero,
//! and the integer square root.

use vstd::prelude::*;

verus! {

/// A stored integer `n` stands for the quantity `n / SCALE`.
pub const SCALE: i64 = 1000;

/// The distance from zero, `|a|`.
pub open spec fn magnitude(a: int) -> int {
    if a >= 0 {
        a
    } else {
        -a
    }
}

/// The quotient `a / b` rounded towards zero, for a positive divisor.
pub open spec fn trunc_div(a: int, b: int) -> int
    recommends
        b > 0,
{
    if a >= 0 {
        a / b
    } else {
        -((-a) / b)
    }
}

/// `value` moved to the nearest point of `[-limit, limit]`.
pub open spec fn clamp(value: int, limit: int) -> int
    recommends
        limit >= 0,
{
    if value > limit {
        limit
    } else if value < -limit {
        -limit
    } else {
        value
    }
}

/// Whether `root` is the largest integer whose square does not exceed `n`.
pub open spec fn is_sqrt_of(root: int, n: int) -> bool {
    &&& 0 <= root
    &&& root * root <= n
    &&& n < (root + 1) * (root + 1)
}

/// The integer square root: the largest `r` with `r * r <= n`.
pub open spec fn isqrt(n: nat) -> nat
    decreases n,
{
    if n == 0 {
        0
    } else {
        let below = isqrt((n - 1) as nat);
        if (below + 1) * (below + 1) <= n {
            below + 1
        } else {
            below
        }
    }
}

/// Rounding towards zero treats a quantity and its opposite alike.
pub proof fn lemma_trunc_div_odd(a: int, b: int)
    requires
        b > 0,
    ensures
        trunc_div(-a, b) == -trunc_div(a, b),
{
    if a == 0 {
        assert(0int / b == 0) by (nonlinear_arith)
            requires
                b > 0,
        ;
    }
}

/// A quotient is no larger than what the dividend allows.
pub proof fn lemma_trunc_div_bound(a: int, b: int, q: int)
    requires
        b > 0,
        magnitude(a) <= q * b,
    ensures
        magnitude(trunc_div(a, b)) <= q,
        magnitude(trunc_div(a, b)) <= magnitude(a),
{
    let m = magnitude(a);
    assert(0 <= m / b <= q && m / b <= m) by (nonlinear_arith)
        requires
            b > 0,
            0 <= m <= q * b,
    ;
}

/// A dividend of at least `q * b` gives a quotient of at least `q`.
pub proof fn lemma_trunc_div_at_least(a: int, b: int, q: int)
    requires
        b > 0,
        q >= 0,
        a >= q * b,
    ensures
        trunc_div(a, b) >= q,
{
    assert(a >= 0) by (nonlinear_arith)
        requires
            b > 0,
            q >= 0,
            a >= q * b,
    ;
    assert(a / b >= q) by (nonlinear_arith)
        requires
            b > 0,
            a >= q * b,
    ;
}

/// Dividing zero gives zero.
pub proof fn lemma_trunc_div_zero(b: int)
    requires
        b > 0,
    ensures
        trunc_div(0, b) == 0,
{
    assert(0int / b == 0) by (nonlinear_arith)
        requires
            b > 0,
    ;
}

/// A common positive factor of dividend and divisor can be dropped.
pub proof fn lemma_trunc_div_cancel(a: int, b: int, c: int)
    requires
        b > 0,
        c > 0,
    ensures
        trunc_div(a * c, b * c) == trunc_div(a, b),
{
    assert(b * c > 0) by (nonlinear_arith)
        requires
            b > 0,
            c > 0,
    ;
    if a >= 0 {
        assert(a * c >= 0) by (nonlinear_arith)
            requires
                a >= 0,
                c > 0,
        ;
        vstd::arithmetic::div_mod::lemma_div_multiples_vanish_quotient(c, a, b);
        assert(c * a == a * c && c * b == b * c) by (nonlinear_arith);
    } else {
        assert(a * c < 0 && -(a * c) == (-a) * c) by (nonlinear_arith)
            requires
                a < 0,
                c > 0,
        ;
        vstd::arithmetic::div_mod::lemma_div_multiples_vanish_quotient(c, -a, b);
        assert(c * (-a) == (-a) * c && c * b == b * c) by (nonlinear_arith);
    }
}

/// `isqrt` is the integer square root.
pub proof fn lemma_isqrt(n: nat)
    ensures
        is_sqrt_of(isqrt(n) as int, n as int),
    decreases n,
{
    if n > 0 {
        lemma_isqrt((n - 1) as nat);
        let below = isqrt((n - 1) as nat) as int;
        if (below + 1) * (below + 1) <= n {
            assert(n < (below + 2) * (below + 2)) by (nonlinear_arith)
                requires
                    n - 1 < (below + 1) * (below + 1),
                    below >= 0,
            ;
        }
    }
}

/// A number has one integer square root only.
pub proof fn lemma_sqrt_unique(a: int, b: int, n: int)
    requires
        is_sqrt_of(a, n),
        is_sqrt_of(b, n),
    ensures
        a == b,
{
    if a < b {
        assert((a + 1) * (a + 1) <= b * b) by (nonlinear_arith)
            requires
                0 <= a,
                a + 1 <= b,
        ;
    } else if b < a {
        assert((b + 1) * (b + 1) <= a * a) by (nonlinear_arith)
            requires
                0 <= b,
                b + 1 <= a,
        ;
    }
}

/// A number that squares to at most `n` is at most the square root of `n`.
pub proof fn lemma_isqrt_at_least(side: int, n: nat)
    requires
        0 <= side,
        side * side <= n,
    ensures
        side <= isqrt(n),
{
    lemma_isqrt(n);
    let root = isqrt(n) as int;
    if root < side {
        assert((root + 1) * (root + 1) <= side * side) by (nonlinear_arith)
            requires
                0 <= root,
                root + 1 <= side,
        ;
    }
}

/// The square root of a number below `bound * bound` is below `bound`.
pub proof fn lemma_isqrt_below(bound: int, n: nat)
    requires
        0 <= bound,
        n < bound * bound,
    ensures
        isqrt(n) < bound,
{
    lemma_isqrt(n);
    let root = isqrt(n) as int;
    if root >= bound {
        assert(bound * bound <= root * root) by (nonlinear_arith)
            requires
                0 <= bound <= root,
        ;
    }
}

/// The square root of a perfect square.
pub proof fn lemma_isqrt_of_square(side: nat)
    ensures
        isqrt(side * side) == side,
{
    lemma_isqrt(side * side);
    assert(is_sqrt_of(side as int, (side * side) as int)) by (nonlinear_arith);
    lemma_sqrt_unique(side as int, isqrt(side * side) as int, (side * side) as int);
}

/// Computes the integer square root by bisection.
pub fn integer_sqrt(n: u128) -> (root: u128)
    ensures
        root == isqrt(n as nat),
        root <= u64::MAX,
{
    let mut low: u128 = 0;
    let mut high: u128 = 0x1_0000_0000_0000_0000;
    assert(n < high * high) by (nonlinear_arith)
        requires
            n <= u128::MAX,
            high == 0x1_0000_0000_0000_0000,
    ;
    while high - low > 1
        invariant
            low < high <= 0x1_0000_0000_0000_0000,
            low * low <= n,
            n < high * high,
        decreases high - low,
    {
        let middle = low + (high - low) / 2;
        assert(middle * middle <= u128::MAX) by (nonlinear_arith)
            requires
                0 <= middle < 0x1_0000_0000_0000_0000,
        ;
        if middle * middle <= n {
            low = middle;
        } else {
            high = middle;
        }
    }
    proof {
        lemma_isqrt(n as nat);
        lemma_sqrt_unique(low as int, isqrt(n as nat) as int, n as int);
    }
    low
}

} // verus!
