//! Division that rounds down, and division that rounds up.

use vstd::arithmetic::div_mod::{lemma_fundamental_div_mod, lemma_fundamental_div_mod_converse};
use vstd::prelude::*;

verus! {

/// The quotient of `n` by `d`, rounded up, for a positive `d`.
pub open spec fn ceil(n: int, d: int) -> int {
    -((-n) / d)
}

/// A column lies at a fraction or left of it exactly if it is at most the
/// fraction rounded down.
pub proof fn lemma_floor(n: int, d: int, x: int)
    requires
        d > 0,
    ensures
        x * d <= n <==> x <= n / d,
{
    let q = n / d;
    lemma_fundamental_div_mod(n, d);
    if x <= q {
        assert(x * d <= q * d) by (nonlinear_arith)
            requires
                x <= q,
                d > 0,
        ;
    } else {
        assert(x * d >= (q + 1) * d) by (nonlinear_arith)
            requires
                x >= q + 1,
                d > 0,
        ;
        assert((q + 1) * d == q * d + d) by (nonlinear_arith);
    }
    assert(q * d == d * q) by (nonlinear_arith);
}

/// A column lies at a fraction or right of it exactly if it is at least the
/// fraction rounded up.
pub proof fn lemma_ceil(n: int, d: int, x: int)
    requires
        d > 0,
    ensures
        n <= x * d <==> ceil(n, d) <= x,
{
    lemma_floor(-n, d, -x);
    assert((-x) * d == -(x * d)) by (nonlinear_arith);
}

/// The quotient of `n` by a positive `d`, rounded down.
pub(crate) fn floor_div(n: i128, d: i128) -> (q: i128)
    requires
        d > 0,
        -0x2000_0000_0000_0000_0000_0000_0000_0000 <= n <= 0x2000_0000_0000_0000_0000_0000_0000_0000,
        d <= 0x2000_0000_0000_0000_0000_0000_0000_0000,
    ensures
        q == n as int / d as int,
        -0x2000_0000_0000_0000_0000_0000_0000_0000 <= q <= 0x2000_0000_0000_0000_0000_0000_0000_0000,
{
    if n >= 0 {
        let q = n / d;
        proof {
            lemma_floor(n as int, d as int, n as int + 1);
            assert((n + 1) * d > n) by (nonlinear_arith)
                requires
                    n >= 0,
                    d > 0,
            ;
            lemma_floor(n as int, d as int, -1);
            assert((-1) * d <= n) by (nonlinear_arith)
                requires
                    n >= 0,
                    d > 0,
            ;
        }
        q
    } else {
        let m = -n;
        let up = (m + d - 1) / d;
        proof {
            let s = (m + d - 1) % (d as int);
            lemma_fundamental_div_mod(m + d - 1, d as int);
            assert((d as int) * (up as int) == (up as int) * (d as int)) by (nonlinear_arith);
            assert((-(up as int)) * (d as int) == -((up as int) * (d as int))) by (nonlinear_arith);
            lemma_fundamental_div_mod_converse(n as int, d as int, -(up as int), d - 1 - s);
            assert(up >= 0) by (nonlinear_arith)
                requires
                    m + d - 1 >= 0,
                    d > 0,
                    up == (m + d - 1) / (d as int),
            ;
            assert(up <= m + d - 1) by (nonlinear_arith)
                requires
                    m + d - 1 >= 0,
                    d > 0,
                    up >= 0,
                    m + d - 1 == (d as int) * (up as int) + s,
                    0 <= s,
            ;
            lemma_floor(n as int, d as int, n as int);
            assert(n * d <= n) by (nonlinear_arith)
                requires
                    n < 0,
                    d > 0,
            ;
        }
        -up
    }
}

/// The quotient of `n` by a positive `d`, rounded up.
pub(crate) fn ceil_div(n: i128, d: i128) -> (q: i128)
    requires
        d > 0,
        -0x2000_0000_0000_0000_0000_0000_0000_0000 <= n <= 0x2000_0000_0000_0000_0000_0000_0000_0000,
        d <= 0x2000_0000_0000_0000_0000_0000_0000_0000,
    ensures
        q == ceil(n as int, d as int),
        -0x2000_0000_0000_0000_0000_0000_0000_0000 <= q <= 0x2000_0000_0000_0000_0000_0000_0000_0000,
{
    -floor_div(-n, d)
}

} // verus!
