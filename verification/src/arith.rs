//! Exact division of signed exponents.
//!
//! Rust's `/` and `%` on signed integers truncate toward zero, while
//! specifications use Euclidean division, so the exponent arithmetic below
//! works on absolute values (where the two definitions agree) and restores
//! the sign afterwards.  Divisibility is likewise stated with a positive
//! divisor.

use vstd::prelude::*;

verus! {

use vstd::math::abs;
use vstd::arithmetic::div_mod::lemma_fundamental_div_mod;
use vstd::arithmetic::div_mod::lemma_div_multiples_vanish;
use vstd::arithmetic::div_mod::lemma_mod_multiples_basic;

/// `d` divides `x` evenly (stated over `|d|`, so that the remainder is the
/// well-behaved one of a positive divisor).
pub open spec fn divisible_by(x: int, d: int) -> bool {
    x % (abs(d) as int) == 0
}

/// A divisible `x` is `|d|` times `|x / |d||`, with the quotient's sign given
/// by the signs of `x` and `d`.
proof fn lemma_divisible_parts(x: int, d: int)
    requires
        d != 0,
        divisible_by(x, d),
    ensures
        x == abs(d) * (x / abs(d) as int),
        abs(x) == abs(d) * abs(x / abs(d) as int),
        abs(x) as int % abs(d) as int == 0,
        abs(x) as int / abs(d) as int == abs(x / abs(d) as int),
{
    let da = abs(d) as int;
    lemma_fundamental_div_mod(x, da);
    let k = x / da;
    assert(x == da * k);
    assert(abs(x) == da * abs(k)) by (nonlinear_arith)
        requires
            x == da * k,
            da > 0,
    ;
    lemma_mod_multiples_basic(abs(k) as int, da);
    lemma_div_multiples_vanish(abs(k) as int, da);
    assert(abs(k) * da == da * abs(k)) by (nonlinear_arith);
}

/// Whether `d` divides `x` evenly, decided on absolute values.
pub(crate) fn is_divisible(x: i32, d: i32) -> (r: bool)
    requires
        d != 0,
    ensures
        r == divisible_by(x as int, d as int),
{
    let xl = x as i64;
    let dl = d as i64;
    let xa: i64 = if xl < 0 { -xl } else { xl };
    let da: i64 = if dl < 0 { -dl } else { dl };
    let rem = xa % da;
    proof {
        let dai = abs(d as int) as int;
        if divisible_by(x as int, d as int) {
            lemma_divisible_parts(x as int, d as int);
        }
        if xa % da == 0 {
            lemma_fundamental_div_mod(xa as int, dai);
            let m = xa as int / dai;
            assert(x as int == dai * m || x as int == dai * (-m)) by (nonlinear_arith)
                requires
                    xa == dai * m,
                    xa == abs(x as int),
            ;
            lemma_mod_multiples_basic(m, dai);
            lemma_mod_multiples_basic(-m, dai);
            assert(m * dai == dai * m) by (nonlinear_arith);
            assert((-m) * dai == dai * (-m)) by (nonlinear_arith);
        }
    }
    rem == 0
}

/// The exact quotient of `x` by `d`, required to divide evenly; the result
/// times `d` gives back `x`.
pub(crate) fn div_exact(x: i32, d: i32) -> (q: i32)
    requires
        d != 0,
        divisible_by(x as int, d as int),
        !(x == i32::MIN && d == -1),
    ensures
        q * d == x,
{
    proof {
        lemma_divisible_parts(x as int, d as int);
    }
    let xl = x as i64;
    let dl = d as i64;
    let xa: i64 = if xl < 0 { -xl } else { xl };
    let da: i64 = if dl < 0 { -dl } else { dl };
    let qa = xa / da;
    let q = if (xl < 0) != (dl < 0) { -qa } else { qa };
    proof {
        let dai = abs(d as int) as int;
        let k = x as int / dai;
        assert(qa == abs(k));
        assert(abs(k) <= abs(x as int)) by (nonlinear_arith)
            requires
                abs(x as int) == abs(d as int) * abs(k),
                abs(d as int) >= 1,
        ;
        assert(q * d == x) by (nonlinear_arith)
            requires
                x as int == dai * k,
                dai == abs(d as int),
                qa == abs(k),
                d != 0,
                dai == if d < 0 { -(d as int) } else { d as int },
                q == if (x < 0) != (d < 0) { -(qa as int) } else { qa as int },
                xa == abs(x as int),
                xa == if x < 0 { -(x as int) } else { x as int },
        ;
        if q > i32::MAX {
            assert(abs(d as int) == 1 && x == i32::MIN) by (nonlinear_arith)
                requires
                    q * d == x,
                    abs(q as int) <= abs(x as int),
                    abs(x as int) <= 0x8000_0000,
                    q > 0x7fff_ffff,
            ;
        }
    }
    q as i32
}

} // verus!
