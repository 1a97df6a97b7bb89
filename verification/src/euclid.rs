//! Euclid's algorithm for the greatest common divisor.

use vstd::arithmetic::div_mod::lemma_fundamental_div_mod;
use vstd::prelude::*;

verus! {

/// `d` divides `n` exactly.
pub open spec fn divides(d: int, n: int) -> bool {
    exists|k: int| n == #[trigger] (d * k)
}

/// Replacing `m` by `m % n` keeps the set of common divisors of the pair.
proof fn lemma_mod_preserves_common_divisors(d: int, n: int, m: int)
    requires
        n > 0,
        d > 0,
        divides(d, n),
    ensures
        divides(d, m) <==> divides(d, m % n),
{
    lemma_fundamental_div_mod(m, n);
    let q = m / n;
    let k1 = choose|k: int| n == #[trigger] (d * k);
    if divides(d, m) {
        let k2 = choose|k: int| m == #[trigger] (d * k);
        assert(m % n == d * (k2 - k1 * q)) by (nonlinear_arith)
            requires
                n == d * k1,
                m == d * k2,
                m == n * q + m % n,
        ;
    }
    if divides(d, m % n) {
        let k3 = choose|k: int| m % n == #[trigger] (d * k);
        assert(m == d * (k3 + k1 * q)) by (nonlinear_arith)
            requires
                n == d * k1,
                m % n == d * k3,
                m == n * q + m % n,
        ;
    }
}

/// The greatest common divisor of two positive integers: the result
/// divides both arguments, and every common divisor divides the result.
pub fn gcd(n: u64, m: u64) -> (r: u64)
    requires
        n > 0,
        m > 0,
    ensures
        r > 0,
        divides(r as int, n as int),
        divides(r as int, m as int),
        forall|d: int|
            d > 0 && divides(d, n as int) && divides(d, m as int) ==> divides(d, r as int),
{
    let mut x = n;
    let mut y = m;
    while y != 0
        invariant
            x > 0,
            forall|d: int|
                d > 0 ==> ((divides(d, n as int) && divides(d, m as int)) <==> (divides(
                    d,
                    x as int,
                ) && divides(d, y as int))),
        decreases y,
    {
        if y < x {
            let t = y;
            y = x;
            x = t;
        }
        proof {
            assert forall|d: int| d > 0 && divides(d, x as int) implies (divides(d, y as int)
                <==> divides(d, (y as int) % (x as int))) by {
                lemma_mod_preserves_common_divisors(d, x as int, y as int);
            }
        }
        y = y % x;
    }
    proof {
        assert(divides(x as int, x as int)) by {
            assert(x as int == (x as int) * 1);
        }
        assert(divides(x as int, 0)) by {
            assert(0 == (x as int) * 0);
        }
    }
    x
}

} // verus!
