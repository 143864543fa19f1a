//! The mathematical side of the sieve: divisibility, primality, and the
//! handful of number-theoretic facts the generator's proof rests on.

use vstd::prelude::*;
use vstd::arithmetic::div_mod::{lemma_fundamental_div_mod, lemma_mod_multiples_basic};

verus! {

/// `d` evenly divides `n`.
pub open spec fn divides(d: int, n: int) -> bool {
    n % d == 0
}

/// A number is prime when it is at least 2 and nothing between 2 and itself
/// divides it evenly.
pub open spec fn is_prime(n: int) -> bool {
    n >= 2 && forall|d: int| 2 <= d < n ==> !(#[trigger] divides(d, n))
}

/// Divisibility is transitive: a divisor of a divisor of `c` divides `c`.
proof fn lemma_divides_transitive(e: int, d: int, c: int)
    requires
        e > 0,
        d > 0,
        divides(e, d),
        divides(d, c),
    ensures
        divides(e, c),
{
    lemma_fundamental_div_mod(c, d);
    lemma_fundamental_div_mod(d, e);
    let a = c / d;
    let b = d / e;
    assert(c == (b * a) * e) by (nonlinear_arith)
        requires
            c == d * a,
            d == e * b,
    ;
    lemma_mod_multiples_basic(b * a, e);
}

/// Walking down from any proper divisor of `c` reaches a prime divisor whose
/// square does not exceed `c`.
proof fn lemma_divisor_shrinks_to_prime(c: int, d: int)
    requires
        2 <= d < c,
        divides(d, c),
    ensures
        exists|q: int| is_prime(q) && divides(q, c) && #[trigger] (q * q) <= c,
    decreases d,
{
    if d * d <= c {
        if is_prime(d) {
            assert(is_prime(d) && divides(d, c) && d * d <= c);
        } else {
            let e = choose|e: int| 2 <= e < d && divides(e, d);
            lemma_divides_transitive(e, d, c);
            lemma_divisor_shrinks_to_prime(c, e);
        }
    } else {
        lemma_fundamental_div_mod(c, d);
        let k = c / d;
        assert(c == d * k);
        assert(2 <= k && k < d) by (nonlinear_arith)
            requires
                c == d * k,
                2 <= d < c,
                d * d > c,
        ;
        lemma_mod_multiples_basic(d, k);
        assert(divides(k, c));
        lemma_divisor_shrinks_to_prime(c, k);
    }
}

/// Every composite number has a prime factor whose square does not exceed it.
/// This is why trial division may stop at the square root of the candidate.
pub proof fn lemma_composite_has_small_prime_factor(c: int)
    requires
        c >= 2,
        !is_prime(c),
    ensures
        exists|q: int| is_prime(q) && divides(q, c) && #[trigger] (q * q) <= c,
{
    let d = choose|d: int| 2 <= d < c && divides(d, c);
    lemma_divisor_shrinks_to_prime(c, d);
}

/// An even number of at least 4 is composite.
pub proof fn lemma_even_not_prime(n: int)
    requires
        4 <= n,
        n % 2 == 0,
    ensures
        !is_prime(n),
{
    assert(divides(2, n));
}

/// No multiple of `p` lies strictly between two adjacent multiples of `p`.
pub proof fn lemma_no_multiple_strictly_between(p: int, m: int, c: int)
    requires
        2 <= p,
        divides(p, m),
        m - p < c < m,
    ensures
        !divides(p, c),
{
    if divides(p, c) {
        lemma_fundamental_div_mod(m, p);
        lemma_fundamental_div_mod(c, p);
        let a = m / p;
        let b = c / p;
        assert(false) by (nonlinear_arith)
            requires
                m == p * a,
                c == p * b,
                m - p < c < m,
                p >= 2,
        ;
    }
}

/// Once the cursor of a prime sits below `c` and cannot step again without
/// leaving `[0, max]`, that prime divides nothing in `[c, max]`.
pub proof fn lemma_retired_prime_excluded(p: int, m: int, c: int, max: int)
    requires
        2 <= p,
        divides(p, m),
        m < c <= max,
        m + p > max,
    ensures
        !divides(p, c),
{
    if divides(p, c) {
        lemma_fundamental_div_mod(m, p);
        lemma_fundamental_div_mod(c, p);
        let a = m / p;
        let b = c / p;
        assert(false) by (nonlinear_arith)
            requires
                m == p * a,
                c == p * b,
                m < c <= max,
                m + p > max,
                p >= 2,
        ;
    }
}

/// Primality of the first few primes, and compositeness of the odd
/// non-primes the front of the sequence steps over.
pub proof fn lemma_small_primes()
    ensures
        is_prime(2),
        is_prime(3),
        is_prime(5),
        is_prime(7),
        is_prime(11),
        !is_prime(9),
        !is_prime(10),
{
    assert forall|d: int| 2 <= d < 3 implies !divides(d, 3) by {
        assert(d == 2);
        assert(3int % 2 == 1);
    }
    assert forall|d: int| 2 <= d < 5 implies !divides(d, 5) by {
        if d == 2 {
            assert(5int % 2 == 1);
        } else if d == 3 {
            assert(5int % 3 == 2);
        } else {
            assert(d == 4);
            assert(5int % 4 == 1);
        }
    }
    assert forall|d: int| 2 <= d < 7 implies !divides(d, 7) by {
        if d == 2 {
            assert(7int % 2 == 1);
        } else if d == 3 {
            assert(7int % 3 == 1);
        } else if d == 4 {
            assert(7int % 4 == 3);
        } else if d == 5 {
            assert(7int % 5 == 2);
        } else {
            assert(d == 6);
            assert(7int % 6 == 1);
        }
    }
    assert forall|d: int| 2 <= d < 11 implies !divides(d, 11) by {
        if d == 2 {
            assert(11int % 2 == 1);
        } else if d == 3 {
            assert(11int % 3 == 2);
        } else if d == 4 {
            assert(11int % 4 == 3);
        } else if d == 5 {
            assert(11int % 5 == 1);
        } else if d == 6 {
            assert(11int % 6 == 5);
        } else if d == 7 {
            assert(11int % 7 == 4);
        } else if d == 8 {
            assert(11int % 8 == 3);
        } else if d == 9 {
            assert(11int % 9 == 2);
        } else {
            assert(d == 10);
            assert(11int % 10 == 1);
        }
    }
    assert(divides(3, 9));
    assert(divides(2, 10));
}

/// 251 is prime, and nothing above it fits in eight unsigned bits and is prime:
/// 251 is the largest prime not exceeding 255.
pub proof fn lemma_byte_boundary()
    ensures
        is_prime(251),
        forall|q: int| 251 < q <= 255 ==> !is_prime(q),
{
    if !is_prime(251) {
        lemma_composite_has_small_prime_factor(251);
        let q = choose|q: int| is_prime(q) && divides(q, 251) && q * q <= 251;
        assert(q <= 15) by (nonlinear_arith)
            requires
                q * q <= 251,
                q >= 2,
        ;
        if q == 2 {
            assert(251int % 2 == 1);
        } else if q == 3 {
            assert(251int % 3 == 2);
        } else if q == 4 {
            assert(251int % 4 == 3);
        } else if q == 5 {
            assert(251int % 5 == 1);
        } else if q == 6 {
            assert(251int % 6 == 5);
        } else if q == 7 {
            assert(251int % 7 == 6);
        } else if q == 8 {
            assert(251int % 8 == 3);
        } else if q == 9 {
            assert(251int % 9 == 8);
        } else if q == 10 {
            assert(251int % 10 == 1);
        } else if q == 11 {
            assert(251int % 11 == 9);
        } else if q == 12 {
            assert(251int % 12 == 11);
        } else if q == 13 {
            assert(251int % 13 == 4);
        } else if q == 14 {
            assert(251int % 14 == 13);
        } else {
            assert(q == 15);
            assert(251int % 15 == 11);
        }
    }
    assert(divides(2, 252));
    assert(divides(11, 253));
    assert(divides(2, 254));
    assert(divides(5, 255));
    assert forall|q: int| 251 < q <= 255 implies !is_prime(q) by {
        if q == 252 {
        } else if q == 253 {
            assert(2 <= 11 < 253);
        } else if q == 254 {
        } else {
            assert(q == 255);
            assert(2 <= 5 < 255);
        }
    }
}

} // verus!
