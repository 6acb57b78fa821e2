//! Divisibility and greatest common divisors over the natural numbers.
use vstd::arithmetic::div_mod::{
    lemma_add_mod_noop, lemma_fundamental_div_mod, lemma_mod_self_0, lemma_mul_mod_noop_left,
    lemma_small_mod,
};
use vstd::prelude::*;

verus! {

/// `d` divides `n`. Zero divides only zero.
pub open spec fn divides(d: nat, n: nat) -> bool {
    if d == 0 {
        n == 0
    } else {
        n % d == 0
    }
}

/// `g` is the greatest common divisor of `a` and `b`: it divides both, and
/// every common divisor divides it. With this reading the greatest common
/// divisor of zero and zero is zero.
pub open spec fn is_gcd(g: nat, a: nat, b: nat) -> bool {
    &&& divides(g, a)
    &&& divides(g, b)
    &&& forall|d: nat|
        #![trigger divides(d, a)]
        #![trigger divides(d, b)]
        #![trigger divides(d, g)]
        divides(d, a) && divides(d, b) ==> divides(d, g)
}

/// The greatest common divisor of `a` and `b`.
pub open spec fn gcd(a: nat, b: nat) -> nat {
    choose|g: nat| is_gcd(g, a, b)
}

/// `a` and `b` have no common divisor but one.
pub open spec fn coprime(a: nat, b: nat) -> bool {
    is_gcd(1, a, b)
}

/// The last divisor that is not zero in Euclid's algorithm on `a` and `b`.
spec fn last_divisor(a: nat, b: nat) -> nat
    decreases b,
{
    if b == 0 {
        a
    } else {
        last_divisor(b, a % b)
    }
}

/// A divisor of `b` divides `a` exactly when it divides the remainder of `a`
/// by `b`.
pub proof fn lemma_divides_remainder(d: nat, a: nat, b: nat)
    requires
        b > 0,
        divides(d, b),
    ensures
        divides(d, a) <==> divides(d, a % b),
{
    if d > 0 {
        let q = (a / b) as int;
        let r = (a % b) as int;
        lemma_fundamental_div_mod(a as int, b as int);
        assert(a as int == b * q + r);
        lemma_mul_mod_noop_left(b as int, q, d as int);
        assert((b * q) % (d as int) == 0) by {
            assert(((b as int) % (d as int)) * q == 0) by (nonlinear_arith)
                requires
                    (b as int) % (d as int) == 0,
            ;
            lemma_small_mod(0, d);
        }
        lemma_add_mod_noop(b * q, r, d as int);
        assert(r % (d as int) < d as int);
        lemma_small_mod((r % (d as int)) as nat, d);
    }
}

/// Replacing the dividend by its remainder keeps the greatest common divisor.
pub proof fn lemma_gcd_of_remainder(g: nat, a: nat, b: nat)
    requires
        b > 0,
        is_gcd(g, b, a % b),
    ensures
        is_gcd(g, a, b),
{
    lemma_divides_remainder(g, a, b);
    assert forall|d: nat| divides(d, a) && divides(d, b) implies divides(d, g) by {
        lemma_divides_remainder(d, a, b);
    }
}

/// Every number is the greatest common divisor of itself and zero.
pub proof fn lemma_gcd_with_zero(a: nat)
    ensures
        is_gcd(a, a, 0),
        is_gcd(a, 0, a),
{
    if a > 0 {
        lemma_mod_self_0(a as int);
    }
}

/// One is the greatest common divisor of one and anything.
pub proof fn lemma_gcd_with_one(a: nat)
    ensures
        is_gcd(1, a, 1),
        is_gcd(1, 1, a),
{
}

/// The order of the two numbers does not matter.
pub proof fn lemma_gcd_symmetric(g: nat, a: nat, b: nat)
    ensures
        is_gcd(g, a, b) <==> is_gcd(g, b, a),
{
}

/// Euclid's algorithm ends on the greatest common divisor.
proof fn lemma_last_divisor_is_gcd(a: nat, b: nat)
    ensures
        is_gcd(last_divisor(a, b), a, b),
    decreases b,
{
    if b == 0 {
        lemma_gcd_with_zero(a);
    } else {
        lemma_last_divisor_is_gcd(b, a % b);
        lemma_gcd_of_remainder(last_divisor(b, a % b), a, b);
    }
}

/// A positive number is at least as large as each of its divisors.
pub proof fn lemma_divisor_bound(d: nat, n: nat)
    requires
        n > 0,
        divides(d, n),
    ensures
        0 < d <= n,
{
    if d > n {
        lemma_small_mod(n, d);
    }
}

/// Two numbers have one greatest common divisor and no other.
pub proof fn lemma_gcd_unique(g: nat, h: nat, a: nat, b: nat)
    requires
        is_gcd(g, a, b),
        is_gcd(h, a, b),
    ensures
        g == h,
{
    assert(divides(g, h));
    assert(divides(h, g));
    if g > 0 && h > 0 {
        lemma_divisor_bound(g, h);
        lemma_divisor_bound(h, g);
    }
}

/// `gcd(a, b)` is the greatest common divisor of `a` and `b`, and the only
/// one.
pub proof fn lemma_gcd_characterised(a: nat, b: nat)
    ensures
        is_gcd(gcd(a, b), a, b),
        forall|g: nat| is_gcd(g, a, b) ==> g == gcd(a, b),
{
    lemma_last_divisor_is_gcd(a, b);
    assert forall|g: nat| is_gcd(g, a, b) implies g == gcd(a, b) by {
        lemma_gcd_unique(g, gcd(a, b), a, b);
    }
}

} // verus!
