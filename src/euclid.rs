//! The Euclidean algorithm on `u64`, proved against the mathematical
//! definition of a greatest common divisor.
use vstd::arithmetic::div_mod::{
    lemma_fundamental_div_mod,
    lemma_mod_multiples_vanish,
    lemma_mod_self_0,
    lemma_small_mod,
};
use vstd::prelude::*;

verus! {

/// `d` is a positive number that divides `a` without remainder.
pub open spec fn divides(d: nat, a: nat) -> bool {
    d > 0 && a % d == 0
}

/// `g` divides both `a` and `b`, and no common divisor of the two is larger.
pub open spec fn is_gcd(g: nat, a: nat, b: nat) -> bool {
    &&& divides(g, a)
    &&& divides(g, b)
    &&& forall|d: nat| divides(d, a) && divides(d, b) ==> d <= g
}

/// Euclid's recurrence: `gcd(a, 0) = a`, `gcd(a, b) = gcd(b, a mod b)`.
pub open spec fn gcd_of(a: nat, b: nat) -> nat
    decreases b,
{
    if b == 0 {
        a
    } else {
        gcd_of(b, a % b)
    }
}

/// A positive divisor of a positive number is at most that number.
proof fn lemma_divisor_le(d: nat, a: nat)
    requires
        divides(d, a),
        a > 0,
    ensures
        d <= a,
{
    if d > a {
        lemma_small_mod(a, d);
    }
}

/// Where `d` divides `b`, it leaves the same remainder on `a` as on `a mod b`.
proof fn lemma_mod_through_divisor(a: nat, b: nat, d: nat)
    requires
        b > 0,
        divides(d, b),
    ensures
        a % d == (a % b) % d,
{
    let q = (a / b) as int;
    let k = (b / d) as int;
    let r = (a % b) as int;
    lemma_fundamental_div_mod(a as int, b as int);
    lemma_fundamental_div_mod(b as int, d as int);
    assert(b * q == d * (k * q)) by (nonlinear_arith)
        requires
            b == d * k,
    ;
    lemma_mod_multiples_vanish(k * q, r, d as int);
}

/// The recurrence computes a greatest common divisor whenever one of the
/// two numbers is positive.
pub proof fn lemma_gcd_is_gcd(a: nat, b: nat)
    requires
        a > 0 || b > 0,
    ensures
        is_gcd(gcd_of(a, b), a, b),
    decreases b,
{
    if b == 0 {
        lemma_mod_self_0(a as int);
        assert forall|d: nat| divides(d, a) && divides(d, b) implies d <= a by {
            lemma_divisor_le(d, a);
        }
    } else {
        let g = gcd_of(a, b);
        lemma_gcd_is_gcd(b, a % b);
        lemma_mod_through_divisor(a, b, g);
        assert forall|d: nat| divides(d, a) && divides(d, b) implies d <= g by {
            lemma_mod_through_divisor(a, b, d);
        }
    }
}

/// Two greatest common divisors of the same pair are equal.
proof fn lemma_gcd_unique(g1: nat, g2: nat, a: nat, b: nat)
    requires
        is_gcd(g1, a, b),
        is_gcd(g2, a, b),
    ensures
        g1 == g2,
{
    assert(g2 <= g1);
    assert(g1 <= g2);
}

/// The greatest common divisor does not depend on the order of its operands.
pub proof fn lemma_gcd_commutative(a: nat, b: nat)
    ensures
        gcd_of(a, b) == gcd_of(b, a),
{
    if a == 0 && b == 0 {
    } else {
        lemma_gcd_is_gcd(a, b);
        lemma_gcd_is_gcd(b, a);
        lemma_gcd_unique(gcd_of(a, b), gcd_of(b, a), a, b);
    }
}

/// The greatest common divisor of a positive number with itself is that number.
pub proof fn lemma_gcd_self(a: nat)
    requires
        a > 0,
    ensures
        gcd_of(a, a) == a,
{
    lemma_mod_self_0(a as int);
    assert(gcd_of(a, 0) == a);
}

/// The greatest common divisor of two positive numbers divides both, and
/// every common divisor of the two is at most as large.
pub proof fn lemma_gcd_greatest_common_divisor(a: nat, b: nat)
    requires
        a > 0,
        b > 0,
    ensures
        divides(gcd_of(a, b), a),
        divides(gcd_of(a, b), b),
        forall|d: nat| divides(d, a) && divides(d, b) ==> d <= gcd_of(a, b),
{
    lemma_gcd_is_gcd(a, b);
}

/// The greatest common divisor of two nonzero numbers, by repeatedly
/// reducing the larger modulo the smaller.
pub fn gcd(n: u64, m: u64) -> (g: u64)
    requires
        n != 0,
        m != 0,
    ensures
        g == gcd_of(n as nat, m as nat),
        is_gcd(g as nat, n as nat, m as nat),
        0 < g <= n,
        g <= m,
{
    let ghost a = n as nat;
    let ghost b = m as nat;
    let mut n = n;
    let mut m = m;
    while m != 0
        invariant
            n > 0,
            gcd_of(n as nat, m as nat) == gcd_of(a, b),
        decreases n + m,
    {
        if m < n {
            proof {
                lemma_gcd_commutative(n as nat, m as nat);
            }
            let t = m;
            m = n;
            n = t;
        }
        proof {
            lemma_gcd_commutative(n as nat, m as nat);
        }
        m = m % n;
    }
    proof {
        lemma_gcd_is_gcd(a, b);
        lemma_divisor_le(n as nat, a);
        lemma_divisor_le(n as nat, b);
    }
    n
}

} // verus!
