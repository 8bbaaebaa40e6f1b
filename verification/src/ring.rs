//! The laws of arithmetic modulo the field prime that the proofs about
//! transforms rest on.

use vstd::prelude::*;
use vstd::arithmetic::div_mod::*;
use vstd::arithmetic::mul::*;
use crate::field::{add_mod, inverse_mod, modulus, mul_mod, pow_mod, sub_mod};

verus! {

/// A sum is canonical.
pub proof fn lemma_add_mod_bound(a: nat, b: nat)
    ensures
        add_mod(a, b) < modulus(),
{
    lemma_mod_bound((a + b) as int, modulus() as int);
}

/// A product is canonical.
pub proof fn lemma_mul_mod_bound(a: nat, b: nat)
    ensures
        mul_mod(a, b) < modulus(),
{
    lemma_mul_nonnegative(a as int, b as int);
    lemma_mod_bound((a * b) as int, modulus() as int);
}

/// A difference is canonical.
pub proof fn lemma_sub_mod_bound(a: nat, b: nat)
    ensures
        sub_mod(a, b) < modulus(),
{
    lemma_mod_bound(a - b, modulus() as int);
}

/// A power is canonical.
pub proof fn lemma_pow_mod_bound(a: nat, e: nat)
    ensures
        pow_mod(a, e) < modulus(),
{
    if e > 0 {
        lemma_mul_mod_bound(a, pow_mod(a, (e - 1) as nat));
    }
}

/// `a + b == b + a`.
pub proof fn lemma_add_mod_comm(a: nat, b: nat)
    ensures
        add_mod(a, b) == add_mod(b, a),
{
}

/// `(a + b) + c == a + (b + c)`.
pub proof fn lemma_add_mod_assoc(a: nat, b: nat, c: nat)
    ensures
        add_mod(add_mod(a, b), c) == add_mod(a, add_mod(b, c)),
{
    let m = modulus() as int;
    lemma_add_mod_noop((a + b) as int, c as int, m);
    lemma_add_mod_noop(a as int, (b + c) as int, m);
    lemma_mod_twice((a + b) as int, m);
    lemma_mod_twice((b + c) as int, m);
    lemma_add_mod_noop(((a + b) % modulus()) as int, c as int, m);
    lemma_add_mod_noop(a as int, ((b + c) % modulus()) as int, m);
}

/// `a + 0 == a`.
pub proof fn lemma_add_mod_zero(a: nat)
    requires
        a < modulus(),
    ensures
        add_mod(a, 0) == a,
        add_mod(0, a) == a,
{
    lemma_small_mod(a, modulus());
}

/// `a * b == b * a`.
pub proof fn lemma_mul_mod_comm(a: nat, b: nat)
    ensures
        mul_mod(a, b) == mul_mod(b, a),
{
    lemma_mul_is_commutative(a as int, b as int);
}

/// `(a * b) * c == a * (b * c)`.
pub proof fn lemma_mul_mod_assoc(a: nat, b: nat, c: nat)
    ensures
        mul_mod(mul_mod(a, b), c) == mul_mod(a, mul_mod(b, c)),
{
    let m = modulus() as int;
    lemma_mul_nonnegative(a as int, b as int);
    lemma_mul_nonnegative(b as int, c as int);
    lemma_mul_mod_noop_left((a * b) as int, c as int, m);
    lemma_mul_mod_noop_right(a as int, (b * c) as int, m);
    lemma_mul_is_associative(a as int, b as int, c as int);
}

/// `a * 1 == a`.
pub proof fn lemma_mul_mod_one(a: nat)
    requires
        a < modulus(),
    ensures
        mul_mod(a, 1) == a,
        mul_mod(1, a) == a,
{
    lemma_small_mod(a, modulus());
}

/// `a * 0 == 0`.
pub proof fn lemma_mul_mod_zero(a: nat)
    ensures
        mul_mod(a, 0) == 0,
        mul_mod(0, a) == 0,
{
    assert(a * 0 == 0 && 0 * a == 0) by (nonlinear_arith);
    lemma_small_mod(0, modulus());
}

/// `a * (b + c) == a * b + a * c`.
pub proof fn lemma_mul_mod_distrib(a: nat, b: nat, c: nat)
    ensures
        mul_mod(a, add_mod(b, c)) == add_mod(mul_mod(a, b), mul_mod(a, c)),
        mul_mod(add_mod(b, c), a) == add_mod(mul_mod(b, a), mul_mod(c, a)),
{
    let m = modulus() as int;
    lemma_mul_nonnegative(a as int, b as int);
    lemma_mul_nonnegative(a as int, c as int);
    lemma_mul_mod_noop_right(a as int, (b + c) as int, m);
    lemma_mul_is_distributive_add(a as int, b as int, c as int);
    lemma_add_mod_noop((a * b) as int, (a * c) as int, m);
    lemma_mul_mod_comm(a, add_mod(b, c));
    lemma_mul_mod_comm(a, b);
    lemma_mul_mod_comm(a, c);
}

/// Subtracting is adding the difference back: `(a - b) + b == a`.
pub proof fn lemma_sub_mod_add(a: nat, b: nat)
    requires
        a < modulus(),
    ensures
        add_mod(sub_mod(a, b), b) == a,
{
    let m = modulus() as int;
    lemma_mod_bound(a - b, m);
    lemma_add_mod_noop(a - b, b as int, m);
    lemma_mod_twice(a - b, m);
    lemma_small_mod(a, modulus());
    lemma_small_mod(b % modulus(), modulus());
    lemma_mod_bound(b as int, m);
    lemma_add_mod_noop(((a - b) % m), b as int, m);
}

/// The difference is the one element that gives `a` back when `b` is added.
pub proof fn lemma_sub_mod_unique(a: nat, b: nat, d: nat)
    requires
        d < modulus(),
        add_mod(d, b) == a,
    ensures
        sub_mod(a, b) == d,
{
    let m = modulus() as int;
    // a == (d + b) % m, so a - b is congruent to d.
    lemma_sub_mod_noop((d + b) as int, b as int, m);
    lemma_sub_mod_noop(a as int, b as int, m);
    lemma_mod_twice((d + b) as int, m);
    lemma_small_mod(d, modulus());
}

/// The negative of `a`, as `0 - a`.
pub open spec fn neg_mod(a: nat) -> nat {
    sub_mod(0, a)
}

/// `a + (-a) == 0`.
pub proof fn lemma_neg_mod(a: nat)
    ensures
        neg_mod(a) < modulus(),
        add_mod(neg_mod(a), a) == 0,
        add_mod(a, neg_mod(a)) == 0,
{
    lemma_sub_mod_bound(0, a);
    lemma_sub_mod_add(0, a);
}

/// Subtracting is adding the negative.
pub proof fn lemma_sub_is_add_neg(a: nat, b: nat)
    requires
        a < modulus(),
    ensures
        sub_mod(a, b) == add_mod(a, neg_mod(b)),
{
    lemma_neg_mod(b);
    let d = add_mod(a, neg_mod(b));
    lemma_add_mod_bound(a, neg_mod(b));
    lemma_add_mod_assoc(a, neg_mod(b), b);
    lemma_add_mod_zero(a);
    lemma_sub_mod_unique(a, b, d);
}

/// Multiplying by the negative of one negates.
pub proof fn lemma_mul_neg_one(a: nat)
    requires
        a < modulus(),
    ensures
        mul_mod(a, neg_mod(1)) == neg_mod(a),
        mul_mod(neg_mod(1), a) == neg_mod(a),
{
    lemma_neg_mod(1);
    lemma_mul_mod_distrib(a, neg_mod(1), 1);
    lemma_mul_mod_zero(a);
    lemma_mul_mod_one(a);
    // a * (-1) + a == 0
    lemma_mul_mod_bound(a, neg_mod(1));
    lemma_sub_mod_unique(0, a, mul_mod(a, neg_mod(1)));
    lemma_mul_mod_comm(a, neg_mod(1));
}

/// `-1` is the modulus less one.
pub proof fn lemma_neg_one_value()
    ensures
        neg_mod(1) == modulus() - 1,
{
    lemma_small_mod((modulus() - 1) as nat, modulus());
    lemma_mod_add_multiples_vanish(-1, modulus() as int);
}

/// `a^1 == a`.
pub proof fn lemma_pow_mod_one(a: nat)
    requires
        a < modulus(),
    ensures
        pow_mod(a, 1) == a,
{
    reveal_with_fuel(pow_mod, 2);
    lemma_mul_mod_one(a);
}

/// `a^(e + 1) == a * a^e`.
pub proof fn lemma_pow_mod_succ(a: nat, e: nat)
    ensures
        pow_mod(a, e + 1) == mul_mod(a, pow_mod(a, e)),
        pow_mod(a, e + 1) == mul_mod(pow_mod(a, e), a),
{
    lemma_mul_mod_comm(a, pow_mod(a, e));
}

/// `1^e == 1`.
pub proof fn lemma_pow_mod_of_one(e: nat)
    ensures
        pow_mod(1, e) == 1,
    decreases e,
{
    if e > 0 {
        lemma_pow_mod_of_one((e - 1) as nat);
        lemma_mul_mod_one(1);
    }
}

/// `a^(x + y) == a^x * a^y`.
pub proof fn lemma_pow_mod_add(a: nat, x: nat, y: nat)
    ensures
        pow_mod(a, x + y) == mul_mod(pow_mod(a, x), pow_mod(a, y)),
    decreases x,
{
    if x == 0 {
        lemma_pow_mod_bound(a, y);
        lemma_mul_mod_one(pow_mod(a, y));
    } else {
        lemma_pow_mod_add(a, (x - 1) as nat, y);
        assert(pow_mod(a, x + y) == mul_mod(a, pow_mod(a, (x + y - 1) as nat)));
        lemma_mul_mod_assoc(a, pow_mod(a, (x - 1) as nat), pow_mod(a, y));
    }
}

/// `(a * b)^e == a^e * b^e`.
pub proof fn lemma_pow_mod_of_mul(a: nat, b: nat, e: nat)
    ensures
        pow_mod(mul_mod(a, b), e) == mul_mod(pow_mod(a, e), pow_mod(b, e)),
    decreases e,
{
    if e == 0 {
        lemma_mul_mod_one(1);
    } else {
        let e1 = (e - 1) as nat;
        lemma_pow_mod_of_mul(a, b, e1);
        let pa = pow_mod(a, e1);
        let pb = pow_mod(b, e1);
        // (a b) (pa pb) == (a pa) (b pb)
        lemma_mul_mod_four(a, b, pa, pb);
    }
}

/// `(a * b) * (c * d) == (a * c) * (b * d)`.
pub proof fn lemma_mul_mod_four(a: nat, b: nat, c: nat, d: nat)
    ensures
        mul_mod(mul_mod(a, b), mul_mod(c, d)) == mul_mod(mul_mod(a, c), mul_mod(b, d)),
{
    lemma_mul_mod_assoc(a, b, mul_mod(c, d));
    lemma_mul_mod_assoc(b, c, d);
    lemma_mul_mod_comm(b, c);
    lemma_mul_mod_assoc(c, b, d);
    lemma_mul_mod_assoc(a, c, mul_mod(b, d));
}

/// `(a^x)^y == a^(x * y)`.
pub proof fn lemma_pow_mod_mul(a: nat, x: nat, y: nat)
    ensures
        pow_mod(pow_mod(a, x), y) == pow_mod(a, x * y),
    decreases y,
{
    if y == 0 {
        assert(x * y == 0) by (nonlinear_arith)
            requires
                y == 0,
        ;
    } else {
        let y1 = (y - 1) as nat;
        lemma_pow_mod_mul(a, x, y1);
        assert(x * y == x + x * y1) by (nonlinear_arith)
            requires
                y == y1 + 1,
        ;
        lemma_pow_mod_add(a, x, x * y1);
    }
}

/// An element has at most one inverse.
pub proof fn lemma_inverse_unique(a: nat, x: nat, y: nat)
    requires
        x < modulus(),
        y < modulus(),
        mul_mod(a, x) == 1,
        mul_mod(a, y) == 1,
    ensures
        x == y,
{
    // x == x * (a * y) == (x * a) * y == y
    lemma_mul_mod_one(x);
    lemma_mul_mod_one(y);
    lemma_mul_mod_assoc(x, a, y);
    lemma_mul_mod_comm(x, a);
}

/// Whatever multiplies `a` to 1 is its inverse.
pub proof fn lemma_inverse_mod(a: nat, x: nat)
    requires
        x < modulus(),
        mul_mod(a, x) == 1,
    ensures
        inverse_mod(a) == x,
        mul_mod(a, inverse_mod(a)) == 1,
        inverse_mod(a) < modulus(),
{
    let y = inverse_mod(a);
    assert(y < modulus() && mul_mod(a, y) == 1);
    lemma_inverse_unique(a, x, y);
}

/// A positive power of zero is zero.
pub proof fn lemma_pow_mod_of_zero(e: nat)
    requires
        e > 0,
    ensures
        pow_mod(0, e) == 0,
{
    lemma_mul_mod_zero(pow_mod(0, (e - 1) as nat));
}

/// The difference of two distinct canonical values is not zero.
pub proof fn lemma_sub_mod_nonzero(a: nat, b: nat)
    requires
        a < modulus(),
        b < modulus(),
        a != b,
    ensures
        sub_mod(a, b) != 0,
{
    if sub_mod(a, b) == 0 {
        lemma_sub_mod_add(a, b);
        lemma_add_mod_zero(b);
    }
}

/// The difference of a canonical value and itself is zero.
pub proof fn lemma_sub_mod_self(a: nat)
    requires
        a < modulus(),
    ensures
        sub_mod(a, a) == 0,
{
    lemma_add_mod_zero(a);
    lemma_sub_mod_unique(a, a, 0);
}

} // verus!
