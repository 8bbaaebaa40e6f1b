//! The powers of a root of unity sum to zero, and what follows from it: the
//! inverse transform undoes the transform.

use vstd::prelude::*;
use vstd::arithmetic::div_mod::{lemma_add_mod_noop, lemma_mul_mod_noop_right, lemma_small_mod};
use vstd::arithmetic::power2::{lemma2_to64, lemma_pow2_adds, lemma_pow2_unfold, pow2};
use crate::dft::{
    dft,
    dft_at,
    inverse_dft,
    lemma_neg_one_squared,
    lemma_square_is_pow,
    primitive_root,
    reduced,
};
use crate::field::{modulus, mul_mod, pow_mod};
use crate::ring::{
    lemma_add_mod_zero,
    lemma_mul_mod_assoc,
    lemma_mul_mod_bound,
    lemma_mul_mod_comm,
    lemma_mul_mod_one,
    lemma_mul_mod_zero,
    lemma_mul_neg_one,
    lemma_neg_mod,
    lemma_pow_mod_add,
    lemma_pow_mod_bound,
    lemma_pow_mod_mul,
    lemma_pow_mod_of_mul,
    lemma_pow_mod_of_one,
    lemma_pow_mod_one,
    neg_mod,
};
use crate::sums::{
    lemma_sum_bound,
    lemma_sum_exchange,
    lemma_sum_ext,
    lemma_sum_scale,
    lemma_sum_single,
    lemma_sum_split,
    sum_mod,
};

verus! {

/// The powers `z^0, z^1, z^2, ...`.
pub open spec fn powers(z: nat) -> spec_fn(int) -> nat {
    |k: int| pow_mod(z, k as nat)
}

/// How often 2 divides `d`; 0 for `d == 0`.
pub open spec fn trailing_zeros(d: nat) -> nat
    decreases d,
{
    if d == 0 || d % 2 == 1 {
        0
    } else {
        1 + trailing_zeros(d / 2)
    }
}

/// `d` without its factors 2.
pub open spec fn odd_part(d: nat) -> nat
    decreases d,
{
    if d == 0 || d % 2 == 1 {
        d
    } else {
        odd_part(d / 2)
    }
}

/// A positive `d` below `2^l` is an odd number times a power of two below
/// `2^l`.
pub proof fn lemma_two_adic(d: nat, l: nat)
    requires
        0 < d < pow2(l),
    ensures
        d == pow2(trailing_zeros(d)) * odd_part(d),
        odd_part(d) % 2 == 1,
        trailing_zeros(d) < l,
    decreases d,
{
    lemma2_to64();
    if d % 2 == 1 {
        assert(1 * d == d);
        if l == 0 {
            assert(false);
        }
    } else {
        assert(l > 0);
        lemma_pow2_unfold(l);
        lemma_two_adic(d / 2, (l - 1) as nat);
        let t = trailing_zeros(d / 2);
        let o = odd_part(d / 2);
        lemma_pow2_unfold(t + 1);
        assert(d == (2 * pow2(t)) * o) by (nonlinear_arith)
            requires
                d == 2 * (d / 2),
                d / 2 == pow2(t) * o,
        ;
    }
}

/// An odd power of `-1` is `-1`.
pub proof fn lemma_pow_neg_one_odd(o: nat)
    requires
        o % 2 == 1,
    ensures
        pow_mod(neg_mod(1), o) == neg_mod(1),
{
    let k = o / 2;
    lemma_neg_mod(1);
    lemma_neg_one_squared();
    lemma_square_is_pow(neg_mod(1));
    lemma_pow_mod_mul(neg_mod(1), 2, k);
    lemma_pow_mod_of_one(k);
    lemma_pow_mod_add(neg_mod(1), 2 * k, 1);
    lemma_pow_mod_one(neg_mod(1));
    lemma_mul_mod_one(neg_mod(1));
}

/// Where `z^h == -1`, the first `2 * h` powers of `z` sum to zero: each
/// cancels the one `h` places on.
proof fn lemma_half_period_sum(z: nat, h: nat)
    requires
        pow_mod(z, h) == neg_mod(1),
    ensures
        sum_mod(powers(z), 2 * h) == 0,
{
    let f = powers(z);
    let s = sum_mod(f, h);
    let g = |i: int| f(h + i);
    let sg = |i: int| mul_mod(neg_mod(1), f(i));
    lemma_sum_split(f, h, h);
    assert forall|i: int| 0 <= i < h implies #[trigger] g(i) == sg(i) by {
        lemma_pow_mod_add(z, h, i as nat);
    }
    lemma_sum_ext(g, sg, h);
    lemma_sum_scale(neg_mod(1), f, h);
    lemma_sum_bound(f, h);
    lemma_mul_neg_one(s);
    lemma_neg_mod(s);
}

/// The same over any number of whole periods.
proof fn lemma_periods_sum(z: nat, h: nat, c: nat)
    requires
        pow_mod(z, h) == neg_mod(1),
    ensures
        sum_mod(powers(z), c * (2 * h)) == 0,
    decreases c,
{
    let f = powers(z);
    if c == 0 {
        assert(c * (2 * h) == 0) by (nonlinear_arith)
            requires
                c == 0,
        ;
    } else {
        let c1 = (c - 1) as nat;
        lemma_periods_sum(z, h, c1);
        let base = c1 * (2 * h);
        assert(c * (2 * h) == base + 2 * h) by (nonlinear_arith)
            requires
                c == c1 + 1,
                base == c1 * (2 * h),
        ;
        lemma_sum_split(f, base, 2 * h);
        let g = |i: int| f(base + i);
        let sg = |i: int| mul_mod(pow_mod(z, base), f(i));
        assert forall|i: int| 0 <= i < 2 * h implies #[trigger] g(i) == sg(i) by {
            lemma_pow_mod_add(z, base, i as nat);
        }
        lemma_sum_ext(g, sg, 2 * h);
        lemma_sum_scale(pow_mod(z, base), f, 2 * h);
        lemma_half_period_sum(z, h);
        lemma_mul_mod_zero(pow_mod(z, base));
        lemma_add_mod_zero(0);
    }
}

/// With `w` a generator of the `2^l`-th roots of unity and `0 < d < 2^l`,
/// the `2^l` powers of `w^d` sum to zero.
pub proof fn lemma_root_power_sum(w: nat, l: nat, d: nat)
    requires
        primitive_root(w, l),
        0 < d < pow2(l),
    ensures
        sum_mod(powers(pow_mod(w, d)), pow2(l)) == 0,
{
    lemma_two_adic(d, l);
    let t = trailing_zeros(d);
    let o = odd_part(d);
    let h = pow2((l - 1 - t) as nat);
    let half = pow2((l - 1) as nat);
    let z = pow_mod(w, d);
    lemma_pow2_adds(t, (l - 1 - t) as nat);
    lemma_pow2_adds(t, (l - t) as nat);
    lemma_pow2_unfold((l - t) as nat);
    assert(d * h == half * o) by (nonlinear_arith)
        requires
            d == pow2(t) * o,
            half == pow2(t) * h,
    ;
    lemma_pow_mod_mul(w, d, h);
    lemma_pow_mod_mul(w, half, o);
    lemma_pow_neg_one_odd(o);
    lemma_periods_sum(z, h, pow2(t));
}

/// `n` ones sum to `n`.
pub proof fn lemma_sum_ones(f: spec_fn(int) -> nat, n: nat)
    requires
        forall|k: int| 0 <= k < n ==> #[trigger] f(k) == 1,
    ensures
        sum_mod(f, n) == n % modulus(),
    decreases n,
{
    if n == 0 {
        lemma_small_mod(0, modulus());
    } else {
        lemma_sum_ones(f, (n - 1) as nat);
        lemma_add_mod_noop((n - 1) as int, 1, modulus() as int);
        lemma_small_mod(1, modulus());
    }
}

/// Orthogonality. With `w1 * w2 == 1` and `w1` and `w2` generators of the
/// `2^l`-th roots of unity, the sum over `k` of `w1^(k * j) * w2^(i * k)` is
/// `2^l` for `i == j` and zero otherwise.
pub proof fn lemma_orthogonal(w1: nat, w2: nat, l: nat, i: int, j: int)
    requires
        mul_mod(w1, w2) == 1,
        primitive_root(w1, l),
        primitive_root(w2, l),
        0 <= i < pow2(l),
        0 <= j < pow2(l),
    ensures
        sum_mod(
            |k: int| mul_mod(pow_mod(w1, (k * j) as nat), pow_mod(w2, (i * k) as nat)),
            pow2(l),
        ) == (if i == j {
            pow2(l) % modulus()
        } else {
            0
        }),
{
    let n = pow2(l);
    let f = |k: int| mul_mod(pow_mod(w1, (k * j) as nat), pow_mod(w2, (i * k) as nat));
    let lo = if i <= j { i } else { j } as nat;
    let d = if i <= j { j - i } else { i - j } as nat;
    let wd = if i <= j { w1 } else { w2 };
    let g = powers(pow_mod(wd, d));
    assert forall|k: int| 0 <= k < n implies #[trigger] f(k) == g(k) by {
        let kn = k as nat;
        assert(k * j >= 0 && i * k >= 0 && lo * kn >= 0 && d * kn >= 0) by (nonlinear_arith)
            requires
                k >= 0,
                i >= 0,
                j >= 0,
                kn == k,
        ;
        let e = (lo * kn) as nat;
        let r = (d * kn) as nat;
        // The common part of the two exponents cancels: (w1 * w2)^e == 1.
        lemma_pow_mod_of_mul(w1, w2, e);
        lemma_pow_mod_of_one(e);
        lemma_pow_mod_mul(wd, d, kn);
        lemma_pow_mod_bound(wd, r);
        lemma_mul_mod_one(pow_mod(wd, r));
        if i <= j {
            assert(k * j == r + e && i * k == e) by (nonlinear_arith)
                requires
                    r == (j - i) * k,
                    e == i * k,
            ;
            lemma_pow_mod_add(w1, r, e);
            lemma_mul_mod_assoc(pow_mod(w1, r), pow_mod(w1, e), pow_mod(w2, e));
        } else {
            assert(i * k == r + e && k * j == e) by (nonlinear_arith)
                requires
                    r == (i - j) * k,
                    e == j * k,
            ;
            lemma_pow_mod_add(w2, r, e);
            lemma_mul_mod_comm(pow_mod(w1, e), pow_mod(w2, (r + e) as nat));
            lemma_mul_mod_assoc(pow_mod(w2, r), pow_mod(w2, e), pow_mod(w1, e));
            lemma_mul_mod_comm(pow_mod(w2, e), pow_mod(w1, e));
        }
    }
    lemma_sum_ext(f, g, n);
    if i == j {
        assert forall|k: int| 0 <= k < n implies #[trigger] g(k) == 1 by {
            lemma_pow_mod_of_one(k as nat);
        }
        lemma_sum_ones(g, n);
    } else {
        lemma_root_power_sum(wd, l, d);
    }
}

/// Transforming with `w1` and then with its inverse `w2` gives every entry
/// back, multiplied by the length.
pub proof fn lemma_transform_back(a: Seq<nat>, w1: nat, w2: nat, l: nat, i: int)
    requires
        a.len() == pow2(l),
        mul_mod(w1, w2) == 1,
        primitive_root(w1, l),
        primitive_root(w2, l),
        0 <= i < a.len(),
    ensures
        dft_at(dft(a, w1), w2, i) == mul_mod(a[i], pow2(l)),
{
    let n = pow2(l);
    let x = dft(a, w1);
    let outer = |k: int| mul_mod(x[k], pow_mod(w2, (i * k) as nat));
    let f = |k: int, j: int|
        mul_mod(mul_mod(a[j], pow_mod(w1, (k * j) as nat)), pow_mod(w2, (i * k) as nat));
    let rows = |k: int| sum_mod(|j: int| f(k, j), n);
    let cols = |j: int| sum_mod(|k: int| f(k, j), n);
    let single = |j: int|
        mul_mod(a[j], if i == j {
            n % modulus()
        } else {
            0
        });
    assert forall|k: int| 0 <= k < n implies #[trigger] outer(k) == rows(k) by {
        let c = pow_mod(w2, (i * k) as nat);
        let inner = |j: int| mul_mod(a[j], pow_mod(w1, (k * j) as nat));
        let scaled = |j: int| mul_mod(c, inner(j));
        let row = |j: int| f(k, j);
        lemma_sum_scale(c, inner, n);
        lemma_mul_mod_comm(c, sum_mod(inner, n));
        assert forall|j: int| 0 <= j < n implies #[trigger] scaled(j) == row(j) by {
            lemma_mul_mod_comm(c, inner(j));
        }
        lemma_sum_ext(scaled, row, n);
        assert(x[k] == sum_mod(inner, n));
    }
    lemma_sum_ext(outer, rows, n);
    lemma_sum_exchange(f, n, n);
    assert forall|j: int| 0 <= j < n implies #[trigger] cols(j) == single(j) by {
        let orth = |k: int| mul_mod(pow_mod(w1, (k * j) as nat), pow_mod(w2, (i * k) as nat));
        let scaled = |k: int| mul_mod(a[j], orth(k));
        let col = |k: int| f(k, j);
        assert forall|k: int| 0 <= k < n implies #[trigger] col(k) == scaled(k) by {
            lemma_mul_mod_assoc(
                a[j],
                pow_mod(w1, (k * j) as nat),
                pow_mod(w2, (i * k) as nat),
            );
        }
        lemma_sum_ext(col, scaled, n);
        lemma_sum_scale(a[j], orth, n);
        lemma_orthogonal(w1, w2, l, i, j);
    }
    lemma_sum_ext(cols, single, n);
    assert forall|j: int| 0 <= j < n && j != i implies #[trigger] single(j) == 0 by {
        lemma_mul_mod_zero(a[j]);
    }
    lemma_mul_mod_bound(a[i], n % modulus());
    lemma_sum_single(single, n, i);
    vstd::arithmetic::mul::lemma_mul_nonnegative(a[i] as int, n as int);
    lemma_mul_mod_noop_right(a[i] as int, n as int, modulus() as int);
    assert(x.len() == n);
}

/// The inverse of a generator of the `2^l`-th roots of unity generates them
/// too.
pub proof fn lemma_inverse_root(w: nat, winv: nat, l: nat)
    requires
        winv < modulus(),
        mul_mod(w, winv) == 1,
        primitive_root(w, l),
    ensures
        primitive_root(winv, l),
{
    if l > 0 {
        let h = pow2((l - 1) as nat);
        lemma_pow_mod_of_mul(w, winv, h);
        lemma_pow_mod_of_one(h);
        // (-1) * winv^h == 1, so winv^h == (-1) * ((-1) * winv^h) == -1
        let x = pow_mod(winv, h);
        lemma_pow_mod_bound(winv, h);
        lemma_neg_one_squared();
        lemma_mul_mod_assoc(neg_mod(1), neg_mod(1), x);
        lemma_mul_mod_one(x);
        lemma_neg_mod(1);
        lemma_mul_mod_one(neg_mod(1));
    }
}

/// The inverse transform undoes the transform.
pub proof fn lemma_inverse_dft_of_dft(a: Seq<nat>, w: nat, winv: nat, ninv: nat, l: nat)
    requires
        reduced(a),
        a.len() == pow2(l),
        winv < modulus(),
        mul_mod(w, winv) == 1,
        mul_mod(pow2(l), ninv) == 1,
        primitive_root(w, l),
    ensures
        inverse_dft(dft(a, w), winv, ninv) == a,
{
    let n = pow2(l);
    lemma_inverse_root(w, winv, l);
    assert forall|i: int| 0 <= i < n implies inverse_dft(dft(a, w), winv, ninv)[i] == a[i] by {
        lemma_transform_back(a, w, winv, l, i);
        lemma_mul_mod_assoc(a[i], n, ninv);
        lemma_mul_mod_one(a[i]);
    }
    assert(inverse_dft(dft(a, w), winv, ninv) =~= a);
}

/// The transform undoes the inverse transform.
pub proof fn lemma_dft_of_inverse_dft(a: Seq<nat>, w: nat, winv: nat, ninv: nat, l: nat)
    requires
        reduced(a),
        a.len() == pow2(l),
        winv < modulus(),
        mul_mod(w, winv) == 1,
        mul_mod(pow2(l), ninv) == 1,
        primitive_root(w, l),
    ensures
        dft(inverse_dft(a, winv, ninv), w) == a,
{
    let n = pow2(l);
    let y = inverse_dft(a, winv, ninv);
    let x = dft(a, winv);
    lemma_inverse_root(w, winv, l);
    lemma_mul_mod_comm(w, winv);
    assert forall|i: int| 0 <= i < n implies dft(y, w)[i] == a[i] by {
        let f = |k: int| mul_mod(y[k], pow_mod(w, (i * k) as nat));
        let g = |k: int| mul_mod(x[k], pow_mod(w, (i * k) as nat));
        let sg = |k: int| mul_mod(ninv, g(k));
        assert forall|k: int| 0 <= k < n implies #[trigger] f(k) == sg(k) by {
            let p = pow_mod(w, (i * k) as nat);
            // (x * ninv) * p == ninv * (x * p)
            lemma_mul_mod_comm(x[k], ninv);
            lemma_mul_mod_assoc(ninv, x[k], p);
        }
        lemma_sum_ext(f, sg, n);
        lemma_sum_scale(ninv, g, n);
        lemma_transform_back(a, winv, w, l, i);
        // ninv * (a * n) == a * (n * ninv) == a
        lemma_mul_mod_comm(ninv, mul_mod(a[i], n));
        lemma_mul_mod_assoc(a[i], n, ninv);
        lemma_mul_mod_one(a[i]);
        assert(x.len() == n);
        assert(y.len() == n);
    }
    assert(dft(y, w) =~= a);
}

} // verus!
