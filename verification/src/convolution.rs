//! The product of two polynomials, coefficient by coefficient, and why the
//! transforms compute it: the transform of a cyclic convolution is the
//! product of the transforms, place by place.

use vstd::prelude::*;
use vstd::arithmetic::div_mod::{
    lemma_fundamental_div_mod,
    lemma_fundamental_div_mod_converse,
    lemma_mod_bound,
    lemma_small_mod,
};
use vstd::arithmetic::power2::pow2;
use crate::dft::{dft, dft_at, inverse_dft, padded, pointwise_mul, primitive_root, reduced};
use crate::field::{modulus, mul_mod, pow_mod};
use crate::lanes::lemma_pow_mod_wrap;
use crate::orthogonality::lemma_inverse_dft_of_dft;
use crate::ring::{
    lemma_add_mod_comm,
    lemma_add_mod_zero,
    lemma_mul_mod_comm,
    lemma_mul_mod_zero,
    lemma_pow_mod_add,
};
use crate::sums::{
    lemma_sum_bound,
    lemma_sum_exchange,
    lemma_sum_ext,
    lemma_sum_scale,
    lemma_sum_split,
    lemma_sum_zero,
    sum_mod,
};

verus! {

/// The coefficient `b[j]`, and zero where `b` has none.
pub open spec fn coefficient(b: Seq<nat>, j: int) -> nat {
    if 0 <= j < b.len() {
        b[j]
    } else {
        0
    }
}

/// The coefficient of `x^k` in the product of the polynomials `a` and `b`:
/// the sum of `a[i] * b[k - i]`.
pub open spec fn product_at(a: Seq<nat>, b: Seq<nat>, k: int) -> nat {
    sum_mod(|i: int| mul_mod(a[i], coefficient(b, k - i)), a.len())
}

/// The coefficients of the product of the polynomials `a` and `b`, as
/// multiplying them out term by term gives them.
pub open spec fn product(a: Seq<nat>, b: Seq<nat>) -> Seq<nat> {
    Seq::new((a.len() + b.len() - 1) as nat, |k: int| product_at(a, b, k))
}

/// The cyclic convolution of two sequences of one length `n`: entry `k` is
/// the sum of `x[i] * y[(k - i) mod n]`.
pub open spec fn cyclic_at(x: Seq<nat>, y: Seq<nat>, k: int) -> nat {
    sum_mod(|i: int| mul_mod(x[i], y[(k - i) % (x.len() as int)]), x.len())
}

/// The cyclic convolution of `x` and `y`.
pub open spec fn cyclic(x: Seq<nat>, y: Seq<nat>) -> Seq<nat> {
    Seq::new(x.len(), |k: int| cyclic_at(x, y, k))
}

/// A sum whose terms from `m` on are zero is the sum of its first `m` terms.
proof fn lemma_sum_truncate(f: spec_fn(int) -> nat, m: nat, n: nat)
    requires
        m <= n,
        forall|i: int| m <= i < n ==> #[trigger] f(i) == 0,
    ensures
        sum_mod(f, n) == sum_mod(f, m),
{
    let rest = |i: int| f(m + i);
    lemma_sum_split(f, m, (n - m) as nat);
    lemma_sum_zero(rest, (n - m) as nat);
    lemma_sum_bound(f, m);
    lemma_add_mod_zero(sum_mod(f, m));
}

/// A sum over a whole period may start anywhere in it.
proof fn lemma_sum_rotate(g: spec_fn(int) -> nat, n: nat, s: int)
    requires
        0 <= s < n,
    ensures
        sum_mod(|k: int| g((k - s) % (n as int)), n) == sum_mod(g, n),
{
    let sn = s as nat;
    let r = (n - s) as nat;
    let f = |k: int| g((k - s) % (n as int));
    // f over [0, s) is g over [n - s, n); f over [s, n) is g over [0, n - s).
    let f_low = |k: int| f(k);
    let f_high = |k: int| f(sn + k);
    let g_high = |k: int| g(r + k);
    lemma_sum_split(f, sn, r);
    lemma_sum_split(g, r, sn);
    assert forall|k: int| 0 <= k < s implies #[trigger] f(k) == g_high(k) by {
        lemma_fundamental_div_mod_converse(k - s, n as int, -1, n - s + k);
    }
    lemma_sum_ext(f, g_high, sn);
    assert forall|k: int| 0 <= k < r implies #[trigger] f_high(k) == g(k) by {
        lemma_small_mod(k as nat, n);
    }
    lemma_sum_ext(f_high, g, r);
    lemma_add_mod_comm(sum_mod(g, r), sum_mod(g_high, sn));
}

/// The convolution theorem: the transform of a cyclic convolution is the
/// product of the transforms, place by place.
pub proof fn lemma_dft_of_cyclic(x: Seq<nat>, y: Seq<nat>, w: nat, t: int)
    requires
        x.len() == y.len(),
        x.len() > 0,
        pow_mod(w, x.len()) == 1,
        0 <= t,
    ensures
        dft_at(cyclic(x, y), w, t) == mul_mod(dft_at(x, w, t), dft_at(y, w, t)),
{
    let n = x.len();
    let ni = n as int;
    let c = cyclic(x, y);
    let yt = dft_at(y, w, t);
    let outer = |k: int| mul_mod(c[k], pow_mod(w, (t * k) as nat));
    let f = |k: int, i: int| mul_mod(mul_mod(x[i], y[(k - i) % ni]), pow_mod(w, (t * k) as nat));
    let rows = |k: int| sum_mod(|i: int| f(k, i), n);
    let cols = |i: int| sum_mod(|k: int| f(k, i), n);
    let xterm = |i: int| mul_mod(x[i], pow_mod(w, (t * i) as nat));
    let target = |i: int| mul_mod(yt, xterm(i));
    assert forall|k: int| 0 <= k < n implies #[trigger] outer(k) == rows(k) by {
        let p = pow_mod(w, (t * k) as nat);
        let inner = |i: int| mul_mod(x[i], y[(k - i) % ni]);
        let scaled = |i: int| mul_mod(p, inner(i));
        let row = |i: int| f(k, i);
        lemma_sum_scale(p, inner, n);
        lemma_mul_mod_comm(p, sum_mod(inner, n));
        assert forall|i: int| 0 <= i < n implies #[trigger] scaled(i) == row(i) by {
            lemma_mul_mod_comm(p, inner(i));
        }
        lemma_sum_ext(scaled, row, n);
        assert(c[k] == sum_mod(inner, n));
    }
    lemma_sum_ext(outer, rows, n);
    lemma_sum_exchange(f, n, n);
    assert forall|i: int| 0 <= i < n implies #[trigger] cols(i) == target(i) by {
        let xi = xterm(i);
        let yterm = |j: int| mul_mod(y[j], pow_mod(w, (t * j) as nat));
        let rotated = |k: int| yterm((k - i) % ni);
        let scaled = |k: int| mul_mod(xi, rotated(k));
        let col = |k: int| f(k, i);
        assert forall|k: int| 0 <= k < n implies #[trigger] col(k) == scaled(k) by {
            let j = (k - i) % ni;
            let q = (k - i) / ni;
            lemma_fundamental_div_mod(k - i, ni);
            lemma_mod_bound(k - i, ni);
            // k == i + j - wrap * n, with wrap 0 or 1
            let wrap = -q;
            assert(wrap == 0 || wrap == 1) by (nonlinear_arith)
                requires
                    k - i == ni * q + j,
                    0 <= j < ni,
                    -ni < k - i < ni,
                    wrap == -q,
            ;
            assert(t * i >= 0 && t * j >= 0 && t * k >= 0 && t * wrap >= 0) by (nonlinear_arith)
                requires
                    t >= 0,
                    i >= 0,
                    j >= 0,
                    k >= 0,
                    wrap >= 0,
            ;
            let ti = (t * i) as nat;
            let tj = (t * j) as nat;
            let tk = (t * k) as nat;
            let tw = (t * wrap) as nat;
            assert(ti + tj == tk + tw * n) by (nonlinear_arith)
                requires
                    k - i == ni * q + j,
                    wrap == -q,
                    ti == t * i,
                    tj == t * j,
                    tk == t * k,
                    tw == t * wrap,
                    ni == n,
            ;
            lemma_pow_mod_wrap(w, n, tk, tw);
            lemma_pow_mod_add(w, ti, tj);
            // (x * y) * (wi * wj) == (x * wi) * (y * wj)
            crate::ring::lemma_mul_mod_four(x[i], y[j], pow_mod(w, ti), pow_mod(w, tj));
        }
        lemma_sum_ext(col, scaled, n);
        lemma_sum_scale(xi, rotated, n);
        lemma_sum_rotate(yterm, n, i);
        lemma_mul_mod_comm(xi, yt);
    }
    lemma_sum_ext(cols, target, n);
    lemma_sum_scale(yt, xterm, n);
    lemma_mul_mod_comm(yt, dft_at(x, w, t));
    assert(c.len() == n);
}

/// In a domain large enough for the product, the cyclic convolution of the
/// padded factors is the padded product: nothing wraps round.
pub proof fn lemma_cyclic_is_product(a: Seq<nat>, b: Seq<nat>, n: nat)
    requires
        a.len() > 0,
        b.len() > 0,
        a.len() + b.len() - 1 <= n,
    ensures
        cyclic(padded(a, n), padded(b, n)) == padded(product(a, b), n),
{
    let x = padded(a, n);
    let y = padded(b, n);
    let ni = n as int;
    assert forall|k: int| 0 <= k < n implies cyclic(x, y)[k] == padded(product(a, b), n)[k] by {
        let f = |i: int| mul_mod(x[i], y[(k - i) % ni]);
        let g = |i: int| mul_mod(a[i], coefficient(b, k - i));
        assert forall|i: int| a.len() <= i < n implies #[trigger] f(i) == 0 by {
            lemma_mod_bound(k - i, ni);
            lemma_mul_mod_zero(y[(k - i) % ni]);
        }
        lemma_sum_truncate(f, a.len(), n);
        assert forall|i: int| 0 <= i < a.len() implies #[trigger] f(i) == g(i) by {
            if k >= i {
                lemma_small_mod((k - i) as nat, n);
            } else {
                lemma_fundamental_div_mod_converse(k - i, ni, -1, n + k - i);
            }
        }
        lemma_sum_ext(f, g, a.len());
        if k >= a.len() + b.len() - 1 {
            assert forall|i: int| 0 <= i < a.len() implies #[trigger] g(i) == 0 by {
                lemma_mul_mod_zero(a[i]);
            }
            lemma_sum_zero(g, a.len());
        }
    }
    assert(cyclic(padded(a, n), padded(b, n)) =~= padded(product(a, b), n));
}

/// The entries of a cyclic convolution are canonical.
pub proof fn lemma_cyclic_reduced(x: Seq<nat>, y: Seq<nat>)
    ensures
        reduced(cyclic(x, y)),
        cyclic(x, y).len() == x.len(),
{
    assert forall|k: int| 0 <= k < x.len() implies #[trigger] cyclic(x, y)[k] < modulus() by {
        lemma_sum_bound(|i: int| mul_mod(x[i], y[(k - i) % (x.len() as int)]), x.len());
    }
}

/// Multiplication by way of evaluation. Pad two polynomials to a domain of
/// `2^l` entries that is large enough for their product, transform both,
/// multiply place by place and transform back: what comes out are the
/// coefficients of the product, padded.
pub proof fn lemma_multiplication_via_evaluation(
    a: Seq<nat>,
    b: Seq<nat>,
    w: nat,
    winv: nat,
    ninv: nat,
    l: nat,
)
    requires
        a.len() > 0,
        b.len() > 0,
        a.len() + b.len() - 1 <= pow2(l),
        winv < modulus(),
        mul_mod(w, winv) == 1,
        mul_mod(pow2(l), ninv) == 1,
        pow_mod(w, pow2(l)) == 1,
        primitive_root(w, l),
    ensures
        inverse_dft(
            pointwise_mul(dft(padded(a, pow2(l)), w), dft(padded(b, pow2(l)), w)),
            winv,
            ninv,
        ) == padded(product(a, b), pow2(l)),
{
    let n = pow2(l);
    let x = padded(a, n);
    let y = padded(b, n);
    let c = cyclic(x, y);
    assert forall|t: int| 0 <= t < n implies pointwise_mul(dft(x, w), dft(y, w))[t] == dft(
        c,
        w,
    )[t] by {
        lemma_dft_of_cyclic(x, y, w, t);
    }
    assert(pointwise_mul(dft(x, w), dft(y, w)) =~= dft(c, w));
    lemma_cyclic_reduced(x, y);
    lemma_inverse_dft_of_dft(c, w, winv, ninv, l);
    lemma_cyclic_is_product(a, b, n);
}

} // verus!
