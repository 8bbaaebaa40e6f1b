//! The discrete Fourier transform over the field, as a sum, and the
//! identities that relate a transform to the transforms of its parts.

use vstd::prelude::*;
use crate::field::{add_mod, modulus, mul_mod, pow_mod, sub_mod};
use crate::ring::{
    lemma_mul_mod_assoc,
    lemma_mul_mod_bound,
    lemma_mul_mod_comm,
    lemma_mul_mod_one,
    lemma_mul_neg_one,
    lemma_neg_mod,
    lemma_pow_mod_add,
    lemma_pow_mod_bound,
    lemma_pow_mod_mul,
    lemma_pow_mod_of_one,
    lemma_pow_mod_one,
    lemma_sub_is_add_neg,
    lemma_sub_mod_unique,
    neg_mod,
};
use crate::sums::{lemma_sum_bound, lemma_sum_even_odd, lemma_sum_ext, lemma_sum_scale, sum_mod};

verus! {

/// Every entry is a canonical representative.
pub open spec fn reduced(a: Seq<nat>) -> bool {
    forall|i: int| 0 <= i < a.len() ==> #[trigger] a[i] < modulus()
}

/// The value at `w^i` of the polynomial with coefficients `a`:
/// the sum of `a[j] * w^(i * j)` over all `j`.
pub open spec fn dft_at(a: Seq<nat>, w: nat, i: int) -> nat {
    sum_mod(|j: int| mul_mod(a[j], pow_mod(w, (i * j) as nat)), a.len())
}

/// The transform of `a` with the root `w`: the values of the polynomial with
/// coefficients `a` at `w^0, w^1, ..., w^(n - 1)`.
pub open spec fn dft(a: Seq<nat>, w: nat) -> Seq<nat> {
    Seq::new(a.len(), |i: int| dft_at(a, w, i))
}

/// The entries of `x` at even places.
pub open spec fn evens(x: Seq<nat>) -> Seq<nat> {
    Seq::new((x.len() / 2) as nat, |u: int| x[2 * u])
}

/// The entries of `x` at odd places.
pub open spec fn odds(x: Seq<nat>) -> Seq<nat> {
    Seq::new((x.len() / 2) as nat, |u: int| x[2 * u + 1])
}

/// `w` generates the `2^log_n`-th roots of unity: for `log_n >= 1` its
/// `2^(log_n - 1)`-th power is `-1`. Nothing is asked of it for `log_n == 0`,
/// where a transform has a single entry.
pub open spec fn primitive_root(w: nat, log_n: nat) -> bool {
    log_n > 0 ==> pow_mod(w, vstd::arithmetic::power2::pow2((log_n - 1) as nat)) == neg_mod(1)
}

/// The entries of a transform are canonical.
pub proof fn lemma_dft_at_bound(a: Seq<nat>, w: nat, i: int)
    ensures
        dft_at(a, w, i) < modulus(),
{
    lemma_sum_bound(|j: int| mul_mod(a[j], pow_mod(w, (i * j) as nat)), a.len());
}

/// `(-1) * (-1) == 1`.
pub proof fn lemma_neg_one_squared()
    ensures
        mul_mod(neg_mod(1), neg_mod(1)) == 1,
{
    lemma_neg_mod(1);
    lemma_mul_neg_one(neg_mod(1));
    lemma_sub_mod_unique(0, neg_mod(1), 1);
}

/// `z^2`, as a product, is `z` to the power 2.
pub proof fn lemma_square_is_pow(z: nat)
    requires
        z < modulus(),
    ensures
        mul_mod(z, z) == pow_mod(z, 2),
{
    lemma_pow_mod_one(z);
    lemma_pow_mod_add(z, 1, 1);
}

/// A power of `z` whose exponent has an even factor is a power of `z^2`.
proof fn lemma_twiddle_even(z: nat, i: nat, u: nat)
    requires
        z < modulus(),
    ensures
        pow_mod(z, i * (2 * u)) == pow_mod(mul_mod(z, z), i * u),
{
    lemma_square_is_pow(z);
    lemma_pow_mod_mul(z, 2, i * u);
    assert(i * (2 * u) == 2 * (i * u)) by (nonlinear_arith);
}

proof fn lemma_twiddle_odd(z: nat, i: nat, u: nat)
    requires
        z < modulus(),
    ensures
        pow_mod(z, i * (2 * u + 1)) == mul_mod(pow_mod(z, i), pow_mod(mul_mod(z, z), i * u)),
{
    lemma_twiddle_even(z, i, u);
    assert(i * (2 * u + 1) == i + i * (2 * u)) by (nonlinear_arith);
    lemma_pow_mod_add(z, i, i * (2 * u));
}

/// Decimation in time: a transform of even length is put together from the
/// transforms of the entries at even and at odd places, taken with the
/// squared root.
pub proof fn lemma_dft_decimation(x: Seq<nat>, z: nat, m: nat, i: nat)
    requires
        x.len() == 2 * m,
        z < modulus(),
    ensures
        dft_at(x, z, i as int) == add_mod(
            dft_at(evens(x), mul_mod(z, z), i as int),
            mul_mod(pow_mod(z, i), dft_at(odds(x), mul_mod(z, z), i as int)),
        ),
{
    let z2 = mul_mod(z, z);
    let f = |j: int| mul_mod(x[j], pow_mod(z, (i * j) as nat));
    let fe = |u: int| f(2 * u);
    let fo = |u: int| f(2 * u + 1);
    let xe = evens(x);
    let xo = odds(x);
    let ge = |u: int| mul_mod(xe[u], pow_mod(z2, (i * u) as nat));
    let go = |u: int| mul_mod(xo[u], pow_mod(z2, (i * u) as nat));
    let sgo = |u: int| mul_mod(pow_mod(z, i), go(u));
    lemma_sum_even_odd(f, m);
    assert forall|u: int| 0 <= u < m implies #[trigger] fe(u) == ge(u) by {
        lemma_twiddle_even(z, i, u as nat);
        assert((i * (2 * u)) as nat == i * (2 * (u as nat)));
        assert((i * u) as nat == i * (u as nat));
    }
    lemma_sum_ext(fe, ge, m);
    assert forall|u: int| 0 <= u < m implies #[trigger] fo(u) == sgo(u) by {
        lemma_twiddle_odd(z, i, u as nat);
        assert((i * (2 * u + 1)) as nat == i * (2 * (u as nat) + 1));
        assert((i * u) as nat == i * (u as nat));
        let p = pow_mod(z2, (i * u) as nat);
        let q = pow_mod(z, i);
        // x * (q * p) == q * (x * p)
        lemma_mul_mod_assoc(xo[u], q, p);
        lemma_mul_mod_comm(xo[u], q);
        lemma_mul_mod_assoc(q, xo[u], p);
    }
    lemma_sum_ext(fo, sgo, m);
    lemma_sum_scale(pow_mod(z, i), go, m);
    assert(xe.len() == m);
    assert(xo.len() == m);
}

/// With a root whose `m`-th power is 1, the transform repeats after `m`
/// places.
pub proof fn lemma_dft_periodic(y: Seq<nat>, w: nat, m: nat, i: nat)
    requires
        pow_mod(w, m) == 1,
    ensures
        dft_at(y, w, (i + m) as int) == dft_at(y, w, i as int),
{
    let f = |j: int| mul_mod(y[j], pow_mod(w, ((i + m) * j) as nat));
    let g = |j: int| mul_mod(y[j], pow_mod(w, (i * j) as nat));
    assert forall|j: int| 0 <= j < y.len() implies #[trigger] f(j) == g(j) by {
        let jn = j as nat;
        assert(((i + m) * j) as nat == i * jn + m * jn) by (nonlinear_arith)
            requires
                j >= 0,
                jn == j,
        ;
        assert((i * j) as nat == i * jn);
        lemma_pow_mod_add(w, i * jn, m * jn);
        lemma_pow_mod_mul(w, m, jn);
        lemma_pow_mod_of_one(jn);
        lemma_pow_mod_bound(w, i * jn);
        lemma_mul_mod_one(pow_mod(w, i * jn));
    }
    lemma_sum_ext(f, g, y.len());
}

/// The butterfly: with `z^m == -1`, the entries `i` and `i + m` of a
/// transform of length `2 * m` are the sum and the difference of the entry
/// `i` of the transform of the even part and the twiddled entry `i` of the
/// transform of the odd part.
pub proof fn lemma_butterfly(x: Seq<nat>, z: nat, m: nat, i: nat)
    requires
        x.len() == 2 * m,
        z < modulus(),
        pow_mod(z, m) == neg_mod(1),
    ensures
        dft_at(x, z, i as int) == add_mod(
            dft_at(evens(x), mul_mod(z, z), i as int),
            mul_mod(dft_at(odds(x), mul_mod(z, z), i as int), pow_mod(z, i)),
        ),
        dft_at(x, z, (i + m) as int) == sub_mod(
            dft_at(evens(x), mul_mod(z, z), i as int),
            mul_mod(dft_at(odds(x), mul_mod(z, z), i as int), pow_mod(z, i)),
        ),
{
    let z2 = mul_mod(z, z);
    let e = dft_at(evens(x), z2, i as int);
    let o = dft_at(odds(x), z2, i as int);
    let t = mul_mod(o, pow_mod(z, i));
    lemma_dft_decimation(x, z, m, i);
    lemma_mul_mod_comm(o, pow_mod(z, i));
    lemma_dft_decimation(x, z, m, i + m);
    // z2^m == z^(2m) == 1
    lemma_square_is_pow(z);
    lemma_pow_mod_mul(z, 2, m);
    lemma_pow_mod_add(z, m, m);
    lemma_neg_one_squared();
    assert(2 * m == m + m);
    assert(pow_mod(z2, m) == 1);
    lemma_dft_periodic(evens(x), z2, m, i);
    lemma_dft_periodic(odds(x), z2, m, i);
    // z^(i + m) == -(z^i)
    lemma_pow_mod_add(z, i, m);
    lemma_pow_mod_bound(z, i);
    lemma_mul_neg_one(pow_mod(z, i));
    lemma_neg_mod(1);
    // (-(z^i)) * o == -(z^i * o)
    lemma_mul_mod_assoc(neg_mod(1), pow_mod(z, i), o);
    lemma_mul_mod_bound(pow_mod(z, i), o);
    lemma_mul_neg_one(mul_mod(pow_mod(z, i), o));
    lemma_dft_at_bound(evens(x), z2, i as int);
    lemma_sub_is_add_neg(e, t);
}

/// The inverse transform: the transform with the inverse root `winv`, every
/// entry multiplied by `ninv`, the inverse of the length.
pub open spec fn inverse_dft(a: Seq<nat>, winv: nat, ninv: nat) -> Seq<nat> {
    Seq::new(a.len(), |i: int| mul_mod(dft_at(a, winv, i), ninv))
}

/// Entry `i` multiplied by `g^i`.
pub open spec fn with_powers(a: Seq<nat>, g: nat) -> Seq<nat> {
    Seq::new(a.len(), |i: int| mul_mod(a[i], pow_mod(g, i as nat)))
}

/// Every entry multiplied by `c`.
pub open spec fn scaled(a: Seq<nat>, c: nat) -> Seq<nat> {
    Seq::new(a.len(), |i: int| mul_mod(a[i], c))
}

/// The products of the entries of `a` and `b`, place by place.
pub open spec fn pointwise_mul(a: Seq<nat>, b: Seq<nat>) -> Seq<nat> {
    Seq::new(a.len(), |i: int| mul_mod(a[i], b[i]))
}

/// The differences of the entries of `a` and `b`, place by place.
pub open spec fn pointwise_sub(a: Seq<nat>, b: Seq<nat>) -> Seq<nat> {
    Seq::new(a.len(), |i: int| sub_mod(a[i], b[i]))
}

/// `a` followed by zeros up to the length `n`.
pub open spec fn padded(a: Seq<nat>, n: nat) -> Seq<nat> {
    Seq::new(
        n,
        |i: int|
            if i < a.len() {
                a[i]
            } else {
                0
            },
    )
}

} // verus!
