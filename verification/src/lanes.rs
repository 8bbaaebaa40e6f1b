//! The decomposition of a transform of `cpus * n_sub` entries into `cpus`
//! independent transforms of `n_sub` entries.
//!
//! Lane `j` first folds the input into `n_sub` entries, each a twiddled sum
//! of `cpus` input entries a stride of `n_sub` apart, and then transforms
//! them with the root `w^cpus`. Entry `k` of what it gets is entry
//! `j + k * cpus` of the full transform.

use vstd::prelude::*;
use crate::dft::dft_at;
use crate::field::{mul_mod, pow_mod};
use crate::ring::{
    lemma_mul_mod_assoc,
    lemma_mul_mod_comm,
    lemma_mul_mod_one,
    lemma_pow_mod_add,
    lemma_pow_mod_bound,
    lemma_pow_mod_mul,
    lemma_pow_mod_of_one,
};
use crate::sums::{lemma_sum_ext, lemma_sum_scale, lemma_sum_strided, sum_mod};

verus! {

/// The input entry at `i + s * n_sub`, twiddled for lane `j`.
pub open spec fn lane_term(a: Seq<nat>, w: nat, n_sub: nat, j: nat, i: int, s: int) -> nat {
    mul_mod(a[i + s * n_sub], pow_mod(w, (j * (i + s * n_sub)) as nat))
}

/// The terms that are folded into entry `i` of lane `j`.
pub open spec fn lane_terms(a: Seq<nat>, w: nat, n_sub: nat, j: nat, i: int) -> spec_fn(
    int,
) -> nat {
    |s: int| lane_term(a, w, n_sub, j, i, s)
}

/// What lane `j` transforms: entry `i` is the sum over `s < cpus` of
/// `a[i + s * n_sub] * w^(j * (i + s * n_sub))`.
pub open spec fn lane_input(a: Seq<nat>, w: nat, n_sub: nat, cpus: nat, j: nat) -> Seq<nat> {
    Seq::new(n_sub, |i: int| sum_mod(lane_terms(a, w, n_sub, j, i), cpus))
}

/// `w^(x + y * n) == w^x` where `w^n == 1`.
pub proof fn lemma_pow_mod_wrap(w: nat, n: nat, x: nat, y: nat)
    requires
        pow_mod(w, n) == 1,
    ensures
        pow_mod(w, x + y * n) == pow_mod(w, x),
{
    lemma_pow_mod_add(w, x, y * n);
    assert(y * n == n * y) by (nonlinear_arith);
    lemma_pow_mod_mul(w, n, y);
    lemma_pow_mod_of_one(y);
    lemma_pow_mod_bound(w, x);
    lemma_mul_mod_one(pow_mod(w, x));
}

/// Entry `k` of the transform of lane `j` is entry `j + k * cpus` of the
/// transform of the whole input.
pub proof fn lemma_lane_output(a: Seq<nat>, w: nat, n_sub: nat, cpus: nat, j: nat, k: nat)
    requires
        a.len() == cpus * n_sub,
        k < n_sub,
        a.len() == 1 || pow_mod(w, a.len()) == 1,
    ensures
        dft_at(lane_input(a, w, n_sub, cpus, j), pow_mod(w, cpus), k as int) == dft_at(
            a,
            w,
            (j + k * cpus) as int,
        ),
{
    let n = a.len();
    let p = (j + k * cpus) as int;
    let wc = pow_mod(w, cpus);
    let x = lane_input(a, w, n_sub, cpus, j);
    let f = |q: int| mul_mod(a[q], pow_mod(w, (p * q) as nat));
    let grouped = |i: int| sum_mod(|s: int| f(i + s * n_sub), cpus);
    let g = |i: int| mul_mod(x[i], pow_mod(wc, (k * i) as nat));
    lemma_sum_strided(f, n_sub, cpus);
    assert forall|i: int| 0 <= i < n_sub implies #[trigger] g(i) == grouped(i) by {
        let c = pow_mod(wc, (k * i) as nat);
        let terms = lane_terms(a, w, n_sub, j, i);
        let scaled = |s: int| mul_mod(c, terms(s));
        let inner = |s: int| f(i + s * n_sub);
        lemma_sum_scale(c, terms, cpus);
        lemma_mul_mod_comm(c, sum_mod(terms, cpus));
        assert(x[i] == sum_mod(terms, cpus));
        assert forall|s: int| 0 <= s < cpus implies #[trigger] scaled(s) == inner(s) by {
            let q = i + s * n_sub;
            assert(q >= 0) by (nonlinear_arith)
                requires
                    i >= 0,
                    s >= 0,
                    q == i + s * n_sub,
            ;
            let e1 = (j * q) as nat;
            let e2 = (k * i) as nat;
            assert(j * q >= 0 && k * i >= 0 && k * s >= 0) by (nonlinear_arith)
                requires
                    q >= 0,
                    i >= 0,
                    s >= 0,
            ;
            let ks = (k * s) as nat;
            // c == w^(cpus * e2)
            lemma_pow_mod_mul(w, cpus, e2);
            // w^e1 * w^(cpus * e2) == w^(e1 + cpus * e2)
            lemma_pow_mod_add(w, e1, cpus * e2);
            // p * q == e1 + cpus * e2 + ks * n
            assert(p * q == e1 + cpus * e2 + ks * n) by (nonlinear_arith)
                requires
                    p == j + k * cpus,
                    q == i + s * n_sub,
                    e1 == j * q,
                    e2 == k * i,
                    ks == k * s,
                    n == cpus * n_sub,
            ;
            if n == 1 {
                assert(n_sub == 1 && k == 0 && ks * n == 0) by (nonlinear_arith)
                    requires
                        cpus * n_sub == 1,
                        k < n_sub,
                        ks == k * s,
                        n == 1,
                ;
            } else {
                lemma_pow_mod_wrap(w, n, e1 + cpus * e2, ks);
            }
            // c * (a * w^e1) == a * (w^e1 * c)
            let t = pow_mod(w, e1);
            lemma_mul_mod_comm(c, mul_mod(a[q], t));
            lemma_mul_mod_assoc(a[q], t, c);
            assert(terms(s) == mul_mod(a[q], t));
            assert(inner(s) == mul_mod(a[q], pow_mod(w, (p * q) as nat)));
        }
        lemma_sum_ext(scaled, inner, cpus);
    }
    lemma_sum_ext(g, grouped, n_sub);
    assert(x.len() == n_sub);
}

} // verus!
