//! Finite sums in the field, and the ways of rearranging them that the
//! transform proofs use.

use vstd::prelude::*;
use crate::field::{add_mod, modulus, mul_mod};
use crate::ring::{
    lemma_add_mod_assoc,
    lemma_add_mod_bound,
    lemma_add_mod_comm,
    lemma_add_mod_zero,
    lemma_mul_mod_distrib,
    lemma_mul_mod_zero,
};

verus! {

/// `f(0) + f(1) + ... + f(n - 1)` in the field.
pub open spec fn sum_mod(f: spec_fn(int) -> nat, n: nat) -> nat
    decreases n,
{
    if n == 0 {
        0
    } else {
        add_mod(sum_mod(f, (n - 1) as nat), f(n - 1))
    }
}

/// A sum is canonical.
pub proof fn lemma_sum_bound(f: spec_fn(int) -> nat, n: nat)
    ensures
        sum_mod(f, n) < modulus(),
{
    if n > 0 {
        lemma_add_mod_bound(sum_mod(f, (n - 1) as nat), f(n - 1));
    }
}

/// Sums of functions that agree below `n` agree.
pub proof fn lemma_sum_ext(f: spec_fn(int) -> nat, g: spec_fn(int) -> nat, n: nat)
    requires
        forall|i: int| 0 <= i < n ==> #[trigger] f(i) == g(i),
    ensures
        sum_mod(f, n) == sum_mod(g, n),
    decreases n,
{
    if n > 0 {
        lemma_sum_ext(f, g, (n - 1) as nat);
    }
}

/// A sum of zeros is zero.
pub proof fn lemma_sum_zero(f: spec_fn(int) -> nat, n: nat)
    requires
        forall|i: int| 0 <= i < n ==> #[trigger] f(i) == 0,
    ensures
        sum_mod(f, n) == 0,
    decreases n,
{
    if n > 0 {
        lemma_sum_zero(f, (n - 1) as nat);
        lemma_add_mod_zero(0);
    }
}

/// `sum (f + g) == sum f + sum g`.
pub proof fn lemma_sum_add(f: spec_fn(int) -> nat, g: spec_fn(int) -> nat, n: nat)
    ensures
        sum_mod(|i: int| add_mod(f(i), g(i)), n) == add_mod(sum_mod(f, n), sum_mod(g, n)),
    decreases n,
{
    let h = |i: int| add_mod(f(i), g(i));
    if n == 0 {
        lemma_add_mod_zero(0);
    } else {
        let n1 = (n - 1) as nat;
        lemma_sum_add(f, g, n1);
        let sf = sum_mod(f, n1);
        let sg = sum_mod(g, n1);
        let a = f(n - 1);
        let b = g(n - 1);
        assert(sum_mod(h, n) == add_mod(sum_mod(h, n1), h(n - 1)));
        assert(h(n - 1) == add_mod(a, b));
        // (sf + sg) + (a + b) == (sf + a) + (sg + b)
        lemma_add_mod_assoc(sf, sg, add_mod(a, b));
        lemma_add_mod_assoc(sg, a, b);
        lemma_add_mod_comm(sg, a);
        lemma_add_mod_assoc(a, sg, b);
        lemma_add_mod_assoc(sf, a, add_mod(sg, b));
    }
}

/// `sum (c * f) == c * sum f`.
pub proof fn lemma_sum_scale(c: nat, f: spec_fn(int) -> nat, n: nat)
    ensures
        sum_mod(|i: int| mul_mod(c, f(i)), n) == mul_mod(c, sum_mod(f, n)),
    decreases n,
{
    let h = |i: int| mul_mod(c, f(i));
    if n == 0 {
        lemma_mul_mod_zero(c);
    } else {
        let n1 = (n - 1) as nat;
        lemma_sum_scale(c, f, n1);
        assert(sum_mod(h, n) == add_mod(sum_mod(h, n1), h(n - 1)));
        lemma_mul_mod_distrib(c, sum_mod(f, n1), f(n - 1));
    }
}

/// A sum of `n + k` terms is the sum of the first `n` and of the `k` after
/// them.
pub proof fn lemma_sum_split(f: spec_fn(int) -> nat, n: nat, k: nat)
    ensures
        sum_mod(f, n + k) == add_mod(sum_mod(f, n), sum_mod(|i: int| f(n + i), k)),
    decreases k,
{
    let g = |i: int| f(n + i);
    if k == 0 {
        lemma_sum_bound(f, n);
        lemma_add_mod_zero(sum_mod(f, n));
    } else {
        let k1 = (k - 1) as nat;
        lemma_sum_split(f, n, k1);
        assert(sum_mod(f, n + k) == add_mod(sum_mod(f, (n + k1) as nat), f(n + k - 1)));
        assert(sum_mod(g, k) == add_mod(sum_mod(g, k1), g(k - 1)));
        assert(g(k - 1) == f(n + k - 1));
        lemma_add_mod_assoc(sum_mod(f, n), sum_mod(g, k1), f(n + k - 1));
    }
}

/// A sum of `2 * m` terms is the sum of those at even places and of those at
/// odd places.
pub proof fn lemma_sum_even_odd(f: spec_fn(int) -> nat, m: nat)
    ensures
        sum_mod(f, 2 * m) == add_mod(
            sum_mod(|u: int| f(2 * u), m),
            sum_mod(|u: int| f(2 * u + 1), m),
        ),
    decreases m,
{
    let fe = |u: int| f(2 * u);
    let fo = |u: int| f(2 * u + 1);
    if m == 0 {
        lemma_add_mod_zero(0);
    } else {
        let m1 = (m - 1) as nat;
        lemma_sum_even_odd(f, m1);
        let se = sum_mod(fe, m1);
        let so = sum_mod(fo, m1);
        let a = f(2 * m - 2);
        let b = f(2 * m - 1);
        assert(sum_mod(f, 2 * m) == add_mod(sum_mod(f, (2 * m - 1) as nat), b));
        assert(sum_mod(f, (2 * m - 1) as nat) == add_mod(sum_mod(f, 2 * m1), a));
        assert(sum_mod(fe, m) == add_mod(se, fe(m - 1)));
        assert(sum_mod(fo, m) == add_mod(so, fo(m - 1)));
        assert(fe(m - 1) == a);
        assert(fo(m - 1) == b);
        // ((se + so) + a) + b == (se + a) + (so + b)
        lemma_add_mod_assoc(add_mod(se, so), a, b);
        lemma_add_mod_assoc(se, so, add_mod(a, b));
        lemma_add_mod_assoc(so, a, b);
        lemma_add_mod_comm(so, a);
        lemma_add_mod_assoc(a, so, b);
        lemma_add_mod_assoc(se, a, add_mod(so, b));
    }
}

/// A double sum may be taken in either order.
pub proof fn lemma_sum_exchange(f: spec_fn(int, int) -> nat, n: nat, m: nat)
    ensures
        sum_mod(|i: int| sum_mod(|j: int| f(i, j), m), n) == sum_mod(
            |j: int| sum_mod(|i: int| f(i, j), n),
            m,
        ),
    decreases n,
{
    let rows = |i: int| sum_mod(|j: int| f(i, j), m);
    let cols = |j: int| sum_mod(|i: int| f(i, j), n);
    if n == 0 {
        lemma_sum_zero(cols, m);
    } else {
        let n1 = (n - 1) as nat;
        lemma_sum_exchange(f, n1, m);
        let cols1 = |j: int| sum_mod(|i: int| f(i, j), n1);
        let last = |j: int| f(n - 1, j);
        assert(sum_mod(rows, n) == add_mod(sum_mod(rows, n1), rows(n - 1)));
        assert(rows(n - 1) == sum_mod(|j: int| f(n - 1, j), m));
        assert(sum_mod(rows, n1) == sum_mod(cols1, m));
        lemma_sum_add(cols1, last, m);
        assert forall|j: int| 0 <= j < m implies #[trigger] cols(j) == add_mod(
            cols1(j),
            last(j),
        ) by {
            let col = |i: int| f(i, j);
            assert(sum_mod(col, n) == add_mod(sum_mod(col, n1), col(n - 1)));
        }
        lemma_sum_ext(cols, |j: int| add_mod(cols1(j), last(j)), m);
    }
}

/// A sum in which only the term at `k` may differ from zero is that term.
pub proof fn lemma_sum_single(f: spec_fn(int) -> nat, n: nat, k: int)
    requires
        0 <= k < n,
        f(k) < modulus(),
        forall|i: int| 0 <= i < n && i != k ==> #[trigger] f(i) == 0,
    ensures
        sum_mod(f, n) == f(k),
    decreases n,
{
    let n1 = (n - 1) as nat;
    if k == n - 1 {
        lemma_sum_zero(f, n1);
        lemma_add_mod_zero(f(k));
    } else {
        lemma_sum_single(f, n1, k);
        lemma_add_mod_zero(f(k));
    }
}

/// A sum of `c * n` terms, taken in `n` strided groups of `c`: the group `i`
/// holds the terms at `i`, `i + n`, `i + 2n`, ...
pub proof fn lemma_sum_strided(f: spec_fn(int) -> nat, n: nat, c: nat)
    ensures
        sum_mod(f, c * n) == sum_mod(|i: int| sum_mod(|s: int| f(i + s * n), c), n),
    decreases c,
{
    let groups = |i: int| sum_mod(|s: int| f(i + s * n), c);
    if c == 0 {
        assert(c * n == 0) by (nonlinear_arith)
            requires
                c == 0,
        ;
        lemma_sum_zero(groups, n);
    } else {
        let c1 = (c - 1) as nat;
        lemma_sum_strided(f, n, c1);
        let groups1 = |i: int| sum_mod(|s: int| f(i + s * n), c1);
        let last = |i: int| f(c1 * n + i);
        assert(c * n == c1 * n + n) by (nonlinear_arith)
            requires
                c == c1 + 1,
        ;
        lemma_sum_split(f, c1 * n, n);
        lemma_sum_add(groups1, last, n);
        assert forall|i: int| 0 <= i < n implies #[trigger] groups(i) == add_mod(
            groups1(i),
            last(i),
        ) by {
            let g = |s: int| f(i + s * n);
            assert(sum_mod(g, c) == add_mod(sum_mod(g, c1), g(c - 1)));
            assert(g(c - 1) == f(i + c1 * n));
        }
        lemma_sum_ext(groups, |i: int| add_mod(groups1(i), last(i)), n);
    }
}

} // verus!
