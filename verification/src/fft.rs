//! The transform engine: an in-place radix-2 decimation-in-time transform,
//! and its decomposition into independent lanes.

use vstd::prelude::*;
use rayon::iter::{IndexedParallelIterator, IntoParallelIterator, ParallelIterator};
use vstd::arithmetic::div_mod::lemma_fundamental_div_mod_converse;
use vstd::arithmetic::power2::{
    lemma2_to64,
    lemma2_to64_rest,
    lemma_pow2_adds,
    lemma_pow2_pos,
    lemma_pow2_strictly_increases,
    lemma_pow2_unfold,
    pow2,
};
use crate::bitrev::{
    bit_reverse,
    bitreverse,
    lemma_bit_reverse_bound,
    lemma_bit_reverse_involution,
};
use crate::dft::{dft, dft_at, primitive_root, reduced};
use crate::field::{all_wf, modulus, pow_mod, values, FieldElement};
use crate::lanes::{lane_input, lane_terms, lemma_lane_output, lemma_pow_mod_wrap};
use crate::ring::{lemma_pow_mod_add, lemma_pow_mod_mul, lemma_pow_mod_succ, neg_mod};
use crate::dft::lemma_neg_one_squared;
use crate::sums::sum_mod;
use crate::stages::{lemma_stage_first, lemma_stage_last, lemma_stage_step, stage, stage_at};

verus! {

/// The values of well-formed elements are canonical.
pub proof fn lemma_values_reduced(s: Seq<FieldElement>)
    requires
        all_wf(s),
    ensures
        reduced(values(s)),
        values(s).len() == s.len(),
{
    assert forall|i: int| 0 <= i < values(s).len() implies #[trigger] values(s)[i] < modulus() by {
        assert(s[i].wf());
    }
}

/// `2^(s + 1) <= 2^l` for `s < l`, and `2^l` is `2^(l - s - 1)` blocks of
/// `2^(s + 1)`.
proof fn lemma_block_count(l: nat, s: nat)
    requires
        s < l,
    ensures
        pow2(s) >= 1,
        2 * pow2(s) == pow2(s + 1),
        pow2(s + 1) <= pow2(l),
        pow2(l) == pow2((l - s - 1) as nat) * (2 * pow2(s)),
        pow2(l) / (2 * pow2(s)) == pow2((l - s - 1) as nat),
{
    lemma_pow2_unfold(s + 1);
    lemma_pow2_pos(s);
    if s + 1 < l {
        lemma_pow2_strictly_increases(s + 1, l);
    }
    lemma_pow2_adds((l - s - 1) as nat, s + 1);
    let c = pow2((l - s - 1) as nat);
    let d = 2 * pow2(s);
    assert(pow2(l) == d * c + 0) by (nonlinear_arith)
        requires
            pow2(l) == c * d,
    ;
    lemma_fundamental_div_mod_converse(pow2(l) as int, d as int, c as int, 0);
}

/// A block that starts below the end of the buffer lies within it.
proof fn lemma_block_fits(count: nat, size: nat, b: nat)
    requires
        b * size < count * size,
    ensures
        b < count,
        (b + 1) * size <= count * size,
        (b + 1) * size == b * size + size,
{
    assert(b < count) by (nonlinear_arith)
        requires
            b * size < count * size,
    ;
    assert((b + 1) * size <= count * size) by (nonlinear_arith)
        requires
            b + 1 <= count,
    ;
    assert((b + 1) * size == b * size + size) by (nonlinear_arith);
}

/// Transforms `a` in place: entry `i` becomes the sum of `a[j] * omega^(i * j)`
/// over all `j`.
///
/// `a` holds `2^log_n` elements and `omega` generates the `2^log_n`-th roots
/// of unity. With the inverse of such a root this is the inverse transform,
/// up to the factor `2^log_n`.
pub fn serial_fft(a: &mut Vec<FieldElement>, omega: &FieldElement, log_n: u32)
    requires
        old(a)@.len() == pow2(log_n as nat),
        all_wf(old(a)@),
        omega.wf(),
        primitive_root(omega@, log_n as nat),
    ensures
        final(a)@.len() == old(a)@.len(),
        all_wf(final(a)@),
        values(final(a)@) == dft(values(old(a)@), omega@),
{
    let n: usize = a.len();
    let ghost input = values(a@);
    let ghost w = omega@;
    let ghost l = log_n as nat;
    proof {
        lemma_values_reduced(a@);
    }
    let mut k: usize = 0;
    while k < n
        invariant
            k <= n,
            n == pow2(l),
            l == log_n,
            a@.len() == n,
            input.len() == n,
            all_wf(a@),
            forall|i: int|
                0 <= i < n ==> (#[trigger] a@[i])@ == (if i < k || bit_reverse(l, i as nat) < k {
                    input[bit_reverse(l, i as nat) as int]
                } else {
                    input[i]
                }),
        decreases n - k,
    {
        let rk: usize = bitreverse(k, log_n);
        let ghost before = a@;
        if k < rk {
            let x = a[k];
            let y = a[rk];
            a.set(k, y);
            a.set(rk, x);
        }
        proof {
            lemma_bit_reverse_involution(l, k as nat);
            assert forall|i: int| 0 <= i < n implies (#[trigger] a@[i])@ == (if i < k + 1
                || bit_reverse(l, i as nat) < k + 1 {
                input[bit_reverse(l, i as nat) as int]
            } else {
                input[i]
            }) by {
                lemma_bit_reverse_involution(l, i as nat);
                lemma_bit_reverse_bound(l, i as nat);
                assert(before[i]@ == (if i < k || bit_reverse(l, i as nat) < k {
                    input[bit_reverse(l, i as nat) as int]
                } else {
                    input[i]
                }));
                assert(before[k as int]@ == (if bit_reverse(l, k as nat) < k {
                    input[bit_reverse(l, k as nat) as int]
                } else {
                    input[k as int]
                }));
                assert(before[rk as int]@ == (if rk < k || bit_reverse(l, rk as nat) < k {
                    input[bit_reverse(l, rk as nat) as int]
                } else {
                    input[rk as int]
                }));
            }
        }
        k += 1;
    }
    proof {
        assert forall|i: int| 0 <= i < n implies (#[trigger] a@[i])@ == stage_at(
            input,
            w,
            l,
            0,
            i,
        ) by {
            lemma_stage_first(input, w, l, i);
        }
        lemma2_to64();
    }
    let mut m: usize = 1;
    let mut s: u32 = 0;
    while s < log_n
        invariant
            s <= log_n,
            m == pow2(s as nat),
            n == pow2(l),
            l == log_n,
            w == omega@,
            omega.wf(),
            primitive_root(w, l),
            a@.len() == n,
            input.len() == n,
            all_wf(a@),
            forall|i: int| 0 <= i < n ==> (#[trigger] a@[i])@ == stage_at(input, w, l, s as nat, i),
        decreases log_n - s,
    {
        proof {
            lemma_block_count(l, s as nat);
        }
        let w_m = omega.pow((n / (2 * m)) as u64);
        let ghost count = pow2((l - s - 1) as nat);
        let ghost cur = stage(input, w, l, s as nat);
        let ghost next = stage(input, w, l, (s + 1) as nat);
        let mut k: usize = 0;
        let ghost mut b: nat = 0;
        proof {
            assert(0 * (2 * m) == 0);
        }
        while k < n
            invariant
                k <= n,
                k == b * (2 * m),
                n == count * (2 * m),
                s < log_n,
                l == log_n,
                m == pow2(s as nat),
                m >= 1,
                w == omega@,
                w < modulus(),
                pow_mod(w, pow2((l - 1) as nat)) == crate::ring::neg_mod(1),
                w_m.wf(),
                w_m@ == pow_mod(w, pow2((l - s - 1) as nat)),
                a@.len() == n,
                input.len() == n,
                all_wf(a@),
                cur == stage(input, w, l, s as nat),
                next == stage(input, w, l, (s + 1) as nat),
                forall|i: int|
                    0 <= i < n ==> (#[trigger] a@[i])@ == (if i < k {
                        next[i]
                    } else {
                        cur[i]
                    }),
            decreases n - k,
        {
            proof {
                lemma_block_fits(count, (2 * m) as nat, b);
            }
            let mut wj = FieldElement::one();
            let mut j: usize = 0;
            while j < m
                invariant
                    j <= m,
                    k + 2 * m <= n,
                    k == b * (2 * m),
                    s < log_n,
                    l == log_n,
                    m == pow2(s as nat),
                    w < modulus(),
                    pow_mod(w, pow2((l - 1) as nat)) == crate::ring::neg_mod(1),
                    w_m.wf(),
                    w_m@ == pow_mod(w, pow2((l - s - 1) as nat)),
                    wj.wf(),
                    wj@ == pow_mod(w_m@, j as nat),
                    a@.len() == n,
                    input.len() == n,
                    all_wf(a@),
                    cur == stage(input, w, l, s as nat),
                    next == stage(input, w, l, (s + 1) as nat),
                    forall|i: int|
                        0 <= i < n ==> (#[trigger] a@[i])@ == (if i < k || (k <= i < k + j) || (k
                            + m <= i < k + m + j) {
                            next[i]
                        } else {
                            cur[i]
                        }),
                decreases m - j,
            {
                let upper = a[k + j + m];
                let lower = a[k + j];
                let t = upper.mul(&wj);
                let diff = lower.sub(&t);
                let sum = lower.add(&t);
                a.set(k + j + m, diff);
                a.set(k + j, sum);
                proof {
                    lemma_stage_step(input, w, l, s as nat, b, j as nat);
                    lemma_pow_mod_succ(w_m@, j as nat);
                    assert(upper@ == cur[k + j + m]);
                    assert(lower@ == cur[k + j]);
                }
                wj = wj.mul(&w_m);
                j += 1;
            }
            k += 2 * m;
            proof {
                b = b + 1;
            }
        }
        m = m * 2;
        s += 1;
    }
    proof {
        assert(values(a@) =~= dft(input, w)) by {
            assert forall|i: int| 0 <= i < n implies values(a@)[i] == dft(input, w)[i] by {
                lemma_stage_last(input, w, l, i);
                assert(a@[i]@ == stage_at(input, w, l, l, i));
            }
        }
    }
}

/// A root that generates the `2^l`-th roots of unity has `2^l`-th power 1.
pub proof fn lemma_root_order(w: nat, l: nat)
    requires
        l > 0,
        primitive_root(w, l),
    ensures
        pow_mod(w, pow2(l)) == 1,
{
    lemma_pow2_unfold(l);
    lemma_pow_mod_add(w, pow2((l - 1) as nat), pow2((l - 1) as nat));
    lemma_neg_one_squared();
}

/// Its power `2^c` generates the `2^(l - c)`-th roots of unity.
pub proof fn lemma_root_power_primitive(w: nat, l: nat, c: nat)
    requires
        c <= l,
        primitive_root(w, l),
    ensures
        primitive_root(pow_mod(w, pow2(c)), (l - c) as nat),
{
    if l > c {
        lemma_pow_mod_mul(w, pow2(c), pow2((l - c - 1) as nat));
        lemma_pow2_adds(c, (l - c - 1) as nat);
    }
}

/// `2^k` as a machine integer.
pub fn pow2_usize(k: u32) -> (r: usize)
    requires
        pow2(k as nat) <= usize::MAX,
    ensures
        r == pow2(k as nat),
{
    let mut r: usize = 1;
    let mut i: u32 = 0;
    proof {
        lemma2_to64();
    }
    while i < k
        invariant
            i <= k,
            r == pow2(i as nat),
            pow2(k as nat) <= usize::MAX,
        decreases k - i,
    {
        proof {
            lemma_pow2_unfold((i + 1) as nat);
            if i + 1 < k {
                lemma_pow2_strictly_increases((i + 1) as nat, k as nat);
            }
        }
        r = r * 2;
        i += 1;
    }
    r
}

/// `out` is what lane `j` of `cpus` lanes returns for `input`: the `n_sub`
/// entries `j`, `j + cpus`, `j + 2 * cpus`, ... of the transform of `input`
/// with the root `w`.
pub open spec fn is_lane(
    out: Seq<FieldElement>,
    input: Seq<nat>,
    w: nat,
    n_sub: nat,
    cpus: nat,
    j: int,
) -> bool {
    &&& out.len() == n_sub
    &&& all_wf(out)
    &&& forall|k: int| 0 <= k < n_sub ==> (#[trigger] out[k])@ == dft_at(input, w, j + k * cpus)
}

/// One lane of the decomposed transform: entry `k` of the result is entry
/// `j + k * 2^log_cpus` of the transform of `a`.
///
/// The lane reads `a` and writes only what it returns, so the lanes of one
/// transform can run side by side.
pub fn fft_lane(
    a: &Vec<FieldElement>,
    omega: &FieldElement,
    log_n: u32,
    log_cpus: u32,
    j: usize,
) -> (out: Vec<FieldElement>)
    requires
        a@.len() == pow2(log_n as nat),
        all_wf(a@),
        omega.wf(),
        primitive_root(omega@, log_n as nat),
        log_cpus <= log_n,
        j < pow2(log_cpus as nat),
    ensures
        is_lane(
            out@,
            values(a@),
            omega@,
            pow2((log_n - log_cpus) as nat),
            pow2(log_cpus as nat),
            j as int,
        ),
{
    let ghost w = omega@;
    let ghost input = values(a@);
    let ghost l = log_n as nat;
    let n: usize = a.len();
    let log_new_n: u32 = log_n - log_cpus;
    proof {
        lemma_pow2_adds(log_cpus as nat, log_new_n as nat);
        lemma_pow2_pos(log_cpus as nat);
        lemma_pow2_pos(log_new_n as nat);
        assert(pow2(log_cpus as nat) <= pow2(l) && pow2(log_new_n as nat) <= pow2(l))
            by (nonlinear_arith)
            requires
                pow2(l) == pow2(log_cpus as nat) * pow2(log_new_n as nat),
                pow2(log_cpus as nat) >= 1,
                pow2(log_new_n as nat) >= 1,
        ;
    }
    let num_cpus: usize = pow2_usize(log_cpus);
    let n_sub: usize = pow2_usize(log_new_n);
    proof {
        assert(j * n_sub < n && j * n_sub >= 0) by (nonlinear_arith)
            requires
                j < num_cpus,
                n == num_cpus * n_sub,
                n_sub >= 1,
        ;
        if l > 0 {
            lemma_root_order(w, l);
        } else {
            lemma2_to64();
        }
        lemma_root_power_primitive(w, l, log_cpus as nat);
    }
    let new_omega = omega.pow(num_cpus as u64);
    let omega_j = omega.pow(j as u64);
    let omega_step = omega.pow((j * n_sub) as u64);
    let mut tmp: Vec<FieldElement> = Vec::new();
    let mut elt = FieldElement::one();
    let mut i: usize = 0;
    proof {
        assert(j * 0 == 0);
    }
    while i < n_sub
        invariant
            i <= n_sub,
            n == num_cpus * n_sub,
            n == pow2(l),
            a@.len() == n,
            all_wf(a@),
            input == values(a@),
            w == omega@,
            j < num_cpus,
            l == 0 ==> j == 0,
            l > 0 ==> pow_mod(w, n as nat) == 1,
            omega_j.wf(),
            omega_j@ == pow_mod(w, j as nat),
            omega_step.wf(),
            omega_step@ == pow_mod(w, (j * n_sub) as nat),
            elt.wf(),
            elt@ == pow_mod(w, (j * i) as nat),
            tmp@.len() == i,
            all_wf(tmp@),
            forall|i0: int|
                0 <= i0 < i ==> (#[trigger] tmp@[i0])@ == sum_mod(
                    lane_terms(input, w, n_sub as nat, j as nat, i0),
                    num_cpus as nat,
                ),
        decreases n_sub - i,
    {
        let ghost terms = lane_terms(input, w, n_sub as nat, j as nat, i as int);
        let mut acc = FieldElement::zero();
        let mut s: usize = 0;
        proof {
            assert(i + 0 * n_sub == i);
        }
        while s < num_cpus
            invariant
                s <= num_cpus,
                i < n_sub,
                n == num_cpus * n_sub,
                a@.len() == n,
                all_wf(a@),
                input == values(a@),
                terms == lane_terms(input, w, n_sub as nat, j as nat, i as int),
                omega_step.wf(),
                omega_step@ == pow_mod(w, (j * n_sub) as nat),
                elt.wf(),
                elt@ == pow_mod(w, (j * (i + s * n_sub)) as nat),
                acc.wf(),
                acc@ == sum_mod(terms, s as nat),
            decreases num_cpus - s,
        {
            proof {
                assert(i + s * n_sub < n && s * n_sub >= 0 && (s + 1) * n_sub == s * n_sub + n_sub)
                    by (nonlinear_arith)
                    requires
                        s < num_cpus,
                        i < n_sub,
                        n == num_cpus * n_sub,
                ;
                assert(j * (i + (s + 1) * n_sub) == j * (i + s * n_sub) + j * n_sub)
                    by (nonlinear_arith);
                assert(j * (i + s * n_sub) >= 0 && j * n_sub >= 0) by (nonlinear_arith)
                    requires
                        s * n_sub >= 0,
                ;
                lemma_pow_mod_add(w, (j * (i + s * n_sub)) as nat, (j * n_sub) as nat);
            }
            let idx: usize = i + s * n_sub;
            let t = a[idx].mul(&elt);
            proof {
                assert(t@ == terms(s as int));
            }
            acc = acc.add(&t);
            elt = elt.mul(&omega_step);
            s += 1;
        }
        tmp.push(acc);
        proof {
            // The twiddle has gone once round: w^(j * (i + n)) == w^(j * i).
            assert(j * (i + num_cpus * n_sub) == j * i + j * n && j * i >= 0 && j * (i + 1) == j
                * i + j) by (nonlinear_arith)
                requires
                    n == num_cpus * n_sub,
            ;
            if j > 0 {
                lemma_pow_mod_wrap(w, n as nat, (j * i) as nat, j as nat);
            }
            lemma_pow_mod_add(w, (j * i) as nat, j as nat);
        }
        elt = elt.mul(&omega_j);
        i += 1;
    }
    proof {
        assert(values(tmp@) =~= lane_input(input, w, n_sub as nat, num_cpus as nat, j as nat));
    }
    serial_fft(&mut tmp, &new_omega, log_new_n);
    proof {
        assert forall|k: int| 0 <= k < tmp@.len() implies (#[trigger] tmp@[k])@ == dft_at(
            input,
            w,
            j + k * pow2(log_cpus as nat),
        ) by {
            lemma_lane_output(input, w, n_sub as nat, num_cpus as nat, j as nat, k as nat);
            assert(tmp@[k]@ == values(tmp@)[k]);
        }
    }
    tmp
}

/// `rayon`'s parallel `map` over the lane numbers `0..num_cpus`, gathered by
/// `collect_into_vec`. Claimed: the vector holds, in the order of the lane
/// numbers, what [`fft_lane`] returned for each of them, so every entry is
/// as `fft_lane` ensures.
#[verifier::external_body]
fn run_lanes(
    a: &Vec<FieldElement>,
    omega: &FieldElement,
    log_n: u32,
    log_cpus: u32,
    num_cpus: usize,
) -> (lanes: Vec<Vec<FieldElement>>)
    requires
        a@.len() == pow2(log_n as nat),
        all_wf(a@),
        omega.wf(),
        primitive_root(omega@, log_n as nat),
        log_cpus <= log_n,
        num_cpus == pow2(log_cpus as nat),
    ensures
        lanes@.len() == num_cpus,
        forall|j: int|
            0 <= j < num_cpus ==> is_lane(
                (#[trigger] lanes@[j])@,
                values(a@),
                omega@,
                pow2((log_n - log_cpus) as nat),
                pow2(log_cpus as nat),
                j,
            ),
{
    let mut lanes = Vec::new();
    (0..num_cpus).into_par_iter().map(|j| fft_lane(a, omega, log_n, log_cpus, j)).collect_into_vec(
        &mut lanes,
    );
    lanes
}

/// Transforms `a` in place as [`serial_fft`] does, by way of `2^log_cpus`
/// lanes of `2^(log_n - log_cpus)` entries each.
pub fn parallel_fft(a: &mut Vec<FieldElement>, omega: &FieldElement, log_n: u32, log_cpus: u32)
    requires
        old(a)@.len() == pow2(log_n as nat),
        all_wf(old(a)@),
        omega.wf(),
        primitive_root(omega@, log_n as nat),
        log_cpus <= log_n,
    ensures
        final(a)@.len() == old(a)@.len(),
        all_wf(final(a)@),
        values(final(a)@) == dft(values(old(a)@), omega@),
{
    let ghost input = values(a@);
    let ghost w = omega@;
    let ghost l = log_n as nat;
    let n: usize = a.len();
    proof {
        lemma_pow2_adds(log_cpus as nat, (log_n - log_cpus) as nat);
        lemma_pow2_pos(log_cpus as nat);
        lemma_pow2_pos((log_n - log_cpus) as nat);
        assert(pow2(log_cpus as nat) <= pow2(l)) by (nonlinear_arith)
            requires
                pow2(l) == pow2(log_cpus as nat) * pow2((log_n - log_cpus) as nat),
                pow2(log_cpus as nat) >= 1,
                pow2((log_n - log_cpus) as nat) >= 1,
        ;
    }
    let num_cpus: usize = pow2_usize(log_cpus);
    let ghost n_sub = pow2((log_n - log_cpus) as nat);
    let tmp = run_lanes(a, omega, log_n, log_cpus, num_cpus);
    let mut idx: usize = 0;
    while idx < n
        invariant
            idx <= n,
            n == num_cpus * n_sub,
            num_cpus >= 1,
            a@.len() == n,
            input.len() == n,
            all_wf(a@),
            tmp@.len() == num_cpus,
            forall|j0: int|
                0 <= j0 < num_cpus ==> is_lane(
                    (#[trigger] tmp@[j0])@,
                    input,
                    w,
                    n_sub,
                    num_cpus as nat,
                    j0,
                ),
            forall|i: int| 0 <= i < idx ==> (#[trigger] a@[i])@ == dft_at(input, w, i),
        decreases n - idx,
    {
        let lane: usize = idx % num_cpus;
        let pos: usize = idx / num_cpus;
        proof {
            vstd::arithmetic::div_mod::lemma_fundamental_div_mod(idx as int, num_cpus as int);
            assert(pos < n_sub) by (nonlinear_arith)
                requires
                    idx == num_cpus * pos + lane,
                    idx < num_cpus * n_sub,
                    lane >= 0,
                    num_cpus >= 1,
            ;
            assert(num_cpus * pos == pos * num_cpus) by (nonlinear_arith);
            assert(is_lane(tmp@[lane as int]@, input, w, n_sub, num_cpus as nat, lane as int));
        }
        let v = tmp[lane][pos];
        a.set(idx, v);
        idx += 1;
    }
    proof {
        assert(values(a@) =~= dft(input, w));
    }
}

/// The dispatch rule: the plain transform where there are no more entries
/// than lanes, the decomposed one above that.
pub fn fft_with_lanes(a: &mut Vec<FieldElement>, omega: &FieldElement, log_n: u32, log_cpus: u32)
    requires
        old(a)@.len() == pow2(log_n as nat),
        all_wf(old(a)@),
        omega.wf(),
        primitive_root(omega@, log_n as nat),
    ensures
        final(a)@.len() == old(a)@.len(),
        all_wf(final(a)@),
        values(final(a)@) == dft(values(old(a)@), omega@),
{
    if log_n <= log_cpus {
        serial_fft(a, omega, log_n);
    } else {
        parallel_fft(a, omega, log_n, log_cpus);
    }
}

/// The whole part of the binary logarithm of `x`; 0 for `x == 0`.
pub fn log2(x: u64) -> (r: u32)
    ensures
        r < 64,
        x >= 1 ==> pow2(r as nat) <= x && x / 2 < pow2(r as nat),
        x == 0 ==> r == 0,
{
    let mut r: u32 = 0;
    let mut rest: u64 = x;
    let ghost mut scale: nat = 1;
    proof {
        lemma2_to64();
        lemma2_to64_rest();
    }
    while rest > 1
        invariant
            r < 64,
            scale == pow2(r as nat),
            x >= 1 ==> rest >= 1,
            x == 0 ==> r == 0,
            rest <= x,
            rest * scale <= x,
            x < (rest + 1) * scale,
            pow2(63) == 0x8000_0000_0000_0000,
        decreases rest,
    {
        proof {
            lemma_pow2_unfold((r + 1) as nat);
            assert((rest / 2) * (2 * scale) <= x && x < (rest / 2 + 1) * (2 * scale))
                by (nonlinear_arith)
                requires
                    rest * scale <= x,
                    x < (rest + 1) * scale,
                    rest >= 2,
            ;
            if r >= 63 {
                if r > 63 {
                    lemma_pow2_strictly_increases(63, r as nat);
                }
                assert(rest * scale >= 0x1_0000_0000_0000_0000) by (nonlinear_arith)
                    requires
                        rest >= 2,
                        scale >= 0x8000_0000_0000_0000,
                ;
            }
            scale = 2 * scale;
        }
        rest = rest / 2;
        r += 1;
    }
    proof {
        if x >= 1 {
            assert(rest == 1);
            assert(1 * scale == scale && 2 * scale == (rest + 1) * scale) by (nonlinear_arith)
                requires
                    rest == 1,
            ;
        }
    }
    r
}

/// `rayon::current_num_threads`: the number of threads in the current pool.
/// Nothing is claimed of the number.
#[verifier::external_body]
fn lane_count() -> (r: usize) {
    rayon::current_num_threads()
}

/// Transforms `a` in place, by whichever of [`serial_fft`] and
/// [`parallel_fft`] the number of lanes at hand calls for.
pub fn best_fft(a: &mut Vec<FieldElement>, omega: &FieldElement, log_n: u32)
    requires
        old(a)@.len() == pow2(log_n as nat),
        all_wf(old(a)@),
        omega.wf(),
        primitive_root(omega@, log_n as nat),
    ensures
        final(a)@.len() == old(a)@.len(),
        all_wf(final(a)@),
        values(final(a)@) == dft(values(old(a)@), omega@),
{
    let log_cpus: u32 = log2(lane_count() as u64);
    fft_with_lanes(a, omega, log_n, log_cpus);
}

} // verus!
