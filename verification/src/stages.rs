//! What the buffer of an in-place decimation-in-time transform holds after
//! each of its stages.
//!
//! After `s` stages the buffer consists of blocks of `2^s` entries. Block `q`
//! holds the transform of the `2^s` input entries whose index, in its lowest
//! `log_n - s` bits, is the bit reversal of `q`.

use vstd::prelude::*;
use vstd::arithmetic::div_mod::lemma_fundamental_div_mod_converse;
use vstd::arithmetic::power2::{
    lemma2_to64,
    lemma_pow2_adds,
    lemma_pow2_pos,
    lemma_pow2_unfold,
    pow2,
};
use crate::bitrev::{
    bit_reverse,
    lemma_bit_reverse_bound,
    lemma_bit_reverse_even,
    lemma_bit_reverse_odd,
};
use crate::dft::{dft_at, evens, lemma_butterfly, lemma_square_is_pow, odds, reduced};
use crate::field::{add_mod, modulus, mul_mod, pow_mod, sub_mod};
use crate::ring::{
    lemma_add_mod_zero,
    lemma_mul_mod_one,
    lemma_pow_mod_bound,
    lemma_pow_mod_mul,
    lemma_pow_mod_one,
    neg_mod,
};
use crate::sums::sum_mod;

verus! {

/// The `len` entries of `a` at `c`, `c + stride`, `c + 2 * stride`, ...
pub open spec fn decimate(a: Seq<nat>, c: nat, stride: nat, len: nat) -> Seq<nat> {
    Seq::new(len, |u: int| a[c + u * stride])
}

/// The entry `idx` of the buffer after `s` stages of the transform of `a`
/// with the root `w`, where `a` has `2^log_n` entries.
pub open spec fn stage_at(a: Seq<nat>, w: nat, log_n: nat, s: nat, idx: int) -> nat {
    let size = pow2(s);
    let stride = pow2((log_n - s) as nat);
    dft_at(
        decimate(a, bit_reverse((log_n - s) as nat, (idx / (size as int)) as nat), stride, size),
        pow_mod(w, stride),
        idx % (size as int),
    )
}

/// The buffer after `s` stages.
pub open spec fn stage(a: Seq<nat>, w: nat, log_n: nat, s: nat) -> Seq<nat> {
    Seq::new(a.len(), |idx: int| stage_at(a, w, log_n, s, idx))
}

/// Before the first stage the buffer is the input in bit-reversed order.
pub proof fn lemma_stage_first(a: Seq<nat>, w: nat, log_n: nat, idx: int)
    requires
        reduced(a),
        a.len() == pow2(log_n),
        0 <= idx < a.len(),
    ensures
        bit_reverse(log_n, idx as nat) < a.len(),
        stage_at(a, w, log_n, 0, idx) == a[bit_reverse(log_n, idx as nat) as int],
{
    lemma2_to64();
    let br = bit_reverse(log_n, idx as nat);
    lemma_bit_reverse_bound(log_n, idx as nat);
    let stride = pow2(log_n);
    let x = decimate(a, br, stride, 1);
    let z = pow_mod(w, stride);
    let f = |j: int| mul_mod(x[j], pow_mod(z, (0 * j) as nat));
    assert(sum_mod(f, 1) == add_mod(sum_mod(f, 0), f(0)));
    assert(0 * stride == 0);
    assert(x[0] == a[br as int]);
    assert(f(0) == mul_mod(a[br as int], 1));
    lemma_mul_mod_one(a[br as int]);
    lemma_add_mod_zero(a[br as int]);
}

/// After the last stage the buffer is the transform.
pub proof fn lemma_stage_last(a: Seq<nat>, w: nat, log_n: nat, idx: int)
    requires
        a.len() == pow2(log_n),
        w < modulus(),
        0 <= idx < a.len(),
    ensures
        stage_at(a, w, log_n, log_n, idx) == dft_at(a, w, idx),
{
    lemma2_to64();
    let n = pow2(log_n);
    lemma_fundamental_div_mod_converse(idx, n as int, 0, idx);
    let x = decimate(a, 0, 1, n);
    assert(x =~= a) by {
        assert forall|u: int| 0 <= u < n implies x[u] == a[u] by {
            assert(u * 1 == u);
        }
    }
    lemma_pow_mod_one(w);
}

/// The entries of a decimated sequence at even places are the sequence
/// decimated with twice the stride.
proof fn lemma_decimate_evens(a: Seq<nat>, c: nat, stride: nat, m: nat)
    ensures
        evens(decimate(a, c, stride, 2 * m)) =~= decimate(a, c, 2 * stride, m),
{
    let x = decimate(a, c, stride, 2 * m);
    assert forall|u: int| 0 <= u < m implies evens(x)[u] == decimate(a, c, 2 * stride, m)[u] by {
        assert((2 * u) * stride == u * (2 * stride)) by (nonlinear_arith);
    }
}

proof fn lemma_decimate_odds(a: Seq<nat>, c: nat, stride: nat, m: nat)
    ensures
        odds(decimate(a, c, stride, 2 * m)) =~= decimate(a, c + stride, 2 * stride, m),
{
    let x = decimate(a, c, stride, 2 * m);
    assert forall|u: int| 0 <= u < m implies odds(x)[u] == decimate(
        a,
        c + stride,
        2 * stride,
        m,
    )[u] by {
        assert(c + (2 * u + 1) * stride == c + stride + u * (2 * stride)) by (nonlinear_arith);
    }
}

/// One butterfly of stage `s + 1`. With `m = 2^s`, block `b` of `2 * m`
/// entries, and `j < m`, the entries `j` and `j + m` of the block are the sum
/// and the difference of the entry `j` of its lower half and the twiddled
/// entry `j` of its upper half, as they stood after stage `s`.
pub proof fn lemma_stage_step(a: Seq<nat>, w: nat, log_n: nat, s: nat, b: nat, j: nat)
    requires
        s < log_n,
        w < modulus(),
        pow_mod(w, pow2((log_n - 1) as nat)) == neg_mod(1),
        j < pow2(s),
    ensures
        ({
            let m = pow2(s) as int;
            let k = b * (2 * m);
            let twiddle = pow_mod(pow_mod(w, pow2((log_n - s - 1) as nat)), j);
            let lower = stage_at(a, w, log_n, s, k + j);
            let upper = stage_at(a, w, log_n, s, k + j + m);
            &&& stage_at(a, w, log_n, s + 1, k + j) == add_mod(lower, mul_mod(upper, twiddle))
            &&& stage_at(a, w, log_n, s + 1, k + j + m) == sub_mod(lower, mul_mod(upper, twiddle))
        }),
{
    let m = pow2(s);
    let k = (b * (2 * m)) as int;
    let l1 = (log_n - s - 1) as nat;
    let l0 = (log_n - s) as nat;
    let stride1 = pow2(l1);
    let stride0 = pow2(l0);
    lemma_pow2_pos(s);
    lemma_pow2_unfold(s + 1);
    lemma_pow2_unfold(l0);
    let z = pow_mod(w, stride1);
    lemma_pow_mod_bound(w, stride1);
    // Where the four entries lie.
    assert(k == (2 * m) * b && k == m * (2 * b) && k + m == m * (2 * b + 1)) by (nonlinear_arith)
        requires
            k == b * (2 * m),
    ;
    lemma_fundamental_div_mod_converse((k + j) as int, (2 * m) as int, b as int, j as int);
    lemma_fundamental_div_mod_converse(
        (k + j + m) as int,
        (2 * m) as int,
        b as int,
        (j + m) as int,
    );
    lemma_fundamental_div_mod_converse((k + j) as int, m as int, (2 * b) as int, j as int);
    lemma_fundamental_div_mod_converse(
        (k + j + m) as int,
        m as int,
        (2 * b + 1) as int,
        j as int,
    );
    // The block of stage s + 1 and its two halves.
    let c = bit_reverse(l1, b);
    let x = decimate(a, c, stride1, 2 * m);
    lemma_bit_reverse_even(l0, b);
    lemma_bit_reverse_odd(l0, b);
    lemma_decimate_evens(a, c, stride1, m);
    lemma_decimate_odds(a, c, stride1, m);
    // z^2 == w^stride0 and z^m == -1.
    lemma_square_is_pow(z);
    lemma_pow_mod_mul(w, stride1, 2);
    assert(stride1 * 2 == stride0);
    lemma_pow_mod_mul(w, stride1, m);
    lemma_pow2_adds(l1, s);
    assert(l1 + s == log_n - 1);
    lemma_butterfly(x, z, m, j);
}

} // verus!
