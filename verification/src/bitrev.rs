//! Bit reversal of an index, the permutation that a decimation-in-time
//! transform starts with.

use vstd::prelude::*;
use vstd::arithmetic::div_mod::{
    lemma_fundamental_div_mod,
    lemma_fundamental_div_mod_converse,
    lemma_mod_bound,
};
use vstd::arithmetic::power2::{lemma_pow2_pos, lemma_pow2_unfold, pow2};

verus! {

/// The number whose `l` binary digits are those of `k` in reverse order.
/// Bit 0 of `k` becomes bit `l - 1` of the result.
pub open spec fn bit_reverse(l: nat, k: nat) -> nat
    decreases l,
{
    if l == 0 {
        0
    } else {
        (k % 2) * pow2((l - 1) as nat) + bit_reverse((l - 1) as nat, k / 2)
    }
}

/// The reversal of `l` bits is below `2^l`.
pub proof fn lemma_bit_reverse_bound(l: nat, k: nat)
    ensures
        bit_reverse(l, k) < pow2(l),
    decreases l,
{
    lemma_pow2_pos(l);
    if l > 0 {
        let l1 = (l - 1) as nat;
        lemma_bit_reverse_bound(l1, k / 2);
        lemma_pow2_unfold(l);
        assert((k % 2) * pow2(l1) <= pow2(l1)) by (nonlinear_arith)
            requires
                k % 2 <= 1,
        ;
    }
}

/// Twice an index reverses to the reversal of the index in one bit less.
pub proof fn lemma_bit_reverse_even(l: nat, q: nat)
    requires
        l > 0,
    ensures
        bit_reverse(l, 2 * q) == bit_reverse((l - 1) as nat, q),
{
    assert((2 * q) % 2 == 0);
    assert((2 * q) / 2 == q);
    assert(0 * pow2((l - 1) as nat) == 0);
}

/// Twice an index plus one reverses to the same with the top bit set.
pub proof fn lemma_bit_reverse_odd(l: nat, q: nat)
    requires
        l > 0,
    ensures
        bit_reverse(l, 2 * q + 1) == pow2((l - 1) as nat) + bit_reverse((l - 1) as nat, q),
{
    assert((2 * q + 1) % 2 == 1);
    assert((2 * q + 1) / 2 == q);
    assert(1 * pow2((l - 1) as nat) == pow2((l - 1) as nat));
}

/// Halving an index below `2^l` halves what is left of it below `2^(l - 1)`,
/// and leaves its top bit.
proof fn lemma_half_parts(l: nat, k: nat)
    requires
        l >= 2,
        k < pow2(l),
    ensures
        (k % pow2((l - 1) as nat)) / 2 == (k / 2) % pow2((l - 2) as nat),
        (k % pow2((l - 1) as nat)) % 2 == k % 2,
        (k / 2) / pow2((l - 2) as nat) == k / pow2((l - 1) as nat),
        k / 2 < pow2((l - 1) as nat),
{
    let h = pow2((l - 1) as nat);
    let g = pow2((l - 2) as nat);
    lemma_pow2_unfold(l);
    lemma_pow2_unfold((l - 1) as nat);
    lemma_pow2_pos((l - 2) as nat);
    let t = k / h;
    let r = k % h;
    lemma_fundamental_div_mod(k as int, h as int);
    lemma_mod_bound(k as int, h as int);
    // k == h * t + r, h == 2 * g
    assert(k == 2 * (g * t) + r) by (nonlinear_arith)
        requires
            k == h * t + r,
            h == 2 * g,
    ;
    assert(k / 2 == g * t + r / 2);
    assert(k % 2 == r % 2);
    assert(0 <= r / 2 < g);
    lemma_fundamental_div_mod_converse((k / 2) as int, g as int, t as int, (r / 2) as int);
}

/// Bit reversal, read from the top bit down: the top bit of `k` becomes bit 0
/// of the result.
pub proof fn lemma_bit_reverse_high(l: nat, k: nat)
    requires
        l > 0,
        k < pow2(l),
    ensures
        bit_reverse(l, k) == 2 * bit_reverse((l - 1) as nat, k % pow2((l - 1) as nat)) + k / pow2(
            (l - 1) as nat,
        ),
    decreases l,
{
    let l1 = (l - 1) as nat;
    lemma_pow2_pos(l1);
    if l == 1 {
        assert(pow2(0) == 1) by {
            vstd::arithmetic::power2::lemma2_to64();
        }
        lemma_pow2_unfold(1);
        assert(k < 2);
        assert(k / 1 == k);
        assert(k % 2 == k);
        assert(bit_reverse(0, k / 2) == 0);
        assert(bit_reverse(0, k % 1) == 0);
        assert(k * 1 == k);
    } else {
        let l2 = (l - 2) as nat;
        let h = pow2(l1);
        let g = pow2(l2);
        lemma_pow2_unfold(l1);
        lemma_half_parts(l, k);
        lemma_bit_reverse_high(l1, k / 2);
        // bit_reverse(l, k) == (k % 2) * h + bit_reverse(l1, k / 2)
        //                   == (k % 2) * h + 2 * bit_reverse(l2, (k / 2) % g) + (k / 2) / g
        let low = k % h;
        // bit_reverse(l1, low) == (low % 2) * g + bit_reverse(l2, low / 2)
        assert(bit_reverse(l1, low) == (low % 2) * g + bit_reverse(l2, low / 2));
        assert((k % 2) * h == 2 * ((k % 2) * g)) by (nonlinear_arith)
            requires
                h == 2 * g,
        ;
    }
}

/// Reversing twice gives the index back.
pub proof fn lemma_bit_reverse_involution(l: nat, k: nat)
    requires
        k < pow2(l),
    ensures
        bit_reverse(l, bit_reverse(l, k)) == k,
    decreases l,
{
    if l == 0 {
        assert(pow2(0) == 1) by {
            vstd::arithmetic::power2::lemma2_to64();
        }
    } else {
        let l1 = (l - 1) as nat;
        let h = pow2(l1);
        lemma_pow2_pos(l1);
        lemma_pow2_unfold(l);
        let b = k % 2;
        let rest = bit_reverse(l1, k / 2);
        let r = bit_reverse(l, k);
        assert(r == b * h + rest);
        lemma_bit_reverse_bound(l1, k / 2);
        lemma_bit_reverse_bound(l, k);
        lemma_bit_reverse_involution(l1, k / 2);
        lemma_bit_reverse_high(l, r);
        assert(b * h + rest == h * b + rest) by (nonlinear_arith);
        lemma_fundamental_div_mod_converse(r as int, h as int, b as int, rest as int);
        assert(r % h == rest);
        assert(r / h == b);
    }
}

/// Reverses the lowest `l` bits of `n`.
pub fn bitreverse(n: usize, l: u32) -> (r: usize)
    requires
        n < pow2(l as nat),
        pow2(l as nat) <= usize::MAX,
    ensures
        r == bit_reverse(l as nat, n as nat),
        r < pow2(l as nat),
{
    let mut r: usize = 0;
    let mut rest: usize = n;
    let mut i: u32 = 0;
    proof {
        assert(pow2(0) == 1) by {
            vstd::arithmetic::power2::lemma2_to64();
        }
        assert(0 * pow2(l as nat) == 0);
    }
    while i < l
        invariant
            i <= l,
            pow2(l as nat) <= usize::MAX,
            r < pow2(i as nat),
            rest < pow2((l - i) as nat),
            bit_reverse(l as nat, n as nat) == r * pow2((l - i) as nat) + bit_reverse(
                (l - i) as nat,
                rest as nat,
            ),
        decreases l - i,
    {
        proof {
            let d = (l - i) as nat;
            let d1 = (l - i - 1) as nat;
            lemma_pow2_unfold(d);
            lemma_pow2_unfold((i + 1) as nat);
            lemma_pow2_pos(d1);
            assert(pow2((i + 1) as nat) <= pow2(l as nat)) by {
                if i + 1 < l {
                    vstd::arithmetic::power2::lemma_pow2_strictly_increases(
                        (i + 1) as nat,
                        l as nat,
                    );
                }
            }
            assert(bit_reverse(d, rest as nat) == (rest % 2) * pow2(d1) + bit_reverse(
                d1,
                (rest / 2) as nat,
            ));
            assert(r * pow2(d) + (rest % 2) * pow2(d1) == (2 * r + rest % 2) * pow2(d1))
                by (nonlinear_arith)
                requires
                    pow2(d) == 2 * pow2(d1),
            ;
        }
        r = r * 2 + rest % 2;
        rest = rest / 2;
        i += 1;
    }
    proof {
        assert(pow2(0) == 1) by {
            vstd::arithmetic::power2::lemma2_to64();
        }
        assert(r * 1 == r);
    }
    r
}

} // verus!
