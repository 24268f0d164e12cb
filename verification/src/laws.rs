//! Laws that hold across the operations: round trips through extension,
//! truncation and concatenation, the behaviour of the new high bits under
//! sign extension, and the idempotence of equal-width extension. Each is
//! stated over the same spec functions the operations' contracts use.

use vstd::prelude::*;
use vstd::arithmetic::power2::pow2;
use vstd::arithmetic::power2::lemma2_to64;
use vstd::arithmetic::power2::lemma_pow2_adds;
use vstd::arithmetic::power2::lemma_pow2_pos;
use vstd::arithmetic::div_mod::lemma_basic_div;
use vstd::arithmetic::div_mod::lemma_div_basics;
use vstd::arithmetic::div_mod::lemma_fundamental_div_mod;
use vstd::arithmetic::div_mod::lemma_fundamental_div_mod_converse;
use vstd::arithmetic::div_mod::lemma_multiply_divide_lt;
use vstd::arithmetic::div_mod::lemma_small_mod;
use vstd::arithmetic::mul::lemma_mul_is_distributive_sub_other_way;

use crate::model::{bits_of, cat_val, sign_extended};

verus! {

/// Concatenating exactly two vectors places the first above the second:
/// the result is the first value shifted past the second's width, plus the
/// second value.
pub proof fn lemma_cat_val_pair(a: &crate::Bit, b: &crate::Bit)
    ensures
        cat_val(seq![a, b]) == a.val() * pow2(b.width()) as int + b.val(),
{
    let s = seq![a, b];
    assert(s.drop_last() =~= seq![a]);
    assert(seq![a].drop_last() =~= Seq::<&crate::Bit>::empty());
    assert(cat_val(Seq::<&crate::Bit>::empty()) == 0);
    assert(cat_val(seq![a]) == a.val());
}

/// Widening never disturbs the value: a zero extension keeps the value as
/// it is, so truncating the widened vector back to the original width's
/// bits reproduces the value exactly.
pub proof fn lemma_round_trip_extension(v: int, w1: nat, w2: nat)
    requires
        1 <= w1 <= w2,
        0 <= v < pow2(w1),
    ensures
        bits_of(v, (w1 - 1) as nat, 0) == v,
{
    lemma2_to64();
    lemma_div_basics(v);
    lemma_small_mod(v as nat, pow2(w1));
}

/// After a sign extension from width `w` to a strictly larger width `nw`,
/// the new high bits are all ones when the original top bit was set, and
/// all zeros when it was clear.
pub proof fn lemma_sign_extend_high_bits(v: int, w: nat, nw: nat)
    requires
        1 <= w < nw,
        0 <= v < pow2(w),
    ensures
        bits_of(sign_extended(v, w, nw), (nw - 1) as nat, w) == if v >= pow2((w - 1) as nat) {
            pow2((nw - w) as nat) - 1
        } else {
            0int
        },
{
    let p = pow2(w) as int;
    let q = pow2((nw - w) as nat) as int;
    lemma_pow2_pos(w);
    lemma_pow2_pos((nw - w) as nat);
    lemma_pow2_adds(w, (nw - w) as nat);
    let s = sign_extended(v, w, nw);
    if v >= pow2((w - 1) as nat) {
        lemma_mul_is_distributive_sub_other_way(p, q, 1);
        assert(s == (q - 1) * p + v);
        lemma_fundamental_div_mod_converse(s, p, q - 1, v);
        assert(s / p == q - 1);
        lemma_small_mod((q - 1) as nat, q as nat);
    } else {
        assert(s == v);
        lemma_basic_div(v, p);
        lemma_small_mod(0, q as nat);
    }
}

/// Splitting a width-`n` value at any point `k` and concatenating the two
/// slices reconstructs it: the upper slice, re-shifted past the lower
/// slice's `k` bits, plus the lower slice is the original value.
pub proof fn lemma_truncate_round_trip(v: int, n: nat, k: nat)
    requires
        1 <= k < n,
        0 <= v < pow2(n),
    ensures
        bits_of(v, (n - 1) as nat, k) * pow2(k) as int + bits_of(v, (k - 1) as nat, 0) == v,
{
    let p = pow2(k) as int;
    lemma_pow2_pos(k);
    lemma_pow2_pos((n - k) as nat);
    lemma_pow2_adds(k, (n - k) as nat);
    lemma_multiply_divide_lt(v, p, pow2((n - k) as nat) as int);
    vstd::arithmetic::div_mod::lemma_div_pos_is_pos(v, p);
    lemma_small_mod((v / p) as nat, pow2((n - k) as nat));
    assert(bits_of(v, (n - 1) as nat, k) == v / p);
    lemma2_to64();
    lemma_div_basics(v);
    assert(bits_of(v, (k - 1) as nat, 0) == v % p);
    lemma_fundamental_div_mod(v, p);
}

/// Extending a vector to its own width is a no-op for both extensions:
/// a zero extension keeps the value by definition, and a sign extension to
/// the same width adds nothing.
pub proof fn lemma_extension_same_width(v: int, w: nat)
    requires
        1 <= w,
        0 <= v < pow2(w),
    ensures
        sign_extended(v, w, w) == v,
{
}

} // verus!
