//! The mathematical model the contracts are stated over: minimum bit and
//! byte counts, the numbers byte strings denote, bit-range extraction,
//! sign extension, wraparound reduction, and concatenation, together with
//! the lemmas that relate them.

use vstd::prelude::*;
use vstd::arithmetic::power2::pow2;
use vstd::arithmetic::power2::lemma2_to64;
use vstd::arithmetic::power2::lemma_pow2_adds;
use vstd::arithmetic::power2::lemma_pow2_strictly_increases;
use vstd::arithmetic::power2::lemma_pow2_unfold;
use vstd::arithmetic::power2::lemma_pow2_pos;
use vstd::arithmetic::mul::lemma_mul_inequality;
use vstd::arithmetic::mul::lemma_mul_is_associative;
use vstd::arithmetic::mul::lemma_mul_is_distributive_add_other_way;
use vstd::arithmetic::div_mod::lemma_fundamental_div_mod_converse;

verus! {

/// The unsigned encoding a signed input is given before width checks: the
/// bitwise complement plus one of an infinite two's-complement encoding,
/// which at arbitrary precision is plain negation; a non-negative input is
/// kept as it is.
pub open spec fn unsigned_encoding(v: int) -> nat {
    if v < 0 {
        (-v) as nat
    } else {
        v as nat
    }
}

/// The fewest bits that can represent `v` in unsigned binary form,
/// counting zero as needing one bit.
pub open spec fn min_bits(v: nat) -> nat
    decreases v,
{
    if v < 2 {
        1
    } else {
        1 + min_bits(v / 2)
    }
}

/// The fewest whole bytes that can represent `v`, counting zero as one byte.
pub open spec fn min_bytes(v: nat) -> nat
    decreases v,
{
    if v < 256 {
        1
    } else {
        1 + min_bytes(v / 256)
    }
}

/// The number a big-endian byte string denotes: the last byte is the least
/// significant.
pub open spec fn be_val(s: Seq<u8>) -> nat
    decreases s.len(),
{
    if s.len() == 0 {
        0
    } else {
        be_val(s.drop_last()) * 256 + s.last() as nat
    }
}

/// The number a little-endian byte string denotes: the first byte is the
/// least significant.
pub open spec fn le_val(s: Seq<u8>) -> nat
    decreases s.len(),
{
    if s.len() == 0 {
        0
    } else {
        le_val(s.drop_last()) + s.last() as nat * pow2(8 * (s.len() - 1) as nat)
    }
}

/// The bits `[lower, upper]` of `v`, as a number: bit 0 is the least
/// significant.
pub open spec fn bits_of(v: int, upper: nat, lower: nat) -> int
    recommends
        lower <= upper,
{
    (v / pow2(lower) as int) % pow2((upper - lower + 1) as nat) as int
}

/// The value a width-`w` vector holding `v` takes when sign-extended to
/// width `nw`: unchanged when the top bit (bit `w - 1`) is clear, raised by
/// a run of ones in the new high bits when it is set.
pub open spec fn sign_extended(v: int, w: nat, nw: nat) -> int
    recommends
        1 <= w <= nw,
        0 <= v < pow2(w),
{
    if v < pow2((w - 1) as nat) {
        v
    } else {
        v + pow2(nw) - pow2(w)
    }
}

/// Powers of two do not decrease as the exponent grows.
pub proof fn lemma_pow2_le(e1: nat, e2: nat)
    requires
        e1 <= e2,
    ensures
        pow2(e1) <= pow2(e2),
{
    if e1 < e2 {
        lemma_pow2_strictly_increases(e1, e2);
    }
}

/// `min_bits` is characterised by the window `[pow2(w - 1), pow2(w))`, with
/// width one covering zero and one.
pub proof fn lemma_min_bits_exact(v: nat, w: nat)
    requires
        1 <= w,
        v < pow2(w),
        w == 1 || pow2((w - 1) as nat) <= v,
    ensures
        min_bits(v) == w,
    decreases w,
{
    if w == 1 {
        lemma_pow2_unfold(1);
        assert(pow2(0) == 1) by {
            vstd::arithmetic::power2::lemma2_to64();
        }
    } else {
        lemma_pow2_unfold(w);
        lemma_pow2_pos((w - 1) as nat);
        if w == 2 {
            assert(pow2(1) == 2) by {
                vstd::arithmetic::power2::lemma2_to64();
            }
        } else {
            lemma_pow2_unfold((w - 1) as nat);
            lemma_pow2_pos((w - 2) as nat);
        }
        assert(2 <= v);
        lemma_min_bits_exact(v / 2, (w - 1) as nat);
    }
}

/// Both bounds that `min_bits` promises of its argument.
pub proof fn lemma_min_bits_props(v: nat)
    ensures
        1 <= min_bits(v),
        v < pow2(min_bits(v)),
        min_bits(v) == 1 || pow2((min_bits(v) - 1) as nat) <= v,
    decreases v,
{
    if v < 2 {
        assert(pow2(1) == 2) by {
            vstd::arithmetic::power2::lemma2_to64();
        }
    } else {
        lemma_min_bits_props(v / 2);
        let m = min_bits(v / 2);
        lemma_pow2_unfold((m + 1) as nat);
        if m > 1 {
            lemma_pow2_unfold(m);
        } else {
            assert(pow2(1) == 2) by {
                vstd::arithmetic::power2::lemma2_to64();
            }
            assert(pow2(0) == 1) by {
                vstd::arithmetic::power2::lemma2_to64();
            }
        }
    }
}

/// The larger of two widths.
pub open spec fn max_nat(a: nat, b: nat) -> nat {
    if a >= b {
        a
    } else {
        b
    }
}

/// Hardware-style wraparound: a raw result over the integers, reduced
/// modulo `pow2(width)`; a negative raw result wraps to the top of the
/// range.
pub open spec fn wrapped(raw: int, width: nat) -> int {
    raw % pow2(width) as int
}

/// The number a list of vectors denotes when laid end to end, the first
/// occupying the most significant position.
pub open spec fn cat_val(s: Seq<&crate::Bit>) -> int
    decreases s.len(),
{
    if s.len() == 0 {
        0
    } else {
        cat_val(s.drop_last()) * pow2(s.last().width()) as int + s.last().val()
    }
}

/// The total width of a list of vectors laid end to end.
pub open spec fn cat_len(s: Seq<&crate::Bit>) -> nat
    decreases s.len(),
{
    if s.len() == 0 {
        0
    } else {
        cat_len(s.drop_last()) + s.last().width()
    }
}

/// A prefix of a list never has more total width than the whole list.
pub proof fn lemma_cat_len_prefix(s: Seq<&crate::Bit>, i: int)
    requires
        0 <= i <= s.len(),
    ensures
        cat_len(s.subrange(0, i)) <= cat_len(s),
    decreases s.len(),
{
    if i == s.len() {
        assert(s.subrange(0, i) =~= s);
    } else {
        assert(s.drop_last().subrange(0, i) =~= s.subrange(0, i));
        lemma_cat_len_prefix(s.drop_last(), i);
    }
}

/// A minimal little-endian representation of a number below `pow2(32)`
/// has at most four bytes.
pub proof fn lemma_le_bytes_len(s: Seq<u8>)
    requires
        s.len() >= 1,
        s.len() > 1 ==> s.last() != 0,
        le_val(s) < pow2(32),
    ensures
        s.len() <= 4,
{
    if s.len() > 4 {
        let e = 8 * (s.len() - 1) as nat;
        lemma_pow2_pos(e);
        lemma_mul_inequality(1, s.last() as int, pow2(e) as int);
        lemma_pow2_le(32, e);
        assert(le_val(s) >= pow2(e));
        assert(false);
    }
}

/// A byte string of length `n` denotes a number below `pow2(8 * n)`.
pub proof fn lemma_be_val_bound(s: Seq<u8>)
    ensures
        be_val(s) < pow2(8 * s.len()),
    decreases s.len(),
{
    if s.len() == 0 {
        lemma2_to64();
    } else {
        let n = s.len();
        lemma_be_val_bound(s.drop_last());
        lemma_pow2_adds(8 * (n - 1) as nat, 8);
        lemma2_to64();
    }
}

/// A big-endian value splits into its first (most significant) byte and the
/// value of the rest.
pub proof fn lemma_be_val_split_first(s: Seq<u8>)
    requires
        s.len() >= 1,
    ensures
        be_val(s) == s[0] as nat * pow2(8 * (s.len() - 1) as nat) + be_val(
            s.subrange(1, s.len() as int),
        ),
    decreases s.len(),
{
    let n = s.len();
    let t = s.subrange(1, n as int);
    if n == 1 {
        assert(s.drop_last() =~= Seq::<u8>::empty());
        assert(t =~= Seq::<u8>::empty());
        assert(be_val(Seq::<u8>::empty()) == 0);
        lemma2_to64();
        assert(be_val(s) == s[0] as nat);
        assert(s[0] as nat * pow2(0) == s[0] as nat);
        assert(be_val(s) == s[0] as nat * pow2(8 * (s.len() - 1) as nat) + be_val(
            s.subrange(1, s.len() as int),
        ));
    } else {
        let dl = s.drop_last();
        lemma_be_val_split_first(dl);
        assert(dl.subrange(1, dl.len() as int) =~= t.drop_last());
        assert(t.last() == s.last());
        assert(be_val(s) == be_val(dl) * 256 + s.last() as nat);
        assert(be_val(dl) == s[0] as nat * pow2(8 * (n - 2) as nat) + be_val(t.drop_last()));
        assert(be_val(t) == be_val(t.drop_last()) * 256 + t.last() as nat);
        lemma_pow2_adds(8 * (n - 2) as nat, 8);
        lemma2_to64();
        lemma_mul_is_distributive_add_other_way(
            256,
            (s[0] as nat * pow2(8 * (n - 2) as nat)) as int,
            be_val(t.drop_last()) as int,
        );
        lemma_mul_is_associative(s[0] as int, pow2(8 * (n - 2) as nat) as int, 256);
        assert(s[0] as nat * pow2(8 * (n - 2) as nat) * 256 == s[0] as nat * pow2(
            8 * (n - 1) as nat,
        ));
    }
}

/// The byte count of a minimal big-endian representation (no leading zero
/// byte unless it is the only byte) is exactly `min_bytes` of its value.
pub proof fn lemma_be_min_bytes(s: Seq<u8>)
    requires
        s.len() >= 1,
        s.len() > 1 ==> s[0] != 0,
    ensures
        min_bytes(be_val(s)) == s.len(),
    decreases s.len(),
{
    let n = s.len();
    if n == 1 {
        assert(s.drop_last() =~= Seq::<u8>::empty());
        assert(be_val(Seq::<u8>::empty()) == 0);
        assert(be_val(s) == s[0] as nat);
    } else {
        let dl = s.drop_last();
        assert(dl[0] == s[0]);
        lemma_be_val_split_first(dl);
        lemma_pow2_pos(8 * (dl.len() - 1) as nat);
        lemma_mul_inequality(1, s[0] as int, pow2(8 * (dl.len() - 1) as nat) as int);
        assert(be_val(dl) >= 1);
        assert(be_val(s) == be_val(dl) * 256 + s.last());
        lemma_fundamental_div_mod_converse(
            be_val(s) as int,
            256,
            be_val(dl) as int,
            s.last() as int,
        );
        assert(be_val(s) >= 256);
        assert(min_bytes(be_val(s)) == 1 + min_bytes(be_val(s) / 256));
        lemma_be_min_bytes(dl);
    }
}

/// The minimum bit count of a minimal big-endian representation is the
/// minimum bit count of its top byte plus eight bits for every other byte.
pub proof fn lemma_be_min_bits(s: Seq<u8>)
    requires
        s.len() >= 1,
        s.len() > 1 ==> s[0] != 0,
    ensures
        min_bits(be_val(s)) == 8 * (s.len() - 1) as nat + min_bits(s[0] as nat),
{
    let n = s.len();
    if n == 1 {
        assert(s.drop_last() =~= Seq::<u8>::empty());
        assert(be_val(Seq::<u8>::empty()) == 0);
        assert(be_val(s) == s[0] as nat);
    } else {
        let top = s[0] as nat;
        let p = pow2(8 * (n - 1) as nat);
        let t = s.subrange(1, n as int);
        let v = be_val(s);
        lemma_be_val_split_first(s);
        lemma_be_val_bound(t);
        assert(v == top * p + be_val(t));
        let b = min_bits(top);
        lemma_min_bits_props(top);
        // b is at most 8, since the top byte is below pow2(8).
        lemma2_to64();
        if b > 8 {
            lemma_pow2_le(8, (b - 1) as nat);
            assert(false);
        }
        // Lower bound: v >= pow2(8 * (n - 1) + b - 1).
        lemma_mul_inequality(pow2((b - 1) as nat) as int, top as int, p as int);
        lemma_pow2_adds((b - 1) as nat, 8 * (n - 1) as nat);
        // Upper bound: v < pow2(8 * (n - 1) + b).
        lemma_mul_is_distributive_add_other_way(p as int, top as int, 1);
        lemma_mul_inequality(top as int + 1, pow2(b) as int, p as int);
        lemma_pow2_adds(b, 8 * (n - 1) as nat);
        lemma_min_bits_exact(v, (8 * (n - 1) as nat + b) as nat);
    }
}

} // verus!
