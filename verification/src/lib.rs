//! A fixed-width bit-vector value type: an arbitrary-precision integer
//! paired with a declared bit-width, with width-checked construction,
//! bit and range extraction, zero and sign extension, concatenation,
//! wraparound arithmetic, masked shifts, comparison, and narrowing casts.
//!
//! Every `Bit` that an operation of this crate returns satisfies [`Bit::wf`]:
//! its value is non-negative and needs no more than its width's bits.

use vstd::prelude::*;

mod big;
pub mod errors;
pub mod laws;
pub mod model;
pub mod ops;

use vstd::arithmetic::power2::pow2;
use vstd::arithmetic::power2::lemma2_to64;

use crate::big::{
    big_add, big_and, big_clone, big_eq, big_from_u32, big_int_of, big_is_negative, big_not,
    big_or, big_shl, big_shr, big_sub, big_to_bytes_be, big_to_bytes_le,
};
use crate::errors::Error;
use crate::model::{
    be_val, bits_of, cat_len, cat_val, le_val, lemma_be_min_bits, lemma_be_min_bytes,
    lemma_be_val_bound, lemma_be_val_split_first, lemma_cat_len_prefix, lemma_le_bytes_len,
    lemma_min_bits_exact, lemma_min_bits_props, lemma_pow2_le, min_bits, min_bytes, sign_extended,
    unsigned_encoding,
};

verus! {

/// An integer value together with the bit-width it is declared to occupy.
///
/// The fields are public so that specifications can speak of them; the
/// invariant that every operation establishes is [`Bit::wf`]. A `Bit` is
/// immutable: every operation returns a new one.
#[derive(Debug)]
pub struct Bit {
    /// The numeric payload, always non-negative once constructed.
    pub value: num_bigint::BigInt,
    /// The declared size of the vector in bits.
    pub length: usize,
}

impl Bit {
    /// The number this vector holds.
    pub open spec fn val(&self) -> int {
        big_int_of(self.value)
    }

    /// The declared bit-width.
    pub open spec fn width(&self) -> nat {
        self.length as nat
    }

    /// Well-formedness: at least one bit wide, and the value fits the width.
    pub open spec fn wf(&self) -> bool {
        &&& 1 <= self.length
        &&& 0 <= self.val()
        &&& self.val() < pow2(self.width())
    }

    /// Read access to the numeric payload.
    pub fn value(&self) -> (r: &num_bigint::BigInt)
        ensures
            big_int_of(*r) == self.val(),
    {
        &self.value
    }

    /// Read access to the bit-width.
    pub fn length(&self) -> (r: usize)
        ensures
            r == self.length,
    {
        self.length
    }
}

impl Bit {
    /// Lays two or more vectors end to end, the first in the most
    /// significant position; the result's width is the sum of the widths.
    /// Rejects fewer than two operands.
    pub fn concat(bits: Vec<&Bit>) -> (r: Result<Bit, Error>)
        requires
            forall|i: int| 0 <= i < bits@.len() ==> (#[trigger] bits@[i]).wf(),
            cat_len(bits@) <= usize::MAX,
        ensures
            bits@.len() < 2 ==> r == Err::<Bit, Error>(Error::InsufficientConcatOperands),
            bits@.len() >= 2 ==> r is Ok && r->Ok_0.wf() && r->Ok_0.val() == cat_val(bits@)
                && r->Ok_0.width() == cat_len(bits@),
    {
        if bits.len() < 2 {
            return Err(Error::InsufficientConcatOperands);
        }
        proof {
            assert(bits@.subrange(0, 1).drop_last() =~= Seq::<&Bit>::empty());
            assert(bits@.subrange(0, 1).last() == bits@[0]);
            assert(cat_val(Seq::<&Bit>::empty()) == 0);
            assert(cat_len(Seq::<&Bit>::empty()) == 0);
            assert(cat_val(bits@.subrange(0, 1)) == bits@[0].val());
            assert(cat_len(bits@.subrange(0, 1)) == bits@[0].width());
            lemma_cat_len_prefix(bits@, 1);
        }
        let mut value = big_clone(bits[0].value());
        let mut length = bits[0].length();
        let mut i: usize = 1;
        while i < bits.len()
            invariant
                1 <= i <= bits@.len(),
                forall|j: int| 0 <= j < bits@.len() ==> (#[trigger] bits@[j]).wf(),
                cat_len(bits@) <= usize::MAX,
                big_int_of(value) == cat_val(bits@.subrange(0, i as int)),
                length == cat_len(bits@.subrange(0, i as int)),
                0 <= big_int_of(value) < pow2(length as nat),
            decreases bits@.len() - i,
        {
            let b = bits[i];
            proof {
                let prefix = bits@.subrange(0, i as int);
                let next = bits@.subrange(0, i + 1);
                assert(next.drop_last() =~= prefix);
                assert(next.last() == bits@[i as int]);
                lemma_cat_len_prefix(bits@, i + 1);
                vstd::arithmetic::power2::lemma_pow2_pos(b.width());
                vstd::arithmetic::div_mod::lemma_mod_multiples_basic(
                    big_int_of(value),
                    pow2(b.width()) as int,
                );
                vstd::arithmetic::mul::lemma_mul_inequality(
                    big_int_of(value),
                    pow2(length as nat) - 1,
                    pow2(b.width()) as int,
                );
                vstd::arithmetic::mul::lemma_mul_is_distributive_sub_other_way(
                    pow2(b.width()) as int,
                    pow2(length as nat) as int,
                    1,
                );
                vstd::arithmetic::power2::lemma_pow2_adds(length as nat, b.width());
                vstd::arithmetic::mul::lemma_mul_nonnegative(
                    big_int_of(value),
                    pow2(b.width()) as int,
                );
            }
            let shifted = big_shl(&value, b.length());
            let joined = big_or(&shifted, b.value());
            value = joined;
            length = length + b.length();
            i = i + 1;
        }
        proof {
            assert(bits@.subrange(0, bits@.len() as int) =~= bits@);
        }
        Ok(Bit { value, length })
    }

    /// The vector's value as a native 32-bit word, rebuilt from its
    /// little-endian bytes. Rejects a vector wider than 32 bits.
    pub fn as_u32(&self) -> (r: Result<u32, Error>)
        requires
            self.wf(),
        ensures
            self.width() <= 32 ==> r is Ok && r->Ok_0 == self.val(),
            self.width() > 32 ==> r == Err::<u32, Error>(
                Error::ValueTooWideForCast(32, self.length),
            ),
    {
        if self.length > 32 {
            return Err(Error::ValueTooWideForCast(32, self.length));
        }
        let bytes = big_to_bytes_le(&self.value);
        proof {
            lemma_pow2_le(self.width(), 32);
            lemma_le_bytes_len(bytes@);
            assert(bytes@.subrange(0, 0) =~= Seq::<u8>::empty());
            lemma2_to64();
        }
        let mut acc: u32 = 0;
        let mut i: usize = 0;
        while i < bytes.len()
            invariant
                bytes@.len() <= 4,
                0 <= i <= bytes@.len(),
                le_val(bytes@) < pow2(32),
                acc == le_val(bytes@.subrange(0, i as int)),
                acc < pow2(8 * i as nat),
            decreases bytes@.len() - i,
        {
            let byte = bytes[i];
            proof {
                let prefix = bytes@.subrange(0, i as int);
                let next = bytes@.subrange(0, i + 1);
                assert(next.drop_last() =~= prefix);
                assert(next.last() == bytes@[i as int]);
                lemma2_to64();
                vstd::arithmetic::power2::lemma_pow2_adds(8 * i as nat, 8);
                lemma_pow2_le(8 * i as nat + 8, 32);
                vstd::arithmetic::mul::lemma_mul_inequality(
                    byte as int,
                    255,
                    pow2(8 * i as nat) as int,
                );
                vstd::bits::lemma_u32_shl_is_mul(byte as u32, (8 * i) as u32);
            }
            acc = acc + ((byte as u32) << ((8 * i) as u32));
            i = i + 1;
        }
        proof {
            assert(bytes@.subrange(0, bytes@.len() as int) =~= bytes@);
        }
        Ok(acc)
    }

    /// The vector's value as a native byte, the most significant byte of
    /// its big-endian form. Rejects a vector wider than 8 bits.
    pub fn as_u8(&self) -> (r: Result<u8, Error>)
        requires
            self.wf(),
        ensures
            self.width() <= 8 ==> r is Ok && r->Ok_0 == self.val(),
            self.width() > 8 ==> r == Err::<u8, Error>(
                Error::ValueTooWideForCast(8, self.length),
            ),
    {
        if self.length > 8 {
            return Err(Error::ValueTooWideForCast(8, self.length));
        }
        let bytes = big_to_bytes_be(&self.value);
        proof {
            lemma_pow2_le(self.width(), 8);
            lemma2_to64();
            if bytes@.len() > 1 {
                lemma_be_val_split_first(bytes@);
                let e = 8 * (bytes@.len() - 1) as nat;
                vstd::arithmetic::power2::lemma_pow2_pos(e);
                lemma_pow2_le(8, e);
                vstd::arithmetic::mul::lemma_mul_inequality(1, bytes@[0] as int, pow2(e) as int);
                vstd::arithmetic::mul::lemma_mul_nonnegative(
                    bytes@[0] as int,
                    pow2(e) as int,
                );
                assert(false);
            }
            assert(bytes@.drop_last() =~= Seq::<u8>::empty());
            assert(be_val(Seq::<u8>::empty()) == 0);
            assert(be_val(bytes@) == bytes@[0] as nat);
        }
        Ok(bytes[0])
    }

    /// Grows the declared width to `length`; the value is unchanged, since
    /// the invariant already keeps the new high bits zero. Rejects a target
    /// width below the current one.
    pub fn zero_ext(&self, length: usize) -> (r: Result<Bit, Error>)
        requires
            self.wf(),
        ensures
            self.width() <= length ==> r is Ok && r->Ok_0.wf() && r->Ok_0.val() == self.val()
                && r->Ok_0.width() == length as nat,
            self.width() > length ==> r == Err::<Bit, Error>(
                Error::InsufficientWidthForExtension(self.length, length),
            ),
    {
        if self.length > length {
            Err(Error::InsufficientWidthForExtension(self.length, length))
        } else {
            proof {
                lemma_pow2_le(self.width(), length as nat);
            }
            Ok(Bit { value: big_clone(&self.value), length })
        }
    }

    /// Grows the declared width to `length`, replicating the top bit into
    /// the new high bits. Rejects a target width below the current one.
    pub fn sign_ext(&self, length: usize) -> (r: Result<Bit, Error>)
        requires
            self.wf(),
        ensures
            self.width() <= length ==> r is Ok && r->Ok_0.wf() && r->Ok_0.val() == sign_extended(
                self.val(),
                self.width(),
                length as nat,
            ) && r->Ok_0.width() == length as nat,
            self.width() > length ==> r == Err::<Bit, Error>(
                Error::InsufficientWidthForExtension(self.length, length),
            ),
    {
        if self.length > length {
            return Err(Error::InsufficientWidthForExtension(self.length, length));
        }
        let top = match self.truncate(self.length - 1) {
            Ok(b) => b,
            Err(e) => {
                proof {
                    assert(false);
                }
                return Err(e);
            },
        };
        proof {
            lemma_top_bit(self.val(), self.width());
        }
        let zero = big_from_u32(0);
        let top_is_zero = big_eq(&top.value, &zero);
        let is_no_length_diff = length - self.length == 0;
        let mask = if top_is_zero || is_no_length_diff {
            big_from_u32(0)
        } else {
            let diff = length - self.length;
            let one = big_from_u32(1);
            let allone = big_sub(&big_shl(&one, diff), &one);
            big_shl(&allone, self.length)
        };
        proof {
            lemma2_to64();
            let w = self.width();
            let nw = length as nat;
            let v = self.val();
            vstd::arithmetic::power2::lemma_pow2_pos(w);
            lemma_pow2_le(w, nw);
            if top_is_zero || is_no_length_diff {
                vstd::arithmetic::div_mod::lemma_small_mod(0, pow2(w));
                if top_is_zero {
                    assert(bits_of(v, (w - 1) as nat, (w - 1) as nat) == 0);
                    assert(v < pow2((w - 1) as nat));
                }
                assert(big_int_of(mask) + v == sign_extended(v, w, nw));
            } else {
                assert(pow2((w - 1) as nat) <= v);
                vstd::arithmetic::mul::lemma_mul_is_distributive_sub_other_way(
                    pow2(w) as int,
                    pow2((nw - w) as nat) as int,
                    1,
                );
                vstd::arithmetic::power2::lemma_pow2_adds((nw - w) as nat, w);
                assert(big_int_of(mask) == pow2(nw) - pow2(w));
                vstd::arithmetic::div_mod::lemma_mod_multiples_basic(
                    (pow2((nw - w) as nat) - 1) as int,
                    pow2(w) as int,
                );
                assert(big_int_of(mask) + v == sign_extended(v, w, nw));
            }
            assert(big_int_of(mask) % (pow2(w) as int) == 0 && v < pow2(w));
            assert(0 <= big_int_of(mask) + v < pow2(nw));
        }
        let value = big_or(&mask, &self.value);
        Ok(Bit { value, length })
    }
}

/// The top bit of a well-formed width-`w` value is set exactly when the
/// value reaches `pow2(w - 1)`.
proof fn lemma_top_bit(v: int, w: nat)
    requires
        1 <= w,
        0 <= v < pow2(w),
    ensures
        bits_of(v, (w - 1) as nat, (w - 1) as nat) == if v < pow2((w - 1) as nat) {
            0int
        } else {
            1int
        },
{
    let p = pow2((w - 1) as nat);
    vstd::arithmetic::power2::lemma_pow2_pos((w - 1) as nat);
    vstd::arithmetic::power2::lemma_pow2_unfold(w);
    let q = v / p as int;
    vstd::arithmetic::div_mod::lemma_multiply_divide_lt(v, p as int, 2);
    vstd::arithmetic::div_mod::lemma_div_pos_is_pos(v, p as int);
    assert(0 <= q < 2);
    if v < p {
        vstd::arithmetic::div_mod::lemma_basic_div(v, p as int);
    } else {
        vstd::arithmetic::div_mod::lemma_fundamental_div_mod(v, p as int);
        if q == 0 {
            vstd::arithmetic::div_mod::lemma_mod_bound(v, p as int);
            assert(false);
        }
    }
    lemma2_to64();
    vstd::arithmetic::div_mod::lemma_small_mod(q as nat, 2);
}

/// Construction from a value, either with the width the value implies or
/// with an explicit width that is checked against the value's minimum.
pub trait BitConstructor<T>: Sized {
    /// Whether the width this constructor would infer for `value` fits the
    /// machine's `usize`; a constraint of the platform, not of the design.
    spec fn width_fits(value: T) -> bool;

    /// Builds a vector from `value` at the inferred width.
    fn new(value: T) -> Self
        requires
            Self::width_fits(value),
    ;

    /// Builds a vector from `value` at width `length`, rejecting a width
    /// below the fewest bits `value` needs.
    fn new_with_length(value: T, length: usize) -> Result<Self, Error>
        requires
            Self::width_fits(value),
    ;
}

impl BitConstructor<u32> for Bit {
    open spec fn width_fits(value: u32) -> bool {
        true
    }

    /// The inferred width of a native 32-bit value is the type's full size.
    fn new(value: u32) -> (r: Bit)
        ensures
            r.wf(),
            r.val() == value as int,
            r.width() == 32,
    {
        proof {
            lemma2_to64();
        }
        let v = big_from_u32(value);
        Bit { value: v, length: 32 }
    }

    /// Succeeds exactly when `length` can hold `value`, and then keeps the
    /// value and the requested width.
    fn new_with_length(value: u32, length: usize) -> (r: Result<Bit, Error>)
        ensures
            min_bits(value as nat) <= length ==> r is Ok && r->Ok_0.wf() && r->Ok_0.val()
                == value as int && r->Ok_0.width() == length as nat,
            min_bits(value as nat) > length ==> r == Err::<Bit, Error>(
                Error::WidthTooSmallForValue(min_bits(value as nat) as usize, length),
            ),
    {
        let at_least = required_bits_u32(value);
        if length < at_least as usize {
            Err(Error::WidthTooSmallForValue(at_least as usize, length))
        } else {
            proof {
                lemma_min_bits_props(value as nat);
                lemma_pow2_le(min_bits(value as nat), length as nat);
            }
            let v = big_from_u32(value);
            Ok(Bit { value: v, length })
        }
    }
}

impl BitConstructor<num_bigint::BigInt> for Bit {
    /// The inferred width, a whole number of bytes, must fit in `usize`.
    open spec fn width_fits(value: num_bigint::BigInt) -> bool {
        8 * min_bytes(unsigned_encoding(big_int_of(value))) <= usize::MAX
    }

    /// The inferred width of an arbitrary-precision value is the size of its
    /// minimal big-endian byte form, rounded up to whole bytes; a negative
    /// input is first replaced by its unsigned encoding.
    fn new(value: num_bigint::BigInt) -> (r: Bit)
        ensures
            r.wf(),
            r.val() == unsigned_encoding(big_int_of(value)),
            r.width() == 8 * min_bytes(unsigned_encoding(big_int_of(value))),
    {
        let value = minus_into_plus(value);
        let bytes = big_to_bytes_be(&value);
        proof {
            lemma_be_min_bytes(bytes@);
            lemma_be_val_bound(bytes@);
        }
        let length = bytes.len() * 8;
        Bit { value, length }
    }

    /// Succeeds exactly when `length` can hold the unsigned encoding of
    /// `value`, and then keeps that encoding and the requested width.
    fn new_with_length(value: num_bigint::BigInt, length: usize) -> (r: Result<Bit, Error>)
        ensures
            min_bits(unsigned_encoding(big_int_of(value))) <= length ==> r is Ok
                && r->Ok_0.wf() && r->Ok_0.val() == unsigned_encoding(big_int_of(value))
                && r->Ok_0.width() == length as nat,
            min_bits(unsigned_encoding(big_int_of(value))) > length ==> r == Err::<Bit, Error>(
                Error::WidthTooSmallForValue(
                    min_bits(unsigned_encoding(big_int_of(value))) as usize,
                    length,
                ),
            ),
    {
        let ghost conv = unsigned_encoding(big_int_of(value));
        let value = minus_into_plus(value);
        let bytes = big_to_bytes_be(&value);
        proof {
            lemma_be_min_bytes(bytes@);
            lemma_be_min_bits(bytes@);
            lemma_be_val_bound(bytes@);
            lemma_min_bits_props(bytes@[0] as nat);
            lemma2_to64();
            if min_bits(bytes@[0] as nat) > 8 {
                lemma_pow2_le(8, (min_bits(bytes@[0] as nat) - 1) as nat);
            }
        }
        let top = bytes[0];
        let at_least = required_bits_u32(top as u32) as usize;
        let at_least_length = (bytes.len() - 1) * 8 + at_least;
        if at_least_length > length {
            Err(Error::WidthTooSmallForValue(at_least_length, length))
        } else {
            proof {
                lemma_min_bits_props(conv);
                lemma_pow2_le(min_bits(conv), length as nat);
            }
            Ok(Bit { value, length })
        }
    }
}

/// The unsigned encoding a signed input receives before any width check:
/// bitwise complement plus one, which on `num_bigint`'s unbounded
/// two's-complement view of integers is negation. Non-negative values pass
/// through unchanged.
fn minus_into_plus(value: num_bigint::BigInt) -> (r: num_bigint::BigInt)
    ensures
        big_int_of(r) == unsigned_encoding(big_int_of(value)),
{
    if big_is_negative(&value) {
        let one = big_from_u32(1);
        big_add(&big_not(&value), &one)
    } else {
        value
    }
}

/// The fewest bits that can hold `value`: the highest set bit's position
/// plus one, scanning upward from bit 1, with one bit for zero and one.
fn required_bits_u32(value: u32) -> (r: u32)
    ensures
        r == min_bits(value as nat),
        1 <= r <= 32,
{
    proof {
        lemma2_to64();
        vstd::arithmetic::div_mod::lemma_mod_bound(value as int, 2);
    }
    let mut at_least: u32 = 1;
    let mut shamt: u32 = 1;
    while shamt < 32
        invariant
            1 <= shamt <= 32,
            1 <= at_least <= shamt,
            (value as nat) % pow2(shamt as nat) < pow2(at_least as nat),
            at_least > 1 ==> (value >> (at_least - 1)) & 1 == 1,
        decreases 32 - shamt,
    {
        if (value >> shamt) & 1 == 1 {
            at_least = shamt + 1;
        }
        proof {
            lemma_scan_step(value, shamt, at_least);
        }
        shamt = shamt + 1;
    }
    proof {
        lemma_scan_result(value, at_least);
    }
    at_least
}

/// One step of the bit scan: if bit `shamt` of `value` is clear, the low
/// `shamt + 1` bits reduce to the low `shamt` bits; if it is set, they are
/// bounded by `pow2(shamt + 1)` outright.
proof fn lemma_scan_step(value: u32, shamt: u32, at_least: u32)
    requires
        1 <= shamt < 32,
        1 <= at_least <= shamt + 1,
        (value >> shamt) & 1 == 1 ==> at_least == shamt + 1,
        (value >> shamt) & 1 != 1 ==> (value as nat) % pow2(shamt as nat) < pow2(at_least as nat),
    ensures
        (value as nat) % pow2((shamt + 1) as nat) < pow2(at_least as nat),
{
    vstd::arithmetic::power2::lemma_pow2_pos(shamt as nat);
    vstd::arithmetic::power2::lemma_pow2_adds(shamt as nat, 1);
    assert(pow2(1) == 2) by {
        lemma2_to64();
    }
    vstd::bits::lemma_u32_shr_is_div(value, shamt);
    lemma_u32_bit_is_mod2(value >> shamt);
    vstd::arithmetic::div_mod::lemma_mod_breakdown(
        value as int,
        pow2(shamt as nat) as int,
        2,
    );
    if (value >> shamt) & 1 == 1 {
        vstd::arithmetic::div_mod::lemma_mod_bound(
            value as int,
            pow2((shamt + 1) as nat) as int,
        );
    }
}

/// After the whole scan, `at_least` is exactly the minimum bit count.
proof fn lemma_scan_result(value: u32, at_least: u32)
    requires
        1 <= at_least <= 32,
        (value as nat) % pow2(32) < pow2(at_least as nat),
        at_least > 1 ==> (value >> (at_least - 1)) & 1 == 1,
    ensures
        at_least == min_bits(value as nat),
{
    lemma2_to64();
    vstd::arithmetic::div_mod::lemma_small_mod(value as nat, pow2(32));
    if at_least > 1 {
        let top: u32 = (at_least - 1) as u32;
        vstd::bits::lemma_u32_shr_is_div(value, top);
        lemma_u32_bit_is_mod2(value >> top);
        assert((value as nat / pow2(top as nat)) % 2 == 1);
        vstd::arithmetic::power2::lemma_pow2_pos(top as nat);
        vstd::arithmetic::div_mod::lemma_fundamental_div_mod(
            value as int,
            pow2(top as nat) as int,
        );
        let q = value as nat / pow2(top as nat);
        assert(q >= 1);
        vstd::arithmetic::mul::lemma_mul_inequality(1, q as int, pow2(top as nat) as int);
        assert(value as int >= pow2(top as nat));
    }
    lemma_min_bits_exact(value as nat, at_least as nat);
}

/// Extraction of a single bit or of an inclusive bit range, bit 0 being
/// the least significant.
pub trait Truncate<T>: Sized {
    /// The state a vector must be in before slicing: its own invariant.
    spec fn sliceable(&self) -> bool;

    /// Returns the selected bits as a new, narrower vector.
    fn truncate(&self, range: T) -> Result<Self, Error>
        requires
            self.sliceable(),
    ;
}

impl Truncate<usize> for Bit {
    open spec fn sliceable(&self) -> bool {
        self.wf()
    }

    /// Bit `index` of the vector, as a width-one vector. Rejects an index
    /// at or past the width.
    fn truncate(&self, index: usize) -> (r: Result<Bit, Error>)
        ensures
            index < self.width() ==> r is Ok && r->Ok_0.wf() && r->Ok_0.width() == 1
                && r->Ok_0.val() == bits_of(self.val(), index as nat, index as nat),
            index >= self.width() ==> r == Err::<Bit, Error>(
                Error::IndexOutOfWidth(self.length, index),
            ),
    {
        if index >= self.length {
            return Err(Error::IndexOutOfWidth(self.length, index));
        }
        let mask = big_from_u32(1);
        let shifted = big_shr(&self.value, index);
        let value = big_and(&shifted, &mask);
        proof {
            lemma2_to64();
            assert(big_int_of(value) == big_int_of(shifted) % (pow2(1) as int));
            vstd::arithmetic::div_mod::lemma_mod_bound(big_int_of(shifted), 2);
        }
        Ok(Bit { value, length: 1 })
    }
}

impl Truncate<(usize, usize)> for Bit {
    open spec fn sliceable(&self) -> bool {
        self.wf()
    }

    /// Bits `[lower, upper]` of the vector (given as `(upper, lower)`), as
    /// a vector of width `upper - lower + 1`. Rejects `upper < lower`, and
    /// an upper bound at or past the width.
    fn truncate(&self, range: (usize, usize)) -> (r: Result<Bit, Error>)
        ensures
            range.0 < range.1 ==> r == Err::<Bit, Error>(
                Error::UpperBelowLower(range.0, range.1),
            ),
            range.0 >= range.1 && range.0 >= self.width() ==> r == Err::<Bit, Error>(
                Error::IndexOutOfWidth(self.length, range.0),
            ),
            range.0 >= range.1 && range.0 < self.width() ==> r is Ok && r->Ok_0.wf()
                && r->Ok_0.width() == range.0 - range.1 + 1 && r->Ok_0.val() == bits_of(
                self.val(),
                range.0 as nat,
                range.1 as nat,
            ),
    {
        let (upper, lower) = range;
        if upper < lower {
            return Err(Error::UpperBelowLower(upper, lower));
        }
        if upper >= self.length {
            return Err(Error::IndexOutOfWidth(self.length, upper));
        }
        let length = upper - lower + 1;
        let one = big_from_u32(1);
        let mask = big_sub(&big_shl(&one, length), &one);
        let shifted = big_shr(&self.value, lower);
        let value = big_and(&shifted, &mask);
        proof {
            assert(big_int_of(value) == big_int_of(shifted) % (pow2(length as nat) as int));
            vstd::arithmetic::power2::lemma_pow2_pos(length as nat);
            vstd::arithmetic::div_mod::lemma_mod_bound(
                big_int_of(shifted),
                pow2(length as nat) as int,
            );
        }
        Ok(Bit { value, length })
    }
}

/// The lowest bit of a 32-bit value is its remainder modulo two.
proof fn lemma_u32_bit_is_mod2(x: u32)
    ensures
        x & 1 == x % 2,
{
    assert(x & 1 == x % 2) by (bit_vector);
}

} // verus!
