//! Operator impls for [`Bit`]: wraparound addition and subtraction at the
//! wider operand's width, masked shifts at unchanged width, equality over
//! value and width, and ordering over the value alone.

use vstd::prelude::*;
use vstd::arithmetic::power2::pow2;

use crate::big::{big_add, big_and, big_clone, big_eq, big_from_u32, big_int_of, big_lt, big_shl,
    big_shr, big_sub};
use crate::model::{max_nat, wrapped};
use crate::Bit;

verus! {

/// The shared tail of the arithmetic operators: reduces a raw (possibly
/// negative or too wide) result modulo `pow2(length)` by masking, and pairs
/// it with that width.
fn mask_to_width(raw: num_bigint::BigInt, length: usize) -> (r: Bit)
    requires
        1 <= length,
    ensures
        r.wf(),
        r.width() == length as nat,
        r.val() == wrapped(big_int_of(raw), length as nat),
{
    let one = big_from_u32(1);
    let mask = big_sub(&big_shl(&one, length), &one);
    let value = big_and(&raw, &mask);
    proof {
        assert(big_int_of(mask) == pow2(length as nat) - 1);
        assert(big_int_of(value) == big_int_of(raw) % (pow2(length as nat) as int));
        vstd::arithmetic::power2::lemma_pow2_pos(length as nat);
        vstd::arithmetic::div_mod::lemma_mod_bound(
            big_int_of(raw),
            pow2(length as nat) as int,
        );
    }
    Bit { value, length }
}

impl vstd::std_specs::ops::AddSpecImpl for Bit {
    open spec fn obeys_add_spec() -> bool {
        false
    }

    open spec fn add_req(self, rhs: Bit) -> bool {
        self.wf() && rhs.wf()
    }

    open spec fn add_spec(self, rhs: Bit) -> Bit {
        self
    }
}

impl core::ops::Add for Bit {
    type Output = Bit;

    /// Wraparound addition: the raw sum, masked to the wider operand's
    /// width.
    fn add(self, other: Bit) -> (r: Bit)
        ensures
            r.wf(),
            r.width() == max_nat(self.width(), other.width()),
            r.val() == wrapped(self.val() + other.val(), max_nat(self.width(), other.width())),
    {
        let length = if self.length() >= other.length() {
            self.length()
        } else {
            other.length()
        };
        let raw = big_add(&self.value, &other.value);
        mask_to_width(raw, length)
    }
}

impl vstd::std_specs::ops::SubSpecImpl for Bit {
    open spec fn obeys_sub_spec() -> bool {
        false
    }

    open spec fn sub_req(self, rhs: Bit) -> bool {
        self.wf() && rhs.wf()
    }

    open spec fn sub_spec(self, rhs: Bit) -> Bit {
        self
    }
}

impl core::ops::Sub for Bit {
    type Output = Bit;

    /// Wraparound subtraction: the raw difference, masked to the wider
    /// operand's width; going below zero wraps to the top of the range.
    fn sub(self, other: Bit) -> (r: Bit)
        ensures
            r.wf(),
            r.width() == max_nat(self.width(), other.width()),
            r.val() == wrapped(self.val() - other.val(), max_nat(self.width(), other.width())),
    {
        let length = if self.length() >= other.length() {
            self.length()
        } else {
            other.length()
        };
        let raw = big_sub(&self.value, &other.value);
        mask_to_width(raw, length)
    }
}

impl vstd::std_specs::ops::ShlSpecImpl<usize> for Bit {
    open spec fn obeys_shl_spec() -> bool {
        false
    }

    open spec fn shl_req(self, rhs: usize) -> bool {
        self.wf()
    }

    open spec fn shl_spec(self, rhs: usize) -> Bit {
        self
    }
}

impl core::ops::Shl<usize> for Bit {
    type Output = Bit;

    /// Left shift at unchanged width: bits pushed past the top are
    /// discarded by the mask, not kept by growing the width.
    fn shl(self, shamt: usize) -> (r: Bit)
        ensures
            r.wf(),
            r.width() == self.width(),
            r.val() == wrapped(self.val() * pow2(shamt as nat), self.width()),
    {
        let length = self.length();
        let raw = big_shl(&self.value, shamt);
        mask_to_width(raw, length)
    }
}

impl vstd::std_specs::ops::ShrSpecImpl<usize> for Bit {
    open spec fn obeys_shr_spec() -> bool {
        false
    }

    open spec fn shr_req(self, rhs: usize) -> bool {
        self.wf()
    }

    open spec fn shr_spec(self, rhs: usize) -> Bit {
        self
    }
}

impl core::ops::Shr<usize> for Bit {
    type Output = Bit;

    /// Logical right shift at unchanged width, filling with zeros from
    /// above; no mask is needed since the value can only shrink.
    fn shr(self, shamt: usize) -> (r: Bit)
        ensures
            r.wf(),
            r.width() == self.width(),
            r.val() == self.val() / pow2(shamt as nat) as int,
    {
        proof {
            vstd::arithmetic::power2::lemma_pow2_pos(shamt as nat);
            vstd::arithmetic::div_mod::lemma_div_pos_is_pos(
                self.val(),
                pow2(shamt as nat) as int,
            );
            vstd::arithmetic::div_mod::lemma_div_nonincreasing(
                self.val(),
                pow2(shamt as nat) as int,
            );
        }
        let value = big_shr(&self.value, shamt);
        let length = self.length();
        Bit { value, length }
    }
}

impl vstd::std_specs::cmp::PartialEqSpecImpl for Bit {
    open spec fn obeys_eq_spec() -> bool {
        true
    }

    open spec fn eq_spec(&self, other: &Bit) -> bool {
        self.val() == other.val() && self.width() == other.width()
    }
}

impl core::cmp::PartialEq for Bit {
    /// Two vectors are equal exactly when both the value and the width
    /// agree; equal values at different widths are unequal.
    fn eq(&self, other: &Bit) -> (r: bool)
        ensures
            r == (self.val() == other.val() && self.width() == other.width()),
    {
        let same_value = big_eq(&self.value, &other.value);
        let same_length = self.length == other.length;
        same_value && same_length
    }
}

impl core::cmp::Eq for Bit {

}

impl vstd::std_specs::cmp::PartialOrdSpecImpl for Bit {
    open spec fn obeys_partial_cmp_spec() -> bool {
        true
    }

    open spec fn partial_cmp_spec(&self, other: &Bit) -> Option<core::cmp::Ordering> {
        if self.val() < other.val() {
            Some(core::cmp::Ordering::Less)
        } else if self.val() == other.val() {
            Some(core::cmp::Ordering::Equal)
        } else {
            Some(core::cmp::Ordering::Greater)
        }
    }
}

impl core::cmp::PartialOrd for Bit {
    /// Ordering is total and goes by the numeric value alone: the width
    /// does not participate, so two vectors of equal value but different
    /// width compare as equal here even though `==` distinguishes them.
    fn partial_cmp(&self, other: &Bit) -> (r: Option<core::cmp::Ordering>) {
        if big_lt(&self.value, &other.value) {
            Some(core::cmp::Ordering::Less)
        } else if big_eq(&self.value, &other.value) {
            Some(core::cmp::Ordering::Equal)
        } else {
            Some(core::cmp::Ordering::Greater)
        }
    }
}

impl Clone for Bit {
    /// The copy holds the same value at the same width.
    fn clone(&self) -> (r: Bit)
        ensures
            r.val() == self.val(),
            r.width() == self.width(),
            self.wf() ==> r.wf(),
    {
        Bit { value: big_clone(&self.value), length: self.length }
    }
}

} // verus!
