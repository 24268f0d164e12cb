use bitwise::errors::Error;
use bitwise::{Bit, BitConstructor, Truncate};
use num_bigint::BigInt;

#[test]
fn inferred_width_is_always_32_for_native() {
    assert_eq!(Bit::new(0).length(), 32);
    assert_eq!(Bit::new(1).length(), 32);
    assert_eq!(Bit::new(std::u32::MAX).length(), 32);
}

#[test]
fn explicit_width_must_cover_required_bits() {
    assert!(Bit::new_with_length(255, 8).is_ok());
    assert_eq!(
        Bit::new_with_length(255, 7).unwrap_err(),
        Error::WidthTooSmallForValue(8, 7)
    );
    // zero needs one bit
    assert!(Bit::new_with_length(0, 1).is_ok());
}

#[test]
fn round_trip_through_zero_extension() {
    let a = Bit::new_with_length(10, 4).unwrap();
    let back = a.zero_ext(9).unwrap().truncate((3, 0)).unwrap();
    assert_eq!(back, Bit::new_with_length(10, 4).unwrap());
}

#[test]
fn sign_extension_with_clear_top_bit() {
    let a = Bit::new_with_length(5, 4).unwrap().sign_ext(8).unwrap();
    assert_eq!(a.truncate((7, 4)).unwrap(), Bit::new_with_length(0, 4).unwrap());
    assert_eq!(a.truncate((3, 0)).unwrap(), Bit::new_with_length(5, 4).unwrap());
}

#[test]
fn concat_puts_first_operand_on_top() {
    let a = Bit::new_with_length(1, 2).unwrap();
    let b = Bit::new_with_length(2, 3).unwrap();
    let bit = Bit::concat(vec![&a, &b]).unwrap();
    // 0b01_010 == 10 at width 5
    assert_eq!(bit, Bit::new_with_length(10, 5).unwrap());
}

#[test]
fn truncate_round_trip_reconstructs() {
    // 89 == 0b1011001, width 7, split at bit 3
    let v = Bit::new_with_length(89, 7).unwrap();
    let hi = v.truncate((6, 3)).unwrap();
    let lo = v.truncate((2, 0)).unwrap();
    let back = Bit::concat(vec![&hi, &lo]).unwrap();
    assert_eq!(back, Bit::new_with_length(89, 7).unwrap());
}

#[test]
fn equal_width_extension_is_identity() {
    let a = Bit::new_with_length(10, 4).unwrap();
    assert_eq!(a.zero_ext(4).unwrap(), Bit::new_with_length(10, 4).unwrap());
    assert_eq!(a.sign_ext(4).unwrap(), Bit::new_with_length(10, 4).unwrap());
}

#[test]
fn truncate_boundary_errors() {
    let a = Bit::new_with_length(10, 4).unwrap();
    assert_eq!(a.truncate((5, 2)).unwrap_err(), Error::IndexOutOfWidth(4, 5));
    assert_eq!(a.truncate((1, 2)).unwrap_err(), Error::UpperBelowLower(1, 2));
    assert_eq!(a.truncate(4).unwrap_err(), Error::IndexOutOfWidth(4, 4));
}

#[test]
fn cast_boundary_errors() {
    let wide = Bit::new_with_length(1, 40).unwrap();
    assert_eq!(wide.as_u32().unwrap_err(), Error::ValueTooWideForCast(32, 40));
    let wide8 = Bit::new_with_length(1, 9).unwrap();
    assert_eq!(wide8.as_u8().unwrap_err(), Error::ValueTooWideForCast(8, 9));
}

#[test]
fn extension_width_errors() {
    let a = Bit::new_with_length(10, 4).unwrap();
    assert_eq!(
        a.zero_ext(3).unwrap_err(),
        Error::InsufficientWidthForExtension(4, 3)
    );
    assert_eq!(
        a.sign_ext(3).unwrap_err(),
        Error::InsufficientWidthForExtension(4, 3)
    );
}

#[test]
fn concat_needs_two_operands() {
    let a = Bit::new_with_length(1, 1).unwrap();
    assert_eq!(
        Bit::concat(vec![&a]).unwrap_err(),
        Error::InsufficientConcatOperands
    );
    assert_eq!(Bit::concat(vec![]).unwrap_err(), Error::InsufficientConcatOperands);
}

#[test]
fn bigint_inferred_width_rounds_to_bytes() {
    // one byte
    let a = Bit::new(BigInt::from(5u32));
    assert_eq!(a.length(), 8);
    assert_eq!(a.as_u32().unwrap(), 5);
    // two bytes
    let b = Bit::new(BigInt::from(256u32));
    assert_eq!(b.length(), 16);
    assert_eq!(b.as_u32().unwrap(), 256);
}

#[test]
fn bigint_negative_input_uses_unsigned_encoding() {
    // complement-plus-one of an unbounded two's-complement encoding: -5 encodes as 5
    let a = Bit::new(BigInt::from(-5));
    assert_eq!(a.length(), 8);
    assert_eq!(a.as_u32().unwrap(), 5);
}

#[test]
fn bigint_explicit_width_checked_after_encoding() {
    assert!(Bit::new_with_length(BigInt::from(255u32), 8).is_ok());
    assert_eq!(
        Bit::new_with_length(BigInt::from(256u32), 8).unwrap_err(),
        Error::WidthTooSmallForValue(9, 8)
    );
    let neg = Bit::new_with_length(BigInt::from(-200), 8).unwrap();
    assert_eq!(neg.as_u8().unwrap(), 200);
}

#[test]
fn ordering_ignores_width_while_equality_does_not() {
    let narrow = Bit::new_with_length(3, 2).unwrap();
    let wide = Bit::new_with_length(3, 8).unwrap();
    assert_ne!(narrow, wide);
    assert!(!(narrow < wide));
    assert!(!(narrow > wide));
    assert!(narrow <= wide);
    assert!(narrow >= wide);
}

#[test]
fn wraparound_is_masked_to_wider_width() {
    let a = Bit::new_with_length(15, 4).unwrap();
    let b = Bit::new_with_length(3, 2).unwrap();
    // 15 + 3 == 18 == 0b10010, masked to 4 bits: 2
    assert_eq!(a + b, Bit::new_with_length(2, 4).unwrap());
    let c = Bit::new_with_length(1, 4).unwrap();
    let d = Bit::new_with_length(2, 2).unwrap();
    // 1 - 2 wraps at 4 bits to 15
    assert_eq!(c - d, Bit::new_with_length(15, 4).unwrap());
}

#[test]
fn shifts_keep_width_and_mask() {
    let a = Bit::new_with_length(9, 4).unwrap();
    // 9 << 1 == 18, masked to 4 bits: 2
    assert_eq!(a.clone() << 1, Bit::new_with_length(2, 4).unwrap());
    // logical right shift: 9 >> 1 == 4
    assert_eq!(a >> 1, Bit::new_with_length(4, 4).unwrap());
}

#[test]
fn cast_reads_little_endian_bytes() {
    let v = Bit::new_with_length(0x12345678, 32).unwrap();
    assert_eq!(v.as_u32().unwrap(), 0x12345678);
    let b = Bit::new_with_length(200, 8).unwrap();
    assert_eq!(b.as_u8().unwrap(), 200);
}
