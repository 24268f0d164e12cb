use bitwise::{Bit, BitConstructor, Truncate};

#[test]
fn truncate_truncate_range() {
    let a = Bit::new_with_length(10, 4).unwrap();
    assert_eq!(a.truncate((2, 0)).unwrap(), Bit::new_with_length(2, 3).unwrap());
}

#[test]
fn truncate_truncate_bit() {
    let a = Bit::new_with_length(10, 4).unwrap();
    assert_eq!(a.truncate(1).unwrap(), Bit::new_with_length(1, 1).unwrap());
}
