use bft::CellKind;

#[test]
fn test_increment() {
    let t = 0u8;
    assert_eq!(t.increment(), 1u8);
}

#[test]
fn test_increment_wrapping() {
    let t = 255u8;
    assert_eq!(t.increment(), 0u8);
}

#[test]
fn test_decrement() {
    let t = 255u8;
    assert_eq!(t.decrement(), 254u8);
}

#[test]
fn test_decrement_wrapping() {
    let t = 0u8;
    assert_eq!(t.decrement(), 255u8);
}

#[test]
fn byte_conversions_keep_the_value() {
    assert_eq!(<u8 as CellKind>::from_u8(1), 1u8);
    assert_eq!(200u8.to_u8(), 200u8);
    assert!(0u8.is_zero());
    assert!(!7u8.is_zero());
}
