use expression_eval::parsemath::ast::{bitwise_and, bitwise_or};

#[test]
fn test_bitwise_and_values() {
    assert_eq!(bitwise_and(6, 2), 2);
    assert_eq!(bitwise_and(6, 3), 2);
    assert_eq!(bitwise_and(-1, 7), 7);
}

#[test]
fn test_bitwise_or_values() {
    assert_eq!(bitwise_or(6, 2), 6);
    assert_eq!(bitwise_or(-1, 2), -1);
    assert_eq!(bitwise_or(8, 2), 10);
}

#[test]
fn test_bitwise_precedence_value() {
    // (6 & 3) | 1 == 3: the numeric half of the precedence claim on `6 & 3 | 1`.
    assert_eq!(bitwise_or(bitwise_and(6, 3), 1), 3);
}
