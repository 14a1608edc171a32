use gridflow::arith::apply_binary;
use gridflow::text::write_decimal;
use gridflow::OperatorType;

#[test]
fn arithmetic_wraps_at_32_bits() {
    assert_eq!(apply_binary(OperatorType::Addition, i32::MAX, 1), Some(i32::MIN));
    assert_eq!(apply_binary(OperatorType::Subtraction, i32::MIN, 1), Some(i32::MAX));
    assert_eq!(apply_binary(OperatorType::Multiplication, 65536, 65536), Some(0));
    assert_eq!(apply_binary(OperatorType::Division, i32::MIN, -1), Some(i32::MIN));
    assert_eq!(apply_binary(OperatorType::Modulus, i32::MIN, -1), Some(0));
}

#[test]
fn division_rounds_toward_zero() {
    assert_eq!(apply_binary(OperatorType::Division, -7, 2), Some(-3));
    assert_eq!(apply_binary(OperatorType::Division, 7, -2), Some(-3));
    assert_eq!(apply_binary(OperatorType::Division, -7, -2), Some(3));
    assert_eq!(apply_binary(OperatorType::Modulus, -7, 2), Some(-1));
    assert_eq!(apply_binary(OperatorType::Modulus, 7, -2), Some(1));
}

#[test]
fn zero_divisor_has_no_result() {
    assert_eq!(apply_binary(OperatorType::Division, 5, 0), None);
    assert_eq!(apply_binary(OperatorType::Modulus, 5, 0), None);
    assert_eq!(apply_binary(OperatorType::Addition, 5, 0), Some(5));
}

#[test]
fn logic_and_comparison() {
    assert_eq!(apply_binary(OperatorType::And, 12, 10), Some(8));
    assert_eq!(apply_binary(OperatorType::Or, 12, 10), Some(14));
    assert_eq!(apply_binary(OperatorType::Equals, -1, -1), Some(1));
    assert_eq!(apply_binary(OperatorType::LessThan, -5, 3), Some(1));
    assert_eq!(apply_binary(OperatorType::GreaterThan, -5, 3), Some(0));
}

#[test]
fn decimal_text() {
    let mut out: Vec<char> = vec!['x'];
    write_decimal(&mut out, 0);
    write_decimal(&mut out, -45);
    write_decimal(&mut out, i32::MIN);
    write_decimal(&mut out, i32::MAX);
    let text: String = out.into_iter().collect();
    assert_eq!(text, "x0-45-21474836482147483647");
}
