use cfglang::arith::{add64_exec, div64_exec, mul64_exec, sub64_exec};
use cfglang::cfg::{BuildError, Instruction, Opcode, Operand};
use cfglang::numfmt::i64_to_string;

/// Adding and then subtracting the same value is the identity for
/// representable sums.
#[test]
fn add_then_sub_cancels() {
    assert_eq!(sub64_exec(add64_exec(37, 5), 5), 37);
    assert_eq!(sub64_exec(add64_exec(-12, 99), 99), -12);
}

/// One is a right identity of multiplication and of truncating division.
#[test]
fn one_is_a_right_identity() {
    assert_eq!(mul64_exec(123456789, 1), 123456789);
    assert_eq!(mul64_exec(-5, 1), -5);
    assert_eq!(div64_exec(123456789, 1), 123456789);
    assert_eq!(div64_exec(-5, 1), -5);
}

/// Division truncates toward zero, on either sign.
#[test]
fn division_truncates_toward_zero() {
    assert_eq!(div64_exec(7, 2), 3);
    assert_eq!(div64_exec(-7, 2), -3);
    assert_eq!(div64_exec(7, -2), -3);
    assert_eq!(div64_exec(-7, -2), 3);
}

/// The one overflowing quotient wraps back to the minimum.
#[test]
fn dividing_minimum_by_minus_one_wraps() {
    assert_eq!(div64_exec(i64::MIN, -1), i64::MIN);
}

/// Wrapping arithmetic at the 64-bit boundaries.
#[test]
fn arithmetic_wraps() {
    assert_eq!(add64_exec(i64::MAX, 1), i64::MIN);
    assert_eq!(sub64_exec(i64::MIN, 1), i64::MAX);
    assert_eq!(mul64_exec(i64::MAX, 2), -2);
}

/// Decimal rendering of values across the signed range.
#[test]
fn decimal_rendering_is_exact() {
    assert_eq!(i64_to_string(0), "0".to_string());
    assert_eq!(i64_to_string(7), "7".to_string());
    assert_eq!(i64_to_string(-5), "-5".to_string());
    assert_eq!(i64_to_string(123456), "123456".to_string());
    assert_eq!(i64_to_string(i64::MAX), "9223372036854775807".to_string());
    assert_eq!(i64_to_string(i64::MIN), "-9223372036854775808".to_string());
}

/// The construction API rejects operand lists an opcode cannot read, and
/// accepts the ones it can.
#[test]
fn instruction_construction_is_checked() {
    assert!(Instruction::new(0, Opcode::Mov, vec![Operand::Temporary(0), Operand::Immediate(5)])
        .is_ok());
    assert!(Instruction::new(0, Opcode::Print, vec![Operand::String(0)]).is_ok());
    assert_eq!(
        Instruction::new(0, Opcode::Print, vec![Operand::Label(3)]).err(),
        Some(BuildError::MalformedInput)
    );
    assert_eq!(
        Instruction::new(0, Opcode::Mov, vec![Operand::Immediate(1), Operand::Immediate(2)]).err(),
        Some(BuildError::MalformedInput)
    );
    assert_eq!(
        Instruction::new(0, Opcode::Call, vec![]).err(),
        Some(BuildError::MalformedInput)
    );
    assert_eq!(
        Instruction::new(0, Opcode::Add, vec![Operand::Temporary(0)]).err(),
        Some(BuildError::MalformedInput)
    );
}
