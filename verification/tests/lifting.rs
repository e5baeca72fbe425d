use pylift::stack_ir::parse::{lift_is_clean, parse314, IRParseError};
use pylift::stack_ir::{BinOp, Coercion, Constant, Instruction, JumpClass, UnaryOp, UnresolvedPlace};

#[test]
fn lift_extend_applies_to_next_opcode() {
    let res = parse314(&[69, 1, 82, 2]);
    assert_eq!(
        res,
        Ok(vec![Instruction::LoadConst(Constant::ByIndex(0x102))])
    );
}

#[test]
fn lift_extends_compose() {
    let res = parse314(&[69, 1, 69, 2, 52, 3]);
    assert_eq!(res, Ok(vec![Instruction::Call(0x10203)]));
}

#[test]
fn lift_extend_overflow() {
    let res = parse314(&[69, 255, 69, 255, 69, 255, 69, 0]);
    assert_eq!(res, Err(IRParseError::ArgExtendWouldOverflow(0xFFFF_FF00)));
}

#[test]
fn lift_small_int() {
    let res = parse314(&[128, 0, 94, 5, 35, 0]);
    assert_eq!(
        res,
        Ok(vec![
            Instruction::LoadConst(Constant::SmallInt(5)),
            Instruction::Return,
        ])
    );
}

#[test]
fn lift_small_int_too_large() {
    let res = parse314(&[69, 1, 94, 0]);
    assert_eq!(res, Err(IRParseError::SmallIntTooLarge(256)));
}

#[test]
fn lift_compare_plain() {
    let res = parse314(&[56, 0]);
    assert_eq!(res, Ok(vec![Instruction::BinaryOp(BinOp::Lt)]));
}

#[test]
fn lift_compare_with_bool_coercion() {
    let res = parse314(&[56, 16]);
    assert_eq!(
        res,
        Ok(vec![
            Instruction::BinaryOp(BinOp::Lt),
            Instruction::Coercion(Coercion::Bool),
        ])
    );
}

#[test]
fn lift_compare_second_op() {
    let res = parse314(&[56, 32]);
    assert_eq!(res, Ok(vec![Instruction::BinaryOp(BinOp::LtEq)]));
}

#[test]
fn lift_compare_out_of_bounds() {
    let res = parse314(&[56, 192]);
    assert_eq!(res, Err(IRParseError::OutOfBoundsCompareOp(192)));
}

#[test]
fn lift_binop_out_of_bounds() {
    let res = parse314(&[44, 27]);
    assert_eq!(res, Err(IRParseError::OutOfBoundsBinOp(27)));
}

#[test]
fn lift_unknown_opcode() {
    let res = parse314(&[200, 0]);
    assert_eq!(res, Err(IRParseError::NotYetImplementedInstruction(200)));
}

#[test]
fn lift_jump_past_end() {
    let res = parse314(&[100, 0]);
    assert_eq!(res, Err(IRParseError::JumpPastEnd(2)));
}

#[test]
fn lift_jump_before_start() {
    let res = parse314(&[75, 2]);
    assert_eq!(res, Err(IRParseError::JumpBeforeStart(1)));
}

#[test]
fn lift_backward_jump_to_self() {
    let res = parse314(&[75, 0, 35, 0]);
    assert_eq!(
        res,
        Ok(vec![
            Instruction::Jump { class: JumpClass::Always, target: 1 },
            Instruction::Return,
        ])
    );
}

#[test]
fn lift_desugared_none_check_jump() {
    // jump-if-not-none desugars to an is-none test, a negation, and a
    // conditional jump, all mapped to the same raw pair
    let res = parse314(&[101, 1, 128, 0, 128, 0, 35, 0]);
    assert_eq!(
        res,
        Ok(vec![
            Instruction::LoadConst(Constant::NoneType),
            Instruction::BinaryOp(BinOp::Is),
            Instruction::UnaryOp(UnaryOp::LogicalNot),
            Instruction::Jump { class: JumpClass::IfFalse, target: 4 },
            Instruction::Return,
        ])
    );
}

#[test]
fn lift_nibble_split_loads() {
    let res = parse314(&[87, 0x23]);
    assert_eq!(
        res,
        Ok(vec![
            Instruction::Load { from: UnresolvedPlace::Local(2) },
            Instruction::Load { from: UnresolvedPlace::Local(3) },
        ])
    );
}

#[test]
fn lift_paired_store_quirk() {
    // the second store of the pair uses the argument multiplied by fifteen
    let res = parse314(&[114, 0x12]);
    assert_eq!(
        res,
        Ok(vec![
            Instruction::Store { into: UnresolvedPlace::Local(1) },
            Instruction::Store { into: UnresolvedPlace::Local(0x12 * 15) },
        ])
    );
}

#[test]
fn lift_global_load_pushes_null() {
    let res = parse314(&[92, 7]);
    assert_eq!(
        res,
        Ok(vec![
            Instruction::LoadConst(Constant::Null),
            Instruction::Load { from: UnresolvedPlace::Global(3) },
        ])
    );
}

#[test]
fn lift_target_rewrite_skips_no_ops() {
    // the jump goes to raw pair 3; pairs 1 and 2 emit nothing, so the
    // rewritten target is the instruction emitted at pair 3
    let res = parse314(&[77, 2, 128, 0, 0, 0, 35, 0]);
    assert_eq!(
        res,
        Ok(vec![
            Instruction::Jump { class: JumpClass::Always, target: 1 },
            Instruction::Return,
        ])
    );
}

#[test]
fn lift_unary_and_coercions() {
    let res = parse314(&[41, 0, 42, 0, 40, 0, 39, 0, 16, 0, 71, 0, 14, 0, 74, 0, 23, 0]);
    assert_eq!(
        res,
        Ok(vec![
            Instruction::UnaryOp(UnaryOp::Negative),
            Instruction::UnaryOp(UnaryOp::LogicalNot),
            Instruction::UnaryOp(UnaryOp::Invert),
            Instruction::Coercion(Coercion::Bool),
            Instruction::Coercion(Coercion::Iter),
            Instruction::Coercion(Coercion::Awaitable),
            Instruction::Coercion(Coercion::AsyncIter),
            Instruction::BinaryOp(BinOp::Is),
            Instruction::MakeFunction,
        ])
    );
}

#[test]
fn lift_clean_stream() {
    assert!(lift_is_clean(&[128, 0, 94, 5, 35, 0]));
}

#[test]
fn lift_unclean_jump_into_trailing_no_ops() {
    // the jump target lies in a trailing run of pairs that emit nothing, so
    // no instruction exists for target rewriting to land on
    assert!(!lift_is_clean(&[100, 0, 128, 0, 128, 0]));
}

#[test]
fn lift_failing_stream_is_clean() {
    // a stream that fails to lift never reaches target rewriting
    assert!(lift_is_clean(&[200, 0]));
}
