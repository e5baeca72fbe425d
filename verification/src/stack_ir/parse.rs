//! Lifting raw CPython 3.14 bytecode into [`Instruction`] lists.
//!
//! The input is a stream of two-byte (opcode, argument) pairs. Lifting runs
//! in two passes: the first decodes each pair into zero or more typed
//! instructions, folding argument-extension prefixes into the next opcode's
//! effective argument and recording, for every emitted instruction, the pair
//! index it came from; the second rewrites every jump target from a raw pair
//! index to the index of the first instruction emitted at or after it.

use vstd::prelude::*;

use crate::stack_ir::{BinOp, Coercion, Constant, Instruction, JumpClass, UnaryOp, UnresolvedPlace};

verus! {

/// An error raised while lifting a raw bytecode stream.
#[derive(Debug, Clone, Copy, PartialEq, Eq, Structural)]
pub enum IRParseError {
    SmallIntTooLarge(u32),
    OutOfBoundsBinOp(u32),
    OutOfBoundsCompareOp(u32),
    ArgExtendWouldOverflow(u32),
    NotYetImplementedInstruction(u8),
    JumpPastEnd(u32),
    JumpBeforeStart(u32),
}

/// The (opcode, argument) pairs of a bytecode stream of even length.
pub open spec fn pairs_of(code: Seq<u8>) -> Seq<(u8, u8)> {
    Seq::new(code.len() / 2, |i: int| (code[2 * i], code[2 * i + 1]))
}

/// The binary operation selected by an effective argument of the
/// binary-operation opcode.
pub open spec fn binop_of(v: int) -> Option<BinOp> {
    if v == 0 {
        Some(BinOp::Add)
    } else if v == 1 {
        Some(BinOp::And)
    } else if v == 2 {
        Some(BinOp::FloorDiv)
    } else if v == 3 {
        Some(BinOp::LShift)
    } else if v == 4 {
        Some(BinOp::MatMul)
    } else if v == 5 {
        Some(BinOp::Mul)
    } else if v == 6 {
        Some(BinOp::Remainder)
    } else if v == 7 {
        Some(BinOp::Or)
    } else if v == 8 {
        Some(BinOp::Power)
    } else if v == 9 {
        Some(BinOp::RShift)
    } else if v == 10 {
        Some(BinOp::Sub)
    } else if v == 11 {
        Some(BinOp::Div)
    } else if v == 12 {
        Some(BinOp::Xor)
    } else if v == 13 {
        Some(BinOp::InplaceAdd)
    } else if v == 14 {
        Some(BinOp::InplaceAnd)
    } else if v == 15 {
        Some(BinOp::InplaceFloorDiv)
    } else if v == 16 {
        Some(BinOp::InplaceLShift)
    } else if v == 17 {
        Some(BinOp::InplaceMatMul)
    } else if v == 18 {
        Some(BinOp::InplaceMul)
    } else if v == 19 {
        Some(BinOp::InplaceRemainder)
    } else if v == 20 {
        Some(BinOp::InplaceOr)
    } else if v == 21 {
        Some(BinOp::InplacePower)
    } else if v == 22 {
        Some(BinOp::InplaceRShift)
    } else if v == 23 {
        Some(BinOp::InplaceSub)
    } else if v == 24 {
        Some(BinOp::InplaceDiv)
    } else if v == 25 {
        Some(BinOp::InplaceXor)
    } else if v == 26 {
        Some(BinOp::Subscript)
    } else {
        Option::None
    }
}

/// The comparison selected by the high bits of the comparison opcode's
/// effective argument.
pub open spec fn cmpop_of(v: int) -> Option<BinOp> {
    if v == 0 {
        Some(BinOp::Lt)
    } else if v == 1 {
        Some(BinOp::LtEq)
    } else if v == 2 {
        Some(BinOp::Eq)
    } else if v == 3 {
        Some(BinOp::Ne)
    } else if v == 4 {
        Some(BinOp::Gt)
    } else if v == 5 {
        Some(BinOp::GtEq)
    } else {
        Option::None
    }
}

/// What decoding one (opcode, argument) pair does: emit instructions (and
/// reset the extension), set a new extension, or fail.
pub enum DecodeStep {
    Emit(Seq<Instruction>),
    SetExt(int),
    Fault(IRParseError),
}

/// Decodes the pair at index `i` of `n`, under accumulated extension `ext`.
/// The effective argument of an opcode is `ext` plus its argument byte.
pub open spec fn decode_pair(op: u8, arg: u8, ext: int, i: int, n: int) -> DecodeStep {
    let eff = ext + arg;
    match op {
        // load const by index, small int, null
        82u8 => DecodeStep::Emit(seq![Instruction::LoadConst(Constant::ByIndex(eff as u32))]),
        94u8 => if eff > 255 {
            DecodeStep::Fault(IRParseError::SmallIntTooLarge(eff as u32))
        } else {
            DecodeStep::Emit(seq![Instruction::LoadConst(Constant::SmallInt(eff as u8))])
        },
        33u8 => DecodeStep::Emit(seq![Instruction::LoadConst(Constant::Null)]),
        // loads
        92u8 => DecodeStep::Emit(
            seq![
                Instruction::LoadConst(Constant::Null),
                Instruction::Load { from: UnresolvedPlace::Global((ext + (arg >> 1)) as u32) },
            ],
        ),
        83u8 | 84u8 | 85u8 | 86u8 | 88u8 => DecodeStep::Emit(
            seq![Instruction::Load { from: UnresolvedPlace::Local(eff as u32) }],
        ),
        87u8 | 89u8 => DecodeStep::Emit(
            seq![
                Instruction::Load { from: UnresolvedPlace::Local(((eff as u32) >> 4u32)) },
                Instruction::Load { from: UnresolvedPlace::Local((eff as u32) & 15u32) },
            ],
        ),
        93u8 => DecodeStep::Emit(
            seq![Instruction::Load { from: UnresolvedPlace::Name(eff as u32) }],
        ),
        // stores
        112u8 => DecodeStep::Emit(
            seq![Instruction::Store { into: UnresolvedPlace::Local(eff as u32) }],
        ),
        115u8 => DecodeStep::Emit(
            seq![Instruction::Store { into: UnresolvedPlace::Global(eff as u32) }],
        ),
        114u8 => DecodeStep::Emit(
            seq![
                Instruction::Store { into: UnresolvedPlace::Local((eff as u32) >> 4u32) },
                Instruction::Store {
                    into: UnresolvedPlace::Local(((eff * 15) % 0x1_0000_0000) as u32),
                },
            ],
        ),
        116u8 => DecodeStep::Emit(
            seq![Instruction::Store { into: UnresolvedPlace::Name(eff as u32) }],
        ),
        // paired store and load
        113u8 => DecodeStep::Emit(
            seq![
                Instruction::Store { into: UnresolvedPlace::Local((eff as u32) >> 4u32) },
                Instruction::Load { from: UnresolvedPlace::Local((eff as u32) & 15u32) },
            ],
        ),
        // pops
        9u8 | 30u8 | 31u8 => DecodeStep::Emit(seq![Instruction::Pop]),
        // copy and swap
        59u8 => DecodeStep::Emit(seq![Instruction::Copy(eff as u32)]),
        117u8 => DecodeStep::Emit(seq![Instruction::Swap(eff as u32)]),
        // binary operations
        44u8 => match binop_of(eff) {
            Some(b) => DecodeStep::Emit(seq![Instruction::BinaryOp(b)]),
            Option::None => DecodeStep::Fault(IRParseError::OutOfBoundsBinOp(eff as u32)),
        },
        // comparisons; bit 4 requests a coercion to bool after the compare
        56u8 => match cmpop_of(eff / 32) {
            Some(b) => if eff % 32 >= 16 {
                DecodeStep::Emit(
                    seq![Instruction::BinaryOp(b), Instruction::Coercion(Coercion::Bool)],
                )
            } else {
                DecodeStep::Emit(seq![Instruction::BinaryOp(b)])
            },
            Option::None => DecodeStep::Fault(IRParseError::OutOfBoundsCompareOp(eff as u32)),
        },
        74u8 => DecodeStep::Emit(seq![Instruction::BinaryOp(BinOp::Is)]),
        // unary operations
        41u8 => DecodeStep::Emit(seq![Instruction::UnaryOp(UnaryOp::Negative)]),
        42u8 => DecodeStep::Emit(seq![Instruction::UnaryOp(UnaryOp::LogicalNot)]),
        40u8 => DecodeStep::Emit(seq![Instruction::UnaryOp(UnaryOp::Invert)]),
        // forward jumps, plain and desugared
        100u8 => {
            let t = i + 2 + eff;
            if t >= n {
                DecodeStep::Fault(IRParseError::JumpPastEnd(((t % 0x1_0000_0000) as u32)))
            } else {
                DecodeStep::Emit(
                    seq![Instruction::Jump { class: JumpClass::IfFalse, target: t as u32 }],
                )
            }
        },
        101u8 => {
            let t = i + 2 + eff;
            if t >= n {
                DecodeStep::Fault(IRParseError::JumpPastEnd(((t % 0x1_0000_0000) as u32)))
            } else {
                DecodeStep::Emit(
                    seq![
                        Instruction::LoadConst(Constant::NoneType),
                        Instruction::BinaryOp(BinOp::Is),
                        Instruction::UnaryOp(UnaryOp::LogicalNot),
                        Instruction::Jump { class: JumpClass::IfFalse, target: t as u32 },
                    ],
                )
            }
        },
        102u8 => {
            let t = i + 2 + eff;
            if t >= n {
                DecodeStep::Fault(IRParseError::JumpPastEnd(((t % 0x1_0000_0000) as u32)))
            } else {
                DecodeStep::Emit(
                    seq![
                        Instruction::LoadConst(Constant::NoneType),
                        Instruction::BinaryOp(BinOp::Is),
                        Instruction::Jump { class: JumpClass::IfFalse, target: t as u32 },
                    ],
                )
            }
        },
        103u8 => {
            let t = i + 2 + eff;
            if t >= n {
                DecodeStep::Fault(IRParseError::JumpPastEnd(((t % 0x1_0000_0000) as u32)))
            } else {
                DecodeStep::Emit(
                    seq![
                        Instruction::UnaryOp(UnaryOp::LogicalNot),
                        Instruction::Jump { class: JumpClass::IfFalse, target: t as u32 },
                    ],
                )
            }
        },
        77u8 => {
            let t = i + 1 + eff;
            if t >= n {
                DecodeStep::Fault(IRParseError::JumpPastEnd(((t % 0x1_0000_0000) as u32)))
            } else {
                DecodeStep::Emit(
                    seq![Instruction::Jump { class: JumpClass::Always, target: t as u32 }],
                )
            }
        },
        // backward jump
        75u8 => if eff > i + 1 {
            DecodeStep::Fault(IRParseError::JumpBeforeStart((eff - i - 1) as u32))
        } else {
            DecodeStep::Emit(
                seq![
                    Instruction::Jump { class: JumpClass::Always, target: (i + 1 - eff) as u32 },
                ],
            )
        },
        // call, return, make-function
        52u8 => DecodeStep::Emit(seq![Instruction::Call(eff as u32)]),
        35u8 => DecodeStep::Emit(seq![Instruction::Return]),
        23u8 => DecodeStep::Emit(seq![Instruction::MakeFunction]),
        // coercions
        39u8 => DecodeStep::Emit(seq![Instruction::Coercion(Coercion::Bool)]),
        16u8 => DecodeStep::Emit(seq![Instruction::Coercion(Coercion::Iter)]),
        71u8 => DecodeStep::Emit(seq![Instruction::Coercion(Coercion::Awaitable)]),
        14u8 => DecodeStep::Emit(seq![Instruction::Coercion(Coercion::AsyncIter)]),
        // argument extension prefix; overflow is checked before the shift
        69u8 => if ext > 0xFF_FFFF {
            DecodeStep::Fault(IRParseError::ArgExtendWouldOverflow(ext as u32))
        } else {
            DecodeStep::SetExt(((ext + arg) % 0x100_0000) * 0x100)
        },
        // no-ops: reset the extension, emit nothing
        27u8 | 0u8 | 128u8 | 28u8 => DecodeStep::Emit(Seq::empty()),
        _ => DecodeStep::Fault(IRParseError::NotYetImplementedInstruction(op)),
    }
}

/// The outcome of the first lifting pass: the emitted instructions and, for
/// each, the pair index it was emitted at.
pub enum LiftStep {
    Done { out: Seq<Instruction>, map: Seq<int> },
    Fail(IRParseError),
}

/// Runs the first pass from pair `i` onward.
pub open spec fn s_lift_from(
    pairs: Seq<(u8, u8)>,
    i: int,
    ext: int,
    out: Seq<Instruction>,
    map: Seq<int>,
) -> LiftStep
    decreases pairs.len() - i,
{
    if i < 0 || i >= pairs.len() {
        LiftStep::Done { out, map }
    } else {
        match decode_pair(pairs[i].0, pairs[i].1, ext, i, pairs.len() as int) {
            DecodeStep::Fault(e) => LiftStep::Fail(e),
            DecodeStep::SetExt(e2) => s_lift_from(pairs, i + 1, e2, out, map),
            DecodeStep::Emit(instrs) => s_lift_from(
                pairs,
                i + 1,
                0,
                out + instrs,
                map + Seq::new(instrs.len(), |k: int| i),
            ),
        }
    }
}

/// The first pass over a whole stream.
pub open spec fn s_lift(code: Seq<u8>) -> LiftStep {
    s_lift_from(pairs_of(code), 0, 0, Seq::empty(), Seq::empty())
}

/// How many entries of `map` lie below `t`. On the nondecreasing pair-index
/// table this is the index of the first instruction emitted at or after
/// pair `t`.
pub open spec fn num_below(map: Seq<int>, t: int) -> int
    decreases map.len(),
{
    if map.len() == 0 {
        0
    } else {
        num_below(map.drop_last(), t) + if map.last() < t {
            1int
        } else {
            0int
        }
    }
}

/// Every jump target has an instruction emitted at or after its pair index;
/// rewriting a stream that violates this is a lifter bug.
pub open spec fn rewrite_ok(out: Seq<Instruction>, map: Seq<int>) -> bool {
    forall|k: int|
        0 <= k < out.len() ==> match #[trigger] out[k] {
            Instruction::Jump { class, target } => num_below(map, target as int) < map.len(),
            _ => true,
        }
}

/// Every jump target lies strictly inside the instruction list.
pub open spec fn targets_in_range(code: Seq<Instruction>) -> bool {
    forall|k: int|
        0 <= k < code.len() ==> match #[trigger] code[k] {
            Instruction::Jump { class, target } => (target as int) < code.len(),
            _ => true,
        }
}

/// Rewrites every jump target from a pair index to an instruction index.
pub open spec fn s_rewrite(out: Seq<Instruction>, map: Seq<int>) -> Seq<Instruction> {
    Seq::new(
        out.len(),
        |k: int|
            match out[k] {
                Instruction::Jump { class, target } => Instruction::Jump {
                    class,
                    target: num_below(map, target as int) as u32,
                },
                other => other,
            },
    )
}

/// The instruction list denoted by a bytecode stream, or the error its
/// lifting raises.
pub open spec fn s_parse314(code: Seq<u8>) -> Result<Seq<Instruction>, IRParseError> {
    match s_lift(code) {
        LiftStep::Fail(e) => Err(e),
        LiftStep::Done { out, map } => Ok(s_rewrite(out, map)),
    }
}

/// Whether a stream lifts without reaching the rewrite-failure condition
/// that is an internal lifter bug.
pub open spec fn lifts_cleanly(code: Seq<u8>) -> bool {
    match s_lift(code) {
        LiftStep::Fail(e) => true,
        LiftStep::Done { out, map } => rewrite_ok(out, map),
    }
}


/// The pair indices recorded for emitted instructions, as integers.
pub open spec fn map_view(s: Seq<usize>) -> Seq<int> {
    s.map_values(|x: usize| x as int)
}

/// Appends one instruction and its pair index.
fn emit1(out: &mut Vec<Instruction>, mapping: &mut Vec<usize>, a: Instruction, i: usize)
    ensures
        final(out)@ == old(out)@ + seq![a],
        map_view(final(mapping)@) == map_view(old(mapping)@) + Seq::new(1, |k: int| i as int),
        final(mapping)@.len() == old(mapping)@.len() + 1,
{
    out.push(a);
    mapping.push(i);
    proof {
        assert(final(out)@ =~= old(out)@ + seq![a]);
        assert(map_view(final(mapping)@) =~= map_view(old(mapping)@) + Seq::new(
            1,
            |k: int| i as int,
        ));
    }
}

/// Appends two instructions sharing one pair index.
fn emit2(out: &mut Vec<Instruction>, mapping: &mut Vec<usize>, a: Instruction, b: Instruction, i: usize)
    ensures
        final(out)@ == old(out)@ + seq![a, b],
        map_view(final(mapping)@) == map_view(old(mapping)@) + Seq::new(2, |k: int| i as int),
        final(mapping)@.len() == old(mapping)@.len() + 2,
{
    out.push(a);
    out.push(b);
    mapping.push(i);
    mapping.push(i);
    proof {
        assert(final(out)@ =~= old(out)@ + seq![a, b]);
        assert(map_view(final(mapping)@) =~= map_view(old(mapping)@) + Seq::new(
            2,
            |k: int| i as int,
        ));
    }
}

/// Appends three instructions sharing one pair index.
fn emit3(
    out: &mut Vec<Instruction>,
    mapping: &mut Vec<usize>,
    a: Instruction,
    b: Instruction,
    c: Instruction,
    i: usize,
)
    ensures
        final(out)@ == old(out)@ + seq![a, b, c],
        map_view(final(mapping)@) == map_view(old(mapping)@) + Seq::new(3, |k: int| i as int),
        final(mapping)@.len() == old(mapping)@.len() + 3,
{
    out.push(a);
    out.push(b);
    out.push(c);
    mapping.push(i);
    mapping.push(i);
    mapping.push(i);
    proof {
        assert(final(out)@ =~= old(out)@ + seq![a, b, c]);
        assert(map_view(final(mapping)@) =~= map_view(old(mapping)@) + Seq::new(
            3,
            |k: int| i as int,
        ));
    }
}

/// Appends four instructions sharing one pair index.
fn emit4(
    out: &mut Vec<Instruction>,
    mapping: &mut Vec<usize>,
    a: Instruction,
    b: Instruction,
    c: Instruction,
    d: Instruction,
    i: usize,
)
    ensures
        final(out)@ == old(out)@ + seq![a, b, c, d],
        map_view(final(mapping)@) == map_view(old(mapping)@) + Seq::new(4, |k: int| i as int),
        final(mapping)@.len() == old(mapping)@.len() + 4,
{
    out.push(a);
    out.push(b);
    out.push(c);
    out.push(d);
    mapping.push(i);
    mapping.push(i);
    mapping.push(i);
    mapping.push(i);
    proof {
        assert(final(out)@ =~= old(out)@ + seq![a, b, c, d]);
        assert(map_view(final(mapping)@) =~= map_view(old(mapping)@) + Seq::new(
            4,
            |k: int| i as int,
        ));
    }
}

/// The binary operation for an effective argument, as `binop_of`.
fn binop_for(v: u32) -> (r: Option<BinOp>)
    ensures
        r == binop_of(v as int),
{
    match v {
        0u32 => Some(BinOp::Add),
        1u32 => Some(BinOp::And),
        2u32 => Some(BinOp::FloorDiv),
        3u32 => Some(BinOp::LShift),
        4u32 => Some(BinOp::MatMul),
        5u32 => Some(BinOp::Mul),
        6u32 => Some(BinOp::Remainder),
        7u32 => Some(BinOp::Or),
        8u32 => Some(BinOp::Power),
        9u32 => Some(BinOp::RShift),
        10u32 => Some(BinOp::Sub),
        11u32 => Some(BinOp::Div),
        12u32 => Some(BinOp::Xor),
        13u32 => Some(BinOp::InplaceAdd),
        14u32 => Some(BinOp::InplaceAnd),
        15u32 => Some(BinOp::InplaceFloorDiv),
        16u32 => Some(BinOp::InplaceLShift),
        17u32 => Some(BinOp::InplaceMatMul),
        18u32 => Some(BinOp::InplaceMul),
        19u32 => Some(BinOp::InplaceRemainder),
        20u32 => Some(BinOp::InplaceOr),
        21u32 => Some(BinOp::InplacePower),
        22u32 => Some(BinOp::InplaceRShift),
        23u32 => Some(BinOp::InplaceSub),
        24u32 => Some(BinOp::InplaceDiv),
        25u32 => Some(BinOp::InplaceXor),
        26u32 => Some(BinOp::Subscript),
        _ => Option::None,
    }
}

/// The comparison for the high bits of an effective argument, as `cmpop_of`.
fn cmpop_for(v: u32) -> (r: Option<BinOp>)
    ensures
        r == cmpop_of(v as int),
{
    match v {
        0u32 => Some(BinOp::Lt),
        1u32 => Some(BinOp::LtEq),
        2u32 => Some(BinOp::Eq),
        3u32 => Some(BinOp::Ne),
        4u32 => Some(BinOp::Gt),
        5u32 => Some(BinOp::GtEq),
        _ => Option::None,
    }
}

/// How many recorded pair indices lie below `t`.
fn count_below(mapping: &Vec<usize>, t: u32) -> (c: usize)
    ensures
        c as int == num_below(map_view(mapping@), t as int),
        c <= mapping@.len(),
{
    let mut c: usize = 0;
    let mut j: usize = 0;
    while j < mapping.len()
        invariant
            0 <= j <= mapping@.len(),
            c <= j,
            c as int == num_below(map_view(mapping@).subrange(0, j as int), t as int),
        decreases mapping@.len() - j,
    {
        proof {
            let mv = map_view(mapping@);
            assert(mv.subrange(0, j + 1).drop_last() =~= mv.subrange(0, j as int));
            assert(mv.subrange(0, j + 1).last() == mv[j as int]);
            assert(mv[j as int] == mapping@[j as int] as int);
        }
        if mapping[j] < t as usize {
            c = c + 1;
        }
        j = j + 1;
    }
    proof {
        assert(map_view(mapping@).subrange(0, mapping@.len() as int) =~= map_view(mapping@));
    }
    c
}

/// Runs the first lifting pass: decodes every pair, accumulating the
/// emitted instructions and, for each, the pair index it came from.
fn lift_pass1(code: &[u8]) -> (r: Result<(Vec<Instruction>, Vec<usize>), IRParseError>)
    requires
        code@.len() % 2 == 0,
        code@.len() < 0x8000_0000,
    ensures
        match r {
            Ok((out, mapping)) => s_lift(code@) == (LiftStep::Done {
                out: out@,
                map: map_view(mapping@),
            }) && out@.len() == mapping@.len() && out@.len() <= 2 * code@.len(),
            Err(e) => s_lift(code@) == LiftStep::Fail(e),
        },
{
    let ghost pairs = pairs_of(code@);
    let n_pairs = code.len() / 2;
    let mut out: Vec<Instruction> = Vec::new();
    let mut mapping: Vec<usize> = Vec::new();
    let mut ext: u32 = 0;
    let mut i: usize = 0;
    proof {
        assert(out@ =~= Seq::<Instruction>::empty());
        assert(map_view(mapping@) =~= Seq::<int>::empty());
    }
    while i < n_pairs
        invariant
            code@.len() % 2 == 0,
            code@.len() < 0x8000_0000,
            pairs == pairs_of(code@),
            n_pairs == pairs.len(),
            n_pairs == code@.len() / 2,
            0 <= i <= n_pairs,
            ext <= 0xFFFF_FF00u32,
            out@.len() == mapping@.len(),
            out@.len() <= 4 * i,
            s_lift_from(pairs, i as int, ext as int, out@, map_view(mapping@)) == s_lift(code@),
        decreases n_pairs - i,
    {
        let op = code[2 * i];
        let arg = code[2 * i + 1];
        proof {
            assert(pairs[i as int] == (code@[2 * (i as int)], code@[2 * (i as int) + 1]));
        }
        let eff: u32 = ext + arg as u32;
        let ghost pre_out = out@;
        let ghost pre_map = map_view(mapping@);
        match op {
            82u8 => {
                emit1(&mut out, &mut mapping, Instruction::LoadConst(Constant::ByIndex(eff)), i);
                ext = 0;
            },
            94u8 => {
                if eff > 255 {
                    return Err(IRParseError::SmallIntTooLarge(eff));
                }
                emit1(
                    &mut out,
                    &mut mapping,
                    Instruction::LoadConst(Constant::SmallInt(eff as u8)),
                    i,
                );
                ext = 0;
            },
            33u8 => {
                emit1(&mut out, &mut mapping, Instruction::LoadConst(Constant::Null), i);
                ext = 0;
            },
            92u8 => {
                let g = ext + (arg >> 1) as u32;
                emit2(
                    &mut out,
                    &mut mapping,
                    Instruction::LoadConst(Constant::Null),
                    Instruction::Load { from: UnresolvedPlace::Global(g) },
                    i,
                );
                ext = 0;
            },
            83u8 | 84u8 | 85u8 | 86u8 | 88u8 => {
                emit1(
                    &mut out,
                    &mut mapping,
                    Instruction::Load { from: UnresolvedPlace::Local(eff) },
                    i,
                );
                ext = 0;
            },
            87u8 | 89u8 => {
                emit2(
                    &mut out,
                    &mut mapping,
                    Instruction::Load { from: UnresolvedPlace::Local(eff >> 4u32) },
                    Instruction::Load { from: UnresolvedPlace::Local(eff & 15u32) },
                    i,
                );
                ext = 0;
            },
            93u8 => {
                emit1(
                    &mut out,
                    &mut mapping,
                    Instruction::Load { from: UnresolvedPlace::Name(eff) },
                    i,
                );
                ext = 0;
            },
            112u8 => {
                emit1(
                    &mut out,
                    &mut mapping,
                    Instruction::Store { into: UnresolvedPlace::Local(eff) },
                    i,
                );
                ext = 0;
            },
            115u8 => {
                emit1(
                    &mut out,
                    &mut mapping,
                    Instruction::Store { into: UnresolvedPlace::Global(eff) },
                    i,
                );
                ext = 0;
            },
            114u8 => {
                let lo = (((eff as u64) * 15) % 0x1_0000_0000) as u32;
                emit2(
                    &mut out,
                    &mut mapping,
                    Instruction::Store { into: UnresolvedPlace::Local(eff >> 4u32) },
                    Instruction::Store { into: UnresolvedPlace::Local(lo) },
                    i,
                );
                ext = 0;
            },
            116u8 => {
                emit1(
                    &mut out,
                    &mut mapping,
                    Instruction::Store { into: UnresolvedPlace::Name(eff) },
                    i,
                );
                ext = 0;
            },
            113u8 => {
                emit2(
                    &mut out,
                    &mut mapping,
                    Instruction::Store { into: UnresolvedPlace::Local(eff >> 4u32) },
                    Instruction::Load { from: UnresolvedPlace::Local(eff & 15u32) },
                    i,
                );
                ext = 0;
            },
            9u8 | 30u8 | 31u8 => {
                emit1(&mut out, &mut mapping, Instruction::Pop, i);
                ext = 0;
            },
            59u8 => {
                emit1(&mut out, &mut mapping, Instruction::Copy(eff), i);
                ext = 0;
            },
            117u8 => {
                emit1(&mut out, &mut mapping, Instruction::Swap(eff), i);
                ext = 0;
            },
            44u8 => {
                let b = match binop_for(eff) {
                    Some(b) => b,
                    Option::None => {
                        return Err(IRParseError::OutOfBoundsBinOp(eff));
                    },
                };
                emit1(&mut out, &mut mapping, Instruction::BinaryOp(b), i);
                ext = 0;
            },
            56u8 => {
                let b = match cmpop_for(eff / 32) {
                    Some(b) => b,
                    Option::None => {
                        return Err(IRParseError::OutOfBoundsCompareOp(eff));
                    },
                };
                if eff % 32 >= 16 {
                    emit2(
                        &mut out,
                        &mut mapping,
                        Instruction::BinaryOp(b),
                        Instruction::Coercion(Coercion::Bool),
                        i,
                    );
                } else {
                    emit1(&mut out, &mut mapping, Instruction::BinaryOp(b), i);
                }
                ext = 0;
            },
            74u8 => {
                emit1(&mut out, &mut mapping, Instruction::BinaryOp(BinOp::Is), i);
                ext = 0;
            },
            41u8 => {
                emit1(&mut out, &mut mapping, Instruction::UnaryOp(UnaryOp::Negative), i);
                ext = 0;
            },
            42u8 => {
                emit1(&mut out, &mut mapping, Instruction::UnaryOp(UnaryOp::LogicalNot), i);
                ext = 0;
            },
            40u8 => {
                emit1(&mut out, &mut mapping, Instruction::UnaryOp(UnaryOp::Invert), i);
                ext = 0;
            },
            100u8 => {
                let t64 = i as u64 + 2 + eff as u64;
                if t64 >= n_pairs as u64 {
                    return Err(IRParseError::JumpPastEnd((t64 % 0x1_0000_0000) as u32));
                }
                emit1(
                    &mut out,
                    &mut mapping,
                    Instruction::Jump { class: JumpClass::IfFalse, target: t64 as u32 },
                    i,
                );
                ext = 0;
            },
            101u8 => {
                let t64 = i as u64 + 2 + eff as u64;
                if t64 >= n_pairs as u64 {
                    return Err(IRParseError::JumpPastEnd((t64 % 0x1_0000_0000) as u32));
                }
                emit4(
                    &mut out,
                    &mut mapping,
                    Instruction::LoadConst(Constant::NoneType),
                    Instruction::BinaryOp(BinOp::Is),
                    Instruction::UnaryOp(UnaryOp::LogicalNot),
                    Instruction::Jump { class: JumpClass::IfFalse, target: t64 as u32 },
                    i,
                );
                ext = 0;
            },
            102u8 => {
                let t64 = i as u64 + 2 + eff as u64;
                if t64 >= n_pairs as u64 {
                    return Err(IRParseError::JumpPastEnd((t64 % 0x1_0000_0000) as u32));
                }
                emit3(
                    &mut out,
                    &mut mapping,
                    Instruction::LoadConst(Constant::NoneType),
                    Instruction::BinaryOp(BinOp::Is),
                    Instruction::Jump { class: JumpClass::IfFalse, target: t64 as u32 },
                    i,
                );
                ext = 0;
            },
            103u8 => {
                let t64 = i as u64 + 2 + eff as u64;
                if t64 >= n_pairs as u64 {
                    return Err(IRParseError::JumpPastEnd((t64 % 0x1_0000_0000) as u32));
                }
                emit2(
                    &mut out,
                    &mut mapping,
                    Instruction::UnaryOp(UnaryOp::LogicalNot),
                    Instruction::Jump { class: JumpClass::IfFalse, target: t64 as u32 },
                    i,
                );
                ext = 0;
            },
            77u8 => {
                let t64 = i as u64 + 1 + eff as u64;
                if t64 >= n_pairs as u64 {
                    return Err(IRParseError::JumpPastEnd((t64 % 0x1_0000_0000) as u32));
                }
                emit1(
                    &mut out,
                    &mut mapping,
                    Instruction::Jump { class: JumpClass::Always, target: t64 as u32 },
                    i,
                );
                ext = 0;
            },
            75u8 => {
                if eff as u64 > i as u64 + 1 {
                    return Err(IRParseError::JumpBeforeStart(eff - i as u32 - 1));
                }
                let t = i as u32 + 1 - eff;
                emit1(
                    &mut out,
                    &mut mapping,
                    Instruction::Jump { class: JumpClass::Always, target: t },
                    i,
                );
                ext = 0;
            },
            52u8 => {
                emit1(&mut out, &mut mapping, Instruction::Call(eff), i);
                ext = 0;
            },
            35u8 => {
                emit1(&mut out, &mut mapping, Instruction::Return, i);
                ext = 0;
            },
            23u8 => {
                emit1(&mut out, &mut mapping, Instruction::MakeFunction, i);
                ext = 0;
            },
            39u8 => {
                emit1(&mut out, &mut mapping, Instruction::Coercion(Coercion::Bool), i);
                ext = 0;
            },
            16u8 => {
                emit1(&mut out, &mut mapping, Instruction::Coercion(Coercion::Iter), i);
                ext = 0;
            },
            71u8 => {
                emit1(&mut out, &mut mapping, Instruction::Coercion(Coercion::Awaitable), i);
                ext = 0;
            },
            14u8 => {
                emit1(&mut out, &mut mapping, Instruction::Coercion(Coercion::AsyncIter), i);
                ext = 0;
            },
            69u8 => {
                if ext > 0xFF_FFFF {
                    return Err(IRParseError::ArgExtendWouldOverflow(ext));
                }
                let widened = (ext as u64 + arg as u64) % 0x100_0000;
                ext = (widened * 0x100) as u32;
            },
            27u8 | 0u8 | 128u8 | 28u8 => {
                proof {
                    assert(pre_out + Seq::<Instruction>::empty() =~= pre_out);
                    assert(pre_map + Seq::new(0, |k: int| i as int) =~= pre_map);
                }
                ext = 0;
            },
            _ => {
                return Err(IRParseError::NotYetImplementedInstruction(op));
            },
        }
        i = i + 1;
    }
    Ok((out, mapping))
}

/// Lifts a raw bytecode stream of (opcode, argument) pairs into typed
/// instructions with jump targets rewritten to absolute instruction
/// indices.
///
/// The stream must have even length, and must not reach the target-rewrite
/// failure that marks an internal lifter bug (a jump into a trailing run of
/// pairs that emit no instruction); `lift_is_clean` decides that.
pub fn parse314(code: &[u8]) -> (r: Result<Vec<Instruction>, IRParseError>)
    requires
        code@.len() % 2 == 0,
        code@.len() < 0x8000_0000,
        lifts_cleanly(code@),
    ensures
        match s_parse314(code@) {
            Ok(instrs) => r matches Ok(v) && v@ == instrs,
            Err(e) => r == Err::<Vec<Instruction>, IRParseError>(e),
        },
        r matches Ok(v) ==> v@.len() <= 2 * code@.len() && targets_in_range(v@),
{
    let (mut out, mapping) = match lift_pass1(code) {
        Ok(p) => p,
        Err(e) => {
            return Err(e);
        },
    };
    let ghost out0 = out@;
    let ghost map0 = map_view(mapping@);
    proof {
        assert(s_lift(code@) == (LiftStep::Done { out: out0, map: map0 }));
        assert(rewrite_ok(out0, map0));
        assert(map0.len() == out0.len());
        assert(out0.len() <= 2 * code@.len());
        assert(out0.len() < 0x1_0000_0000);
    }
    let mut k: usize = 0;
    while k < out.len()
        invariant
            out@.len() == out0.len(),
            map_view(mapping@) == map0,
            mapping@.len() == map0.len(),
            map0.len() == out0.len(),
            out0.len() < 0x1_0000_0000,
            rewrite_ok(out0, map0),
            0 <= k <= out0.len(),
            out0.len() <= 2 * code@.len(),
            forall|j: int| 0 <= j < k ==> out@[j] == s_rewrite(out0, map0)[j],
            forall|j: int|
                0 <= j < k ==> match #[trigger] out@[j] {
                    Instruction::Jump { class, target } => (target as int) < out0.len(),
                    _ => true,
                },
            forall|j: int| k <= j < out0.len() ==> out@[j] == out0[j],
        decreases out0.len() - k,
    {
        let ins = out[k];
        match ins {
            Instruction::Jump { class, target } => {
                proof {
                    assert(out0[k as int] == (Instruction::Jump { class, target }));
                    assert(num_below(map0, target as int) < map0.len());
                }
                let nt = count_below(&mapping, target);
                out.set(k, Instruction::Jump { class, target: nt as u32 });
            },
            _ => {},
        }
        k = k + 1;
    }
    proof {
        assert(out@ =~= s_rewrite(out0, map0));
        assert(targets_in_range(out@));
    }
    Ok(out)
}


/// The first pass records exactly one pair index per emitted instruction,
/// and one pair emits at most four instructions.

/// Decides whether a stream lifts without reaching the target-rewrite
/// failure, so that callers can establish `parse314`'s precondition at run
/// time.
pub fn lift_is_clean(code: &[u8]) -> (b: bool)
    requires
        code@.len() % 2 == 0,
        code@.len() < 0x8000_0000,
    ensures
        b == lifts_cleanly(code@),
{
    let (out, mapping) = match lift_pass1(code) {
        Ok(p) => p,
        Err(e) => {
            return true;
        },
    };
    let ghost out0 = out@;
    let ghost map0 = map_view(mapping@);
    let mut k: usize = 0;
    while k < out.len()
        invariant
            s_lift(code@) == (LiftStep::Done { out: out0, map: map0 }),
            out0 == out@,
            map0 == map_view(mapping@),
            map0.len() == out0.len(),
            mapping@.len() == map0.len(),
            0 <= k <= out0.len(),
            forall|j: int|
                0 <= j < k ==> match #[trigger] out0[j] {
                    Instruction::Jump { class, target } => num_below(map0, target as int)
                        < map0.len(),
                    _ => true,
                },
        decreases out0.len() - k,
    {
        let ins = out[k];
        match ins {
            Instruction::Jump { class, target } => {
                let c = count_below(&mapping, target);
                if c == mapping.len() {
                    proof {
                        assert(!rewrite_ok(out0, map0));
                    }
                    return false;
                }
            },
            _ => {},
        }
        k = k + 1;
    }
    proof {
        assert(rewrite_ok(out0, map0));
    }
    true
}

} // verus!
