//! Version-agnostic intermediate representation of CPython bytecode.
//!
//! The instruction set abstracts over the wire-level opcode numbering: one
//! typed instruction per stack-machine operation, with jump targets expressed
//! as absolute indices once the lifter in [`parse`] has finished.

use vstd::prelude::*;

pub mod parse;

verus! {

/// A lifted stack-machine instruction.
#[derive(Debug, Clone, Copy, PartialEq, Eq, Structural)]
pub enum Instruction {
    LoadConst(Constant),
    Load { from: UnresolvedPlace },
    Store { into: UnresolvedPlace },
    Pop,
    Copy(u32),
    Swap(u32),
    UnaryOp(UnaryOp),
    /// Binary operations, comparisons and identity tests.
    BinaryOp(BinOp),
    /// `target` is an absolute jump target: a raw pair index during lifting,
    /// an instruction index after target rewriting.
    Jump { class: JumpClass, target: u32 },
    Call(u32),
    Return,
    MakeFunction,
    /// Implicit conversions.
    Coercion(Coercion),
}

/// A storage slot as named by the raw bytecode, before symbol resolution.
#[derive(Debug, Clone, Copy, PartialEq, Eq, Structural)]
pub enum UnresolvedPlace {
    Global(u32),
    Local(u32),
    Cell(u32),
    Name(u32),
}

/// A constant operand of a `LoadConst` instruction.
#[derive(Debug, Clone, Copy, PartialEq, Eq, Structural)]
pub enum Constant {
    ByIndex(u32),
    SmallInt(u8),
    NoneType,
    Null,
}

#[derive(Debug, Clone, Copy, PartialEq, Eq, Structural)]
pub enum UnaryOp {
    Negative,
    LogicalNot,
    Invert,
}

#[derive(Debug, Clone, Copy, PartialEq, Eq, Structural)]
pub enum BinOp {
    Add,
    Sub,
    Mul,
    Power,
    Div,
    FloorDiv,
    Remainder,
    And,
    Or,
    Xor,
    LShift,
    RShift,
    MatMul,
    InplaceAdd,
    InplaceSub,
    InplaceMul,
    InplacePower,
    InplaceDiv,
    InplaceFloorDiv,
    InplaceRemainder,
    InplaceAnd,
    InplaceOr,
    InplaceXor,
    InplaceLShift,
    InplaceRShift,
    InplaceMatMul,
    Subscript,
    Eq,
    Ne,
    Gt,
    Lt,
    GtEq,
    LtEq,
    Is,
}

#[derive(Debug, Clone, Copy, PartialEq, Eq, Structural)]
pub enum JumpClass {
    Always,
    IfFalse,
}

#[derive(Debug, Clone, Copy, PartialEq, Eq, Structural)]
pub enum Coercion {
    Bool,
    Iter,
    Awaitable,
    AsyncIter,
}

} // verus!
