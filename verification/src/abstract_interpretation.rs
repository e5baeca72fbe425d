//! Block-structured recovery of programs from the stack-machine IR.
//!
//! The evaluator in [`eval`] partitions a lifted instruction list into basic
//! blocks, symbolically evaluates the stack effect of each block, and emits a
//! list of statements plus an explicit control-flow terminator per block.

use vstd::prelude::*;

use crate::stack_ir::{BinOp, Coercion, Constant, UnaryOp, UnresolvedPlace};

pub mod eval;

verus! {

/// A symbolic expression recovered from the evaluation stack.
#[derive(Debug, PartialEq)]
pub enum Expr {
    Constant(Constant),
    Load { from: Place },
    UnaryOp(UnaryOp, Box<Expr>),
    BinaryOp { op: BinOp, lhs: Box<Expr>, rhs: Box<Expr> },
    Coercion(Coercion, Box<Expr>),
    MakeFunction(Box<Expr>),
    Call { func: Box<Expr>, receiver: Box<Expr>, args: Vec<Expr> },
}

/// A statement of a recovered block. `If` and `Jump` exist only transiently
/// while a block is being evaluated; terminator synthesis replaces them.
#[derive(Debug, PartialEq)]
pub enum Statement {
    Trivial(Expr),
    Store { expr: Expr, into: Place },
    Return(Expr),
    If { expr: Expr, target: u32 },
    Jump { target: u32 },
}

/// A basic block: straight-line statements plus a control-flow terminator.
#[derive(Debug, PartialEq)]
pub struct Block {
    pub body: Vec<Statement>,
    pub control_flow: ControlFlow,
}

/// How control leaves a block.
#[derive(Debug, PartialEq)]
pub enum ControlFlow {
    /// The end of the block is an unconditional jump or falls through to the
    /// next block.
    Unconditional(u32),
    /// The end of the block is a conditional jump.
    CondtionalJump { if_true: u32, if_false: u32, expr: Expr },
    /// The block returns or contains the final instruction.
    Terminates,
}

/// A resolved storage slot.
#[derive(Debug, Clone, Copy, PartialEq, Eq, Structural)]
pub enum Place {
    Local(u32),
    Global(u32),
    Cell(u32),
}

impl Place {
    /// Resolves a place that is already known not to be a `Name` form.
    pub fn from_unresolved_unchecked(from: &UnresolvedPlace) -> (p: Place)
        requires
            !(from is Name),
        ensures
            p == place_of_unresolved(*from),
    {
        match from {
            UnresolvedPlace::Local(n) => Place::Local(*n),
            UnresolvedPlace::Global(n) => Place::Global(*n),
            UnresolvedPlace::Cell(n) => Place::Cell(*n),
            // excluded by the precondition; name forms are resolved by
            // `CodeObject::eval_place`
            UnresolvedPlace::Name(_) => Place::Local(0),
        }
    }
}

/// The direct translation of the non-`Name` forms of an unresolved place.
pub open spec fn place_of_unresolved(from: UnresolvedPlace) -> Place {
    match from {
        UnresolvedPlace::Local(n) => Place::Local(n),
        UnresolvedPlace::Global(n) => Place::Global(n),
        UnresolvedPlace::Cell(n) => Place::Cell(n),
        UnresolvedPlace::Name(_) => Place::Local(0),
    }
}

} // verus!
