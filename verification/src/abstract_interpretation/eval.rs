//! Abstract interpretation of lifted instructions into basic blocks.
//!
//! The instruction list is partitioned at jump sources, jump targets and
//! return points. Each block is evaluated symbolically over an expression
//! stack that starts empty and must end empty; the statements emitted along
//! the way, together with a synthesized terminator, form the block record.

use std::collections::HashMap;

use vstd::prelude::*;

use crate::abstract_interpretation::{Block, ControlFlow, Expr, Place, Statement};
use crate::stack_ir::parse::{map_view, targets_in_range, IRParseError};
use crate::unmarshal::{lemma_sorted_insert_at, lemma_sorted_insert_props, sorted_insert, sorted_unique};
use crate::stack_ir::{Instruction, UnresolvedPlace};
use crate::unmarshal::{CodeObjectConstructor, PyObject, PyObjectRegion};

verus! {

broadcast use {vstd::seq::axiom_seq_index_decreases, vstd::std_specs::hash::group_hash_axioms};

/// An error raised while evaluating a lifted instruction stream.
#[derive(Debug, PartialEq)]
pub enum EvaluationError {
    ParseError(IRParseError),
    PoppedEmptyStack,
    StackOpOutOfBounds,
    BlockWithNonEmptyStack(Vec<Expr>, Vec<Instruction>),
}

/// The mathematical value of an expression tree.
pub enum ExprV {
    Constant(crate::stack_ir::Constant),
    Load { from: Place },
    UnaryOp(crate::stack_ir::UnaryOp, Box<ExprV>),
    BinaryOp { op: crate::stack_ir::BinOp, lhs: Box<ExprV>, rhs: Box<ExprV> },
    Coercion(crate::stack_ir::Coercion, Box<ExprV>),
    MakeFunction(Box<ExprV>),
    Call { func: Box<ExprV>, receiver: Box<ExprV>, args: Seq<ExprV> },
}

/// The mathematical value of an expression.
pub open spec fn expr_view(e: Expr) -> ExprV
    decreases e, 0int,
{
    match e {
        Expr::Constant(c) => ExprV::Constant(c),
        Expr::Load { from } => ExprV::Load { from },
        Expr::UnaryOp(op, sub) => ExprV::UnaryOp(op, Box::new(expr_view(*sub))),
        Expr::BinaryOp { op, lhs, rhs } => ExprV::BinaryOp {
            op,
            lhs: Box::new(expr_view(*lhs)),
            rhs: Box::new(expr_view(*rhs)),
        },
        Expr::Coercion(c, sub) => ExprV::Coercion(c, Box::new(expr_view(*sub))),
        Expr::MakeFunction(sub) => ExprV::MakeFunction(Box::new(expr_view(*sub))),
        Expr::Call { func, receiver, args } => {
            proof {
                assert(decreases_to!(e => args));
                assert(decreases_to!(args => args@));
                assert(decreases_to!(e => args@));
            }
            ExprV::Call {
                func: Box::new(expr_view(*func)),
                receiver: Box::new(expr_view(*receiver)),
                args: exprs_view_rec(args@),
            }
        },
    }
}

/// The values of a run of expressions, element by element.
pub open spec fn exprs_view_rec(s: Seq<Expr>) -> Seq<ExprV>
    decreases s, 1int,
{
    if s.len() == 0 {
        Seq::empty()
    } else {
        seq![expr_view(s[0])] + exprs_view_rec(s.subrange(1, s.len() as int))
    }
}

impl View for Expr {
    type V = ExprV;

    open spec fn view(&self) -> ExprV {
        expr_view(*self)
    }
}

/// The expressions of a stack, outermost last.
pub open spec fn exprs_view(s: Seq<Expr>) -> Seq<ExprV> {
    s.map_values(|e: Expr| expr_view(e))
}

/// The mathematical value of a statement.
pub enum StatementV {
    Trivial(ExprV),
    Store { expr: ExprV, into: Place },
    Return(ExprV),
    If { expr: ExprV, target: u32 },
    Jump { target: u32 },
}

impl View for Statement {
    type V = StatementV;

    open spec fn view(&self) -> StatementV {
        match self {
            Statement::Trivial(e) => StatementV::Trivial(expr_view(*e)),
            Statement::Store { expr, into } => StatementV::Store {
                expr: expr_view(*expr),
                into: *into,
            },
            Statement::Return(e) => StatementV::Return(expr_view(*e)),
            Statement::If { expr, target } => StatementV::If {
                expr: expr_view(*expr),
                target: *target,
            },
            Statement::Jump { target } => StatementV::Jump { target: *target },
        }
    }
}

/// The statements of a block body, in order.
pub open spec fn stmts_view(s: Seq<Statement>) -> Seq<StatementV> {
    s.map_values(|st: Statement| st@)
}

/// The mathematical value of a control-flow terminator.
pub enum ControlFlowV {
    Unconditional(u32),
    CondtionalJump { if_true: u32, if_false: u32, expr: ExprV },
    Terminates,
}

impl View for ControlFlow {
    type V = ControlFlowV;

    open spec fn view(&self) -> ControlFlowV {
        match self {
            ControlFlow::Unconditional(t) => ControlFlowV::Unconditional(*t),
            ControlFlow::CondtionalJump { if_true, if_false, expr } => {
                ControlFlowV::CondtionalJump {
                    if_true: *if_true,
                    if_false: *if_false,
                    expr: expr_view(*expr),
                }
            },
            ControlFlow::Terminates => ControlFlowV::Terminates,
        }
    }
}

/// The mathematical value of a block.
pub struct BlockV {
    pub body: Seq<StatementV>,
    pub control_flow: ControlFlowV,
}

impl View for Block {
    type V = BlockV;

    open spec fn view(&self) -> BlockV {
        BlockV { body: stmts_view(self.body@), control_flow: self.control_flow@ }
    }
}

/// The mathematical value of an evaluation error.
pub enum EvalErrV {
    ParseError(IRParseError),
    PoppedEmptyStack,
    StackOpOutOfBounds,
    BlockWithNonEmptyStack(Seq<ExprV>, Seq<Instruction>),
}

impl View for EvaluationError {
    type V = EvalErrV;

    open spec fn view(&self) -> EvalErrV {
        match self {
            EvaluationError::ParseError(e) => EvalErrV::ParseError(*e),
            EvaluationError::PoppedEmptyStack => EvalErrV::PoppedEmptyStack,
            EvaluationError::StackOpOutOfBounds => EvalErrV::StackOpOutOfBounds,
            EvaluationError::BlockWithNonEmptyStack(stack, instrs) => {
                EvalErrV::BlockWithNonEmptyStack(exprs_view(stack@), instrs@)
            },
        }
    }
}

// ---------------------------------------------------------------------------
// Code objects and symbol resolution
// ---------------------------------------------------------------------------

/// A validated view of a code-constructor record: the bytecode blob and the
/// symbol tables the evaluator resolves places against, copied out of the
/// object region.
#[derive(Debug, PartialEq)]
pub struct CodeObject {
    pub code: Vec<u8>,
    pub stack_size: i32,
    pub names: Vec<String>,
    pub locals_plus_names: Vec<String>,
    pub locals_plus_kinds: Vec<u8>,
}

/// The mathematical value of a validated code object.
pub struct CodeObjV {
    pub code: Seq<u8>,
    pub stack_size: int,
    pub names: Seq<Seq<char>>,
    pub locals_plus_names: Seq<Seq<char>>,
    pub locals_plus_kinds: Seq<u8>,
}

/// The character sequences of a table of names.
pub open spec fn names_view(s: Seq<String>) -> Seq<Seq<char>> {
    s.map_values(|n: String| n@)
}

impl View for CodeObject {
    type V = CodeObjV;

    open spec fn view(&self) -> CodeObjV {
        CodeObjV {
            code: self.code@,
            stack_size: self.stack_size as int,
            names: names_view(self.names@),
            locals_plus_names: names_view(self.locals_plus_names@),
            locals_plus_kinds: self.locals_plus_kinds@,
        }
    }
}

/// The first index of `s` in `ns`, or a negative value where it does not
/// occur.
pub open spec fn find_name(ns: Seq<Seq<char>>, s: Seq<char>) -> int
    decreases ns.len(),
{
    if ns.len() == 0 {
        -1
    } else if ns[0] == s {
        0
    } else {
        let r = find_name(ns.subrange(1, ns.len() as int), s);
        if r < 0 {
            -1
        } else {
            r + 1
        }
    }
}

/// The frame-slot kind flags that mark a cell or free variable.
pub open spec fn is_cell_kind(kinds: Seq<u8>, i: int) -> bool {
    i < kinds.len() && (kinds[i] & 0xc0) != 0
}

/// Resolves a place against a code object's symbol tables. A local whose
/// slot kind marks a cell or free variable resolves to a cell; a name
/// resolves to the frame slot carrying that name where one exists, and to a
/// global otherwise.
pub open spec fn resolve_place(co: CodeObjV, p: UnresolvedPlace) -> Place {
    match p {
        UnresolvedPlace::Global(n) => Place::Global(n),
        UnresolvedPlace::Cell(n) => Place::Cell(n),
        UnresolvedPlace::Local(n) => if is_cell_kind(co.locals_plus_kinds, n as int) {
            Place::Cell(n)
        } else {
            Place::Local(n)
        },
        UnresolvedPlace::Name(n) => if n < co.names.len() {
            let i = find_name(co.locals_plus_names, co.names[n as int]);
            if i >= 0 {
                if is_cell_kind(co.locals_plus_kinds, i) {
                    Place::Cell(i as u32)
                } else {
                    Place::Local(i as u32)
                }
            } else {
                Place::Global(n)
            }
        } else {
            Place::Global(n)
        },
    }
}

/// The strings at the given region indices, where every index is in range
/// and holds a string.
pub open spec fn strings_at(region: Seq<crate::unmarshal::PyObjV>, idxs: Seq<int>) -> Option<
    Seq<Seq<char>>,
>
    decreases idxs.len(),
{
    if idxs.len() == 0 {
        Some(Seq::empty())
    } else {
        let i = idxs[0];
        if 0 <= i < region.len() {
            match region[i] {
                crate::unmarshal::PyObjV::VString(s) => match strings_at(
                    region,
                    idxs.subrange(1, idxs.len() as int),
                ) {
                    Some(rest) => Some(seq![s] + rest),
                    Option::None => Option::None,
                },
                _ => Option::None,
            }
        } else {
            Option::None
        }
    }
}

/// The validated code object denoted by a constructor record, where its
/// `code` and `locals_plus_kinds` fields point at bytes objects and its
/// `names` and `locals_plus_names` fields point at tuples of strings.
pub open spec fn s_construct(c: crate::unmarshal::CodeV, region: Seq<crate::unmarshal::PyObjV>) -> Option<
    CodeObjV,
> {
    if !(0 <= c.code < region.len() && 0 <= c.names < region.len() && 0 <= c.locals_plus_names
        < region.len() && 0 <= c.locals_plus_kinds < region.len()) {
        Option::None
    } else {
        match (region[c.code], region[c.names], region[c.locals_plus_names], region[c.locals_plus_kinds]) {
            (
                crate::unmarshal::PyObjV::VBytes(code),
                crate::unmarshal::PyObjV::VTuple(name_idxs),
                crate::unmarshal::PyObjV::VTuple(local_idxs),
                crate::unmarshal::PyObjV::VBytes(kinds),
            ) => match (strings_at(region, name_idxs), strings_at(region, local_idxs)) {
                (Some(names), Some(locals)) => Some(
                    CodeObjV {
                        code,
                        stack_size: c.stack_size,
                        names,
                        locals_plus_names: locals,
                        locals_plus_kinds: kinds,
                    },
                ),
                _ => Option::None,
            },
            _ => Option::None,
        }
    }
}

/// Copies the strings at the given region indices.
fn collect_strings(region: &PyObjectRegion, idxs: &Vec<crate::unmarshal::PyObjectIndex>) -> (r:
    Option<Vec<String>>)
    ensures
        match r {
            Some(v) => strings_at(region@, crate::unmarshal::idxs_view(idxs@)) == Some(
                names_view(v@),
            ),
            Option::None => strings_at(region@, crate::unmarshal::idxs_view(idxs@)) is None,
        },
{
    let ghost iv = crate::unmarshal::idxs_view(idxs@);
    let mut v: Vec<String> = Vec::new();
    let mut j: usize = 0;
    proof {
        assert(iv.subrange(0, iv.len() as int) =~= iv);
        assert(names_view(v@) =~= Seq::<Seq<char>>::empty());
        match strings_at(region@, iv) {
            Some(rest) => {
                assert(names_view(v@) + rest =~= rest);
            },
            Option::None => {},
        }
    }
    while j < idxs.len()
        invariant
            0 <= j <= idxs@.len(),
            iv == crate::unmarshal::idxs_view(idxs@),
            iv.len() == idxs@.len(),
            strings_at(region@, iv) == match strings_at(
                region@,
                iv.subrange(j as int, iv.len() as int),
            ) {
                Some(rest) => Some(names_view(v@) + rest),
                Option::None => Option::None::<Seq<Seq<char>>>,
            },
        decreases idxs@.len() - j,
    {
        let ghost tail = iv.subrange(j as int, iv.len() as int);
        proof {
            assert(tail[0] == iv[j as int]);
            assert(tail.subrange(1, tail.len() as int) =~= iv.subrange(j + 1, iv.len() as int));
            assert(iv[j as int] == idxs@[j as int]@);
        }
        let i = idxs[j];
        if i.0 >= region.len() {
            proof {
                assert(strings_at(region@, tail) is None);
            }
            return Option::None;
        }
        match region.get(i.0) {
            PyObject::String(s) => {
                let s2 = s.clone();
                let ghost pre = names_view(v@);
                v.push(s2);
                proof {
                    assert(names_view(v@) =~= pre + seq![s@]);
                    match strings_at(region@, iv.subrange(j + 1, iv.len() as int)) {
                        Some(rest2) => {
                            assert(strings_at(region@, tail) == Some(seq![s@] + rest2));
                            assert(pre + seq![s@] + rest2 =~= names_view(v@) + rest2);
                        },
                        Option::None => {
                            assert(strings_at(region@, tail) is None);
                        },
                    }
                }
            },
            _ => {
                proof {
                    assert(strings_at(region@, tail) is None);
                }
                return Option::None;
            },
        }
        j = j + 1;
    }
    proof {
        assert(iv.subrange(j as int, iv.len() as int) =~= Seq::<int>::empty());
        assert(names_view(v@) + Seq::<Seq<char>>::empty() =~= names_view(v@));
    }
    Some(v)
}


/// The element-by-element expression view agrees with the mapped one.
pub proof fn lemma_exprs_view_rec(s: Seq<Expr>)
    ensures
        exprs_view_rec(s) == exprs_view(s),
        exprs_view_rec(s).len() == s.len(),
    decreases s.len(),
{
    if s.len() == 0 {
        assert(exprs_view_rec(s) =~= exprs_view(s));
    } else {
        lemma_exprs_view_rec(s.subrange(1, s.len() as int));
        assert(exprs_view_rec(s) =~= exprs_view(s));
    }
}

impl CodeObjectConstructor {
    /// Builds the validated code-object view of this record over a region:
    /// the bytecode blob, the stack size, and the symbol tables, copied out.
    pub fn construct(&self, region: &PyObjectRegion) -> (r: Option<CodeObject>)
        ensures
            match r {
                Some(co) => s_construct(self@, region@) == Some(co@),
                Option::None => s_construct(self@, region@) is None,
            },
    {
        if self.code.0 >= region.len() || self.names.0 >= region.len()
            || self.locals_plus_names.0 >= region.len()
            || self.locals_plus_kinds.0 >= region.len() {
            return Option::None;
        }
        let code = match region.get(self.code.0) {
            PyObject::Bytes(b) => vstd::slice::slice_to_vec(b.as_slice()),
            _ => {
                return Option::None;
            },
        };
        let kinds = match region.get(self.locals_plus_kinds.0) {
            PyObject::Bytes(b) => vstd::slice::slice_to_vec(b.as_slice()),
            _ => {
                return Option::None;
            },
        };
        let names = match region.get(self.names.0) {
            PyObject::Tuple(idxs) => match collect_strings(region, idxs) {
                Some(v) => v,
                Option::None => {
                    return Option::None;
                },
            },
            _ => {
                return Option::None;
            },
        };
        let locals_plus_names = match region.get(self.locals_plus_names.0) {
            PyObject::Tuple(idxs) => match collect_strings(region, idxs) {
                Some(v) => v,
                Option::None => {
                    return Option::None;
                },
            },
            _ => {
                return Option::None;
            },
        };
        Some(
            CodeObject {
                code,
                stack_size: self.stack_size,
                names,
                locals_plus_names,
                locals_plus_kinds: kinds,
            },
        )
    }
}

/// `find_name` returns the first match found by a left-to-right scan.
proof fn lemma_find_name_at(ns: Seq<Seq<char>>, s: Seq<char>, j: int)
    requires
        0 <= j <= ns.len(),
        forall|k: int| 0 <= k < j ==> ns[k] != s,
        j < ns.len() ==> ns[j] == s,
    ensures
        find_name(ns, s) == if j < ns.len() {
            j
        } else {
            -1
        },
    decreases j,
{
    if j == 0 {
        if ns.len() > 0 && ns[0] != s {
            let tail = ns.subrange(1, ns.len() as int);
            lemma_find_name_not_found_prefix(tail, s, 0);
        }
    } else {
        let tail = ns.subrange(1, ns.len() as int);
        lemma_find_name_at(tail, s, j - 1);
    }
}

/// A name that occurs nowhere is not found.
proof fn lemma_find_name_not_found_prefix(ns: Seq<Seq<char>>, s: Seq<char>, j: int)
    requires
        0 <= j <= ns.len(),
    ensures
        (forall|k: int| j <= k < ns.len() ==> ns[k] != s) && j == 0 ==> find_name(ns, s) == -1,
    decreases ns.len(),
{
    if ns.len() > 0 {
        lemma_find_name_not_found_prefix(ns.subrange(1, ns.len() as int), s, 0);
    }
}

impl CodeObject {
    /// Whether frame slot `i` is marked as a cell or free variable.
    fn cell_kind(&self, i: usize) -> (r: bool)
        ensures
            r == is_cell_kind(self@.locals_plus_kinds, i as int),
    {
        i < self.locals_plus_kinds.len() && (self.locals_plus_kinds[i] & 0xc0) != 0
    }

    /// The first frame slot carrying this name, if any.
    fn find_local(&self, s: &String) -> (r: Option<usize>)
        ensures
            match r {
                Some(i) => find_name(self@.locals_plus_names, s@) == i as int && i
                    < self.locals_plus_names@.len(),
                Option::None => find_name(self@.locals_plus_names, s@) < 0,
            },
    {
        let ghost ns = self@.locals_plus_names;
        let mut j: usize = 0;
        while j < self.locals_plus_names.len()
            invariant
                0 <= j <= self.locals_plus_names@.len(),
                ns == self@.locals_plus_names,
                ns.len() == self.locals_plus_names@.len(),
                forall|k: int| 0 <= k < j ==> ns[k] != s@,
            decreases self.locals_plus_names@.len() - j,
        {
            proof {
                assert(ns[j as int] == self.locals_plus_names@[j as int]@);
            }
            if self.locals_plus_names[j] == *s {
                proof {
                    lemma_find_name_at(ns, s@, j as int);
                }
                return Some(j);
            }
            j = j + 1;
        }
        proof {
            lemma_find_name_at(ns, s@, j as int);
        }
        Option::None
    }

    /// Resolves a place against this code object's symbol tables, turning
    /// name references into frame slots or globals and cell-kinded locals
    /// into cells.
    pub fn eval_place(&self, p: &UnresolvedPlace) -> (r: Place)
        requires
            self@.locals_plus_names.len() < 0x1_0000_0000,
        ensures
            r == resolve_place(self@, *p),
    {
        match p {
            UnresolvedPlace::Global(n) => Place::Global(*n),
            UnresolvedPlace::Cell(n) => Place::Cell(*n),
            UnresolvedPlace::Local(n) => {
                if self.cell_kind(*n as usize) {
                    Place::Cell(*n)
                } else {
                    Place::Local(*n)
                }
            },
            UnresolvedPlace::Name(n) => {
                if (*n as usize) < self.names.len() {
                    proof {
                        assert(self@.names[*n as int] == self.names@[*n as int]@);
                    }
                    match self.find_local(&self.names[*n as usize]) {
                        Some(i) => {
                            if self.cell_kind(i) {
                                Place::Cell(i as u32)
                            } else {
                                Place::Local(i as u32)
                            }
                        },
                        Option::None => Place::Global(*n),
                    }
                } else {
                    Place::Global(*n)
                }
            },
        }
    }
}

/// Copies an expression tree.
fn dup_expr(e: &Expr) -> (r: Expr)
    ensures
        expr_view(r) == expr_view(*e),
    decreases *e, 1int,
{
    match e {
        Expr::Constant(c) => Expr::Constant(*c),
        Expr::Load { from } => Expr::Load { from: *from },
        Expr::UnaryOp(op, sub) => Expr::UnaryOp(*op, Box::new(dup_expr(sub))),
        Expr::BinaryOp { op, lhs, rhs } => Expr::BinaryOp {
            op: *op,
            lhs: Box::new(dup_expr(lhs)),
            rhs: Box::new(dup_expr(rhs)),
        },
        Expr::Coercion(c, sub) => Expr::Coercion(*c, Box::new(dup_expr(sub))),
        Expr::MakeFunction(sub) => Expr::MakeFunction(Box::new(dup_expr(sub))),
        Expr::Call { func, receiver, args } => {
            proof {
                assert(decreases_to!(*e => *args));
                assert(decreases_to!(*args => args@));
                assert(decreases_to!(*e => args@));
            }
            let f2 = Box::new(dup_expr(func));
            let r2 = Box::new(dup_expr(receiver));
            let a2 = dup_exprs(e, args);
            proof {
                lemma_exprs_view_rec(a2@);
                lemma_exprs_view_rec(args@);
                assert(exprs_view_rec(a2@) == exprs_view_rec(args@));
            }
            Expr::Call { func: f2, receiver: r2, args: a2 }
        },
    }
}

/// Copies a run of expressions held by a larger expression.
fn dup_exprs(parent: &Expr, args: &Vec<Expr>) -> (r: Vec<Expr>)
    requires
        decreases_to!(*parent => args@),
    ensures
        exprs_view(r@) == exprs_view(args@),
        r@.len() == args@.len(),
    decreases *parent, 0int,
{
    let mut v: Vec<Expr> = Vec::new();
    let mut j: usize = 0;
    while j < args.len()
        invariant
            decreases_to!(*parent => args@),
            0 <= j <= args@.len(),
            v@.len() == j,
            forall|k: int| 0 <= k < j ==> exprs_view(v@)[k] == exprs_view(args@)[k],
        decreases args@.len() - j,
    {
        proof {
            assert(decreases_to!(args@ => args@[j as int]));
            assert(decreases_to!(*parent => args@[j as int]));
        }
        let d = dup_expr(&args[j]);
        v.push(d);
        j = j + 1;
    }
    proof {
        assert(exprs_view(v@) =~= exprs_view(args@));
    }
    v
}


// ---------------------------------------------------------------------------
// Per-block symbolic evaluation
// ---------------------------------------------------------------------------

/// The effect of one instruction on the expression stack and the emitted
/// statements.
pub open spec fn step_instr(
    co: CodeObjV,
    ins: Instruction,
    stack: Seq<ExprV>,
    stmts: Seq<StatementV>,
) -> Result<(Seq<ExprV>, Seq<StatementV>), EvalErrV> {
    let len = stack.len() as int;
    match ins {
        Instruction::LoadConst(c) => Ok((stack.push(ExprV::Constant(c)), stmts)),
        Instruction::Load { from } => Ok(
            (stack.push(ExprV::Load { from: resolve_place(co, from) }), stmts),
        ),
        Instruction::Store { into } => if len >= 1 {
            Ok(
                (
                    stack.drop_last(),
                    stmts.push(
                        StatementV::Store { expr: stack.last(), into: resolve_place(co, into) },
                    ),
                ),
            )
        } else {
            Err(EvalErrV::PoppedEmptyStack)
        },
        Instruction::Pop => if len >= 1 {
            Ok((stack.drop_last(), stmts.push(StatementV::Trivial(stack.last()))))
        } else {
            Err(EvalErrV::PoppedEmptyStack)
        },
        Instruction::Copy(n) => if (n as int) < len {
            Ok((stack.push(stack[len - 1 - n]), stmts))
        } else {
            Err(EvalErrV::StackOpOutOfBounds)
        },
        // an out-of-range swap is silently ignored, as is a swap of the top
        // with itself
        Instruction::Swap(n) => if n != 0 && (n as int) < len {
            Ok(
                (
                    stack.update(len - 1 - n, stack[len - 1]).update(len - 1, stack[len - 1 - n]),
                    stmts,
                ),
            )
        } else {
            Ok((stack, stmts))
        },
        Instruction::UnaryOp(op) => if len >= 1 {
            Ok((stack.drop_last().push(ExprV::UnaryOp(op, Box::new(stack.last()))), stmts))
        } else {
            Err(EvalErrV::PoppedEmptyStack)
        },
        Instruction::BinaryOp(op) => if len >= 2 {
            Ok(
                (
                    stack.subrange(0, len - 2).push(
                        ExprV::BinaryOp {
                            op,
                            lhs: Box::new(stack[len - 2]),
                            rhs: Box::new(stack[len - 1]),
                        },
                    ),
                    stmts,
                ),
            )
        } else {
            Err(EvalErrV::PoppedEmptyStack)
        },
        Instruction::Jump { class: crate::stack_ir::JumpClass::IfFalse, target } => if len >= 1 {
            Ok((stack.drop_last(), stmts.push(StatementV::If { expr: stack.last(), target })))
        } else {
            Err(EvalErrV::PoppedEmptyStack)
        },
        Instruction::Jump { class: crate::stack_ir::JumpClass::Always, target } => Ok(
            (stack, stmts.push(StatementV::Jump { target })),
        ),
        // arguments are collected in pop order, then the receiver, then the
        // callee
        Instruction::Call(n) => if len >= n + 2 {
            Ok(
                (
                    stack.subrange(0, len - 2 - n).push(
                        ExprV::Call {
                            func: Box::new(stack[len - 2 - n]),
                            receiver: Box::new(stack[len - 1 - n]),
                            args: Seq::new(n as nat, |j: int| stack[len - 1 - j]),
                        },
                    ),
                    stmts,
                ),
            )
        } else {
            Err(EvalErrV::PoppedEmptyStack)
        },
        Instruction::Return => if len >= 1 {
            Ok((stack.drop_last(), stmts.push(StatementV::Return(stack.last()))))
        } else {
            Err(EvalErrV::PoppedEmptyStack)
        },
        Instruction::MakeFunction => if len >= 1 {
            Ok((stack.drop_last().push(ExprV::MakeFunction(Box::new(stack.last()))), stmts))
        } else {
            Err(EvalErrV::PoppedEmptyStack)
        },
        Instruction::Coercion(c) => if len >= 1 {
            Ok((stack.drop_last().push(ExprV::Coercion(c, Box::new(stack.last()))), stmts))
        } else {
            Err(EvalErrV::PoppedEmptyStack)
        },
    }
}

/// Evaluates the instructions from position `k` onward.
pub open spec fn s_eval_instrs(
    co: CodeObjV,
    instrs: Seq<Instruction>,
    k: int,
    stack: Seq<ExprV>,
    stmts: Seq<StatementV>,
) -> Result<(Seq<ExprV>, Seq<StatementV>), EvalErrV>
    decreases instrs.len() - k,
{
    if k < 0 || k >= instrs.len() {
        Ok((stack, stmts))
    } else {
        match step_instr(co, instrs[k], stack, stmts) {
            Err(e) => Err(e),
            Ok((stack2, stmts2)) => s_eval_instrs(co, instrs, k + 1, stack2, stmts2),
        }
    }
}

/// The fall-through terminator of a block ending at `end`.
pub open spec fn fallthrough(code: Seq<Instruction>, end: int) -> ControlFlowV {
    if end == code.len() {
        ControlFlowV::Terminates
    } else {
        ControlFlowV::Unconditional(end as u32)
    }
}

/// Evaluates the block spanning `[start, end)` of the instruction list: the
/// stack starts empty, must end empty, and the trailing tentative jump
/// statement, if any, becomes the terminator.
pub open spec fn s_process_block(co: CodeObjV, code: Seq<Instruction>, start: int, end: int) -> Result<
    BlockV,
    EvalErrV,
> {
    let instrs = code.subrange(start, end);
    match s_eval_instrs(co, instrs, 0, Seq::empty(), Seq::empty()) {
        Err(e) => Err(e),
        Ok((stack, stmts)) => if stack.len() != 0 {
            Err(EvalErrV::BlockWithNonEmptyStack(stack, instrs))
        } else if stmts.len() == 0 {
            Ok(BlockV { body: stmts, control_flow: fallthrough(code, end) })
        } else {
            match stmts.last() {
                StatementV::Return(_) => Ok(
                    BlockV { body: stmts, control_flow: ControlFlowV::Terminates },
                ),
                StatementV::If { expr, target } => Ok(
                    BlockV {
                        body: stmts.drop_last(),
                        control_flow: ControlFlowV::CondtionalJump {
                            if_true: end as u32,
                            if_false: target,
                            expr,
                        },
                    },
                ),
                StatementV::Jump { target } => Ok(
                    BlockV {
                        body: stmts.drop_last(),
                        control_flow: ControlFlowV::Unconditional(target),
                    },
                ),
                _ => Ok(BlockV { body: stmts, control_flow: fallthrough(code, end) }),
            }
        },
    }
}

/// Mapping a push through the expression view.
proof fn lemma_ev_push(s: Seq<Expr>, e: Expr)
    ensures
        exprs_view(s.push(e)) == exprs_view(s).push(expr_view(e)),
{
    assert(exprs_view(s.push(e)) =~= exprs_view(s).push(expr_view(e)));
}

/// Mapping a pop through the expression view.
proof fn lemma_ev_drop(s: Seq<Expr>)
    requires
        s.len() > 0,
    ensures
        exprs_view(s.drop_last()) == exprs_view(s).drop_last(),
        expr_view(s.last()) == exprs_view(s).last(),
{
    assert(exprs_view(s.drop_last()) =~= exprs_view(s).drop_last());
}

/// Mapping a prefix through the expression view.
proof fn lemma_ev_subrange(s: Seq<Expr>, m: int)
    requires
        0 <= m <= s.len(),
    ensures
        exprs_view(s.subrange(0, m)) == exprs_view(s).subrange(0, m),
{
    assert(exprs_view(s.subrange(0, m)) =~= exprs_view(s).subrange(0, m));
}

/// Mapping an element update through the expression view.
proof fn lemma_ev_update(s: Seq<Expr>, i: int, e: Expr)
    requires
        0 <= i < s.len(),
    ensures
        exprs_view(s.update(i, e)) == exprs_view(s).update(i, expr_view(e)),
{
    assert(exprs_view(s.update(i, e)) =~= exprs_view(s).update(i, expr_view(e)));
}

/// Mapping a push through the statement view.
proof fn lemma_sv_push(s: Seq<Statement>, st: Statement)
    ensures
        stmts_view(s.push(st)) == stmts_view(s).push(st@),
{
    assert(stmts_view(s.push(st)) =~= stmts_view(s).push(st@));
}

/// Mapping a pop through the statement view.
proof fn lemma_sv_drop(s: Seq<Statement>)
    requires
        s.len() > 0,
    ensures
        stmts_view(s.drop_last()) == stmts_view(s).drop_last(),
        s.last()@ == stmts_view(s).last(),
{
    assert(stmts_view(s.drop_last()) =~= stmts_view(s).drop_last());
}

/// Evaluates one block of the instruction list.
fn process_block(co: &CodeObject, code: &Vec<Instruction>, start: usize, end: usize) -> (r:
    Result<Block, EvaluationError>)
    requires
        start <= end <= code@.len(),
        code@.len() < 0x1_0000_0000,
        co@.locals_plus_names.len() < 0x1_0000_0000,
    ensures
        match r {
            Ok(b) => s_process_block(co@, code@, start as int, end as int) == Ok::<
                BlockV,
                EvalErrV,
            >(b@),
            Err(e) => s_process_block(co@, code@, start as int, end as int) == Err::<
                BlockV,
                EvalErrV,
            >(e@),
        },
{
    let ghost instrs = code@.subrange(start as int, end as int);
    let mut stack: Vec<Expr> = Vec::new();
    let mut stmts: Vec<Statement> = Vec::new();
    let mut k: usize = start;
    proof {
        assert(exprs_view(stack@) =~= Seq::<ExprV>::empty());
        assert(stmts_view(stmts@) =~= Seq::<StatementV>::empty());
    }
    while k < end
        invariant
            start <= k <= end <= code@.len(),
            code@.len() < 0x1_0000_0000,
            co@.locals_plus_names.len() < 0x1_0000_0000,
            instrs == code@.subrange(start as int, end as int),
            s_eval_instrs(co@, instrs, k - start, exprs_view(stack@), stmts_view(stmts@))
                == s_eval_instrs(
                co@,
                instrs,
                0,
                Seq::empty(),
                Seq::empty(),
            ),
        decreases end - k,
    {
        proof {
            assert(instrs[k - start] == code@[k as int]);
        }
        let ghost pre_stack = exprs_view(stack@);
        let ghost pre_stmts = stmts_view(stmts@);
        let ins = code[k];
        match ins {
            Instruction::LoadConst(c) => {
                proof {
                    lemma_ev_push(stack@, Expr::Constant(c));
                }
                stack.push(Expr::Constant(c));
            },
            Instruction::Load { from } => {
                let p = co.eval_place(&from);
                proof {
                    lemma_ev_push(stack@, Expr::Load { from: p });
                }
                stack.push(Expr::Load { from: p });
            },
            Instruction::Store { into } => {
                proof {
                    if stack@.len() > 0 {
                        lemma_ev_drop(stack@);
                    }
                }
                match stack.pop() {
                    Some(e) => {
                        let p = co.eval_place(&into);
                        proof {
                            lemma_sv_push(stmts@, Statement::Store { expr: e, into: p });
                        }
                        stmts.push(Statement::Store { expr: e, into: p });
                    },
                    Option::None => {
                        return Err(EvaluationError::PoppedEmptyStack);
                    },
                }
            },
            Instruction::Pop => {
                proof {
                    if stack@.len() > 0 {
                        lemma_ev_drop(stack@);
                    }
                }
                match stack.pop() {
                    Some(e) => {
                        proof {
                            lemma_sv_push(stmts@, Statement::Trivial(e));
                        }
                        stmts.push(Statement::Trivial(e));
                    },
                    Option::None => {
                        return Err(EvaluationError::PoppedEmptyStack);
                    },
                }
            },
            Instruction::Copy(n) => {
                if (n as usize) < stack.len() {
                    let i = stack.len() - 1 - n as usize;
                    let e = dup_expr(&stack[i]);
                    proof {
                        lemma_ev_push(stack@, e);
                    }
                    stack.push(e);
                } else {
                    return Err(EvaluationError::StackOpOutOfBounds);
                }
            },
            Instruction::Swap(n) => {
                if n != 0 && (n as usize) < stack.len() {
                    let len = stack.len();
                    let i = len - 1 - n as usize;
                    let a = dup_expr(&stack[i]);
                    let b = dup_expr(&stack[len - 1]);
                    proof {
                        lemma_ev_update(stack@, i as int, b);
                    }
                    stack.set(i, b);
                    proof {
                        lemma_ev_update(stack@, len - 1, a);
                    }
                    stack.set(len - 1, a);
                }
            },
            Instruction::UnaryOp(op) => {
                proof {
                    if stack@.len() > 0 {
                        lemma_ev_drop(stack@);
                    }
                }
                match stack.pop() {
                    Some(e) => {
                        let e2 = Expr::UnaryOp(op, Box::new(e));
                        proof {
                            lemma_ev_push(stack@, e2);
                        }
                        stack.push(e2);
                    },
                    Option::None => {
                        return Err(EvaluationError::PoppedEmptyStack);
                    },
                }
            },
            Instruction::BinaryOp(op) => {
                proof {
                    if stack@.len() > 0 {
                        lemma_ev_drop(stack@);
                    }
                }
                let rhs = match stack.pop() {
                    Some(e) => e,
                    Option::None => {
                        return Err(EvaluationError::PoppedEmptyStack);
                    },
                };
                proof {
                    if stack@.len() > 0 {
                        lemma_ev_drop(stack@);
                    }
                }
                let lhs = match stack.pop() {
                    Some(e) => e,
                    Option::None => {
                        return Err(EvaluationError::PoppedEmptyStack);
                    },
                };
                let e2 = Expr::BinaryOp { op, lhs: Box::new(lhs), rhs: Box::new(rhs) };
                proof {
                    lemma_ev_push(stack@, e2);
                    assert(exprs_view(stack@) =~= pre_stack.subrange(0, pre_stack.len() - 2));
                }
                stack.push(e2);
            },
            Instruction::Jump { class: crate::stack_ir::JumpClass::IfFalse, target } => {
                proof {
                    if stack@.len() > 0 {
                        lemma_ev_drop(stack@);
                    }
                }
                match stack.pop() {
                    Some(e) => {
                        proof {
                            lemma_sv_push(stmts@, Statement::If { expr: e, target });
                        }
                        stmts.push(Statement::If { expr: e, target });
                    },
                    Option::None => {
                        return Err(EvaluationError::PoppedEmptyStack);
                    },
                }
            },
            Instruction::Jump { class: crate::stack_ir::JumpClass::Always, target } => {
                proof {
                    lemma_sv_push(stmts@, Statement::Jump { target });
                }
                stmts.push(Statement::Jump { target });
            },
            Instruction::Call(n) => {
                if stack.len() < 2 || (n as usize) > stack.len() - 2 {
                    return Err(EvaluationError::PoppedEmptyStack);
                }
                let ghost len0 = pre_stack.len() as int;
                let mut args: Vec<Expr> = Vec::new();
                let mut c: usize = 0;
                proof {
                    assert(exprs_view(args@) =~= Seq::<ExprV>::empty());
                    assert(exprs_view(stack@) =~= pre_stack.subrange(0, len0 - c));
                }
                while c < n as usize
                    invariant
                        0 <= c <= n,
                        n + 2 <= len0,
                        stack@.len() == len0 - c,
                        pre_stack.len() == len0,
                        exprs_view(stack@) == pre_stack.subrange(0, len0 - c),
                        args@.len() == c,
                        forall|j: int|
                            0 <= j < c ==> exprs_view(args@)[j] == pre_stack[len0 - 1 - j],
                    decreases n - c,
                {
                    proof {
                        lemma_ev_drop(stack@);
                    }
                    let ghost pre_args = args@;
                    match stack.pop() {
                        Some(e) => {
                            proof {
                                lemma_ev_push(args@, e);
                            }
                            args.push(e);
                        },
                        Option::None => {
                            proof {
                                assert(false);
                            }
                            return Err(EvaluationError::PoppedEmptyStack);
                        },
                    }
                    proof {
                        assert(pre_stack.subrange(0, len0 - c).drop_last() =~= pre_stack.subrange(
                            0,
                            len0 - c - 1,
                        ));
                        assert(pre_stack.subrange(0, len0 - c).last() == pre_stack[len0 - 1 - c]);
                    }
                    c = c + 1;
                }
                proof {
                    lemma_ev_drop(stack@);
                    assert(pre_stack.subrange(0, len0 - n).drop_last() =~= pre_stack.subrange(
                        0,
                        len0 - n - 1,
                    ));
                    assert(pre_stack.subrange(0, len0 - n).last() == pre_stack[len0 - 1 - n]);
                }
                let receiver = match stack.pop() {
                    Some(e) => e,
                    Option::None => {
                        proof {
                            assert(false);
                        }
                        return Err(EvaluationError::PoppedEmptyStack);
                    },
                };
                proof {
                    lemma_ev_drop(stack@);
                    assert(pre_stack.subrange(0, len0 - n - 1).drop_last() =~= pre_stack.subrange(
                        0,
                        len0 - n - 2,
                    ));
                    assert(pre_stack.subrange(0, len0 - n - 1).last() == pre_stack[len0 - 2 - n]);
                }
                let func = match stack.pop() {
                    Some(e) => e,
                    Option::None => {
                        proof {
                            assert(false);
                        }
                        return Err(EvaluationError::PoppedEmptyStack);
                    },
                };
                let e2 = Expr::Call { func: Box::new(func), receiver: Box::new(receiver), args };
                proof {
                    match &e2 {
                        Expr::Call { func: f3, receiver: r3, args: a3 } => {
                            lemma_exprs_view_rec(a3@);
                            assert(exprs_view_rec(a3@) =~= Seq::new(
                                n as nat,
                                |j: int| pre_stack[len0 - 1 - j],
                            ));
                        },
                        _ => {},
                    }
                    lemma_ev_push(stack@, e2);
                }
                stack.push(e2);
            },
            Instruction::Return => {
                proof {
                    if stack@.len() > 0 {
                        lemma_ev_drop(stack@);
                    }
                }
                match stack.pop() {
                    Some(e) => {
                        proof {
                            lemma_sv_push(stmts@, Statement::Return(e));
                        }
                        stmts.push(Statement::Return(e));
                    },
                    Option::None => {
                        return Err(EvaluationError::PoppedEmptyStack);
                    },
                }
            },
            Instruction::MakeFunction => {
                proof {
                    if stack@.len() > 0 {
                        lemma_ev_drop(stack@);
                    }
                }
                match stack.pop() {
                    Some(e) => {
                        let e2 = Expr::MakeFunction(Box::new(e));
                        proof {
                            lemma_ev_push(stack@, e2);
                        }
                        stack.push(e2);
                    },
                    Option::None => {
                        return Err(EvaluationError::PoppedEmptyStack);
                    },
                }
            },
            Instruction::Coercion(cc) => {
                proof {
                    if stack@.len() > 0 {
                        lemma_ev_drop(stack@);
                    }
                }
                match stack.pop() {
                    Some(e) => {
                        let e2 = Expr::Coercion(cc, Box::new(e));
                        proof {
                            lemma_ev_push(stack@, e2);
                        }
                        stack.push(e2);
                    },
                    Option::None => {
                        return Err(EvaluationError::PoppedEmptyStack);
                    },
                }
            },
        }
        k = k + 1;
    }
    if stack.len() != 0 {
        let copied = vstd::slice::slice_to_vec(
            vstd::slice::slice_subrange(code.as_slice(), start, end),
        );
        return Err(EvaluationError::BlockWithNonEmptyStack(stack, copied));
    }
    proof {
        assert(exprs_view(stack@) =~= Seq::<ExprV>::empty());
    }
    let mut body = stmts;
    let ghost body0 = body@;
    let control_flow: ControlFlow;
    match body.pop() {
        Option::None => {
            control_flow = if end == code.len() {
                ControlFlow::Terminates
            } else {
                ControlFlow::Unconditional(end as u32)
            };
        },
        Some(st) => {
            proof {
                lemma_sv_drop(body0);
            }
            match st {
                Statement::Return(e) => {
                    control_flow = ControlFlow::Terminates;
                    body.push(Statement::Return(e));
                    proof {
                        assert(body@ =~= body0);
                    }
                },
                Statement::If { expr, target } => {
                    control_flow = ControlFlow::CondtionalJump {
                        if_true: end as u32,
                        if_false: target,
                        expr,
                    };
                },
                Statement::Jump { target } => {
                    control_flow = ControlFlow::Unconditional(target);
                },
                Statement::Trivial(e) => {
                    control_flow = if end == code.len() {
                        ControlFlow::Terminates
                    } else {
                        ControlFlow::Unconditional(end as u32)
                    };
                    body.push(Statement::Trivial(e));
                    proof {
                        assert(body@ =~= body0);
                    }
                },
                Statement::Store { expr, into } => {
                    control_flow = if end == code.len() {
                        ControlFlow::Terminates
                    } else {
                        ControlFlow::Unconditional(end as u32)
                    };
                    body.push(Statement::Store { expr, into });
                    proof {
                        assert(body@ =~= body0);
                    }
                },
            }
        },
    }
    Ok(Block { body, control_flow })
}


// ---------------------------------------------------------------------------
// Block boundaries and the block map
// ---------------------------------------------------------------------------

/// The boundaries an instruction contributes: the target and the following
/// index for a jump, the following index for a return.
pub open spec fn add_bounds(ins: Instruction, k: int, acc: Seq<int>) -> Seq<int> {
    match ins {
        Instruction::Jump { class, target } => sorted_insert(
            sorted_insert(acc, target as int),
            k + 1,
        ),
        Instruction::Return => sorted_insert(acc, k + 1),
        _ => acc,
    }
}

/// Collects boundaries from instruction `k` onward.
pub open spec fn bounds_from(code: Seq<Instruction>, k: int, acc: Seq<int>) -> Seq<int>
    decreases code.len() - k,
{
    if k < 0 || k >= code.len() {
        acc
    } else {
        bounds_from(code, k + 1, add_bounds(code[k], k, acc))
    }
}

/// The ascending block boundaries of an instruction list: zero, the length,
/// every jump target, and the index after every jump or return.
pub open spec fn s_boundaries(code: Seq<Instruction>) -> Seq<int> {
    bounds_from(code, 0, sorted_insert(sorted_insert(Seq::empty(), 0), code.len() as int))
}

/// Insertion into a bounded ascending sequence stays bounded and ascending.
proof fn lemma_sorted_insert_bounds(s: Seq<int>, x: int, lo: int, hi: int)
    requires
        sorted_unique(s),
        forall|i: int| 0 <= i < s.len() ==> lo <= #[trigger] s[i] <= hi,
        lo <= x <= hi,
    ensures
        sorted_unique(sorted_insert(s, x)),
        forall|i: int|
            0 <= i < sorted_insert(s, x).len() ==> lo <= #[trigger] sorted_insert(s, x)[i] <= hi,
{
    lemma_sorted_insert_props(s, x);
    let r = sorted_insert(s, x);
    assert forall|i: int| 0 <= i < r.len() implies lo <= #[trigger] r[i] <= hi by {
        assert(r.contains(r[i]));
        if s.contains(r[i]) {
            let m = choose|m: int| 0 <= m < s.len() && s[m] == r[i];
            assert(lo <= s[m] <= hi);
        }
    }
}

/// Inserts a boundary into an ascending duplicate-free vector.
fn sorted_insert_usize(out: &mut Vec<usize>, x: usize)
    ensures
        map_view(final(out)@) == sorted_insert(map_view(old(out)@), x as int),
{
    let ghost s = map_view(out@);
    let mut i: usize = 0;
    while i < out.len() && out[i] < x
        invariant
            0 <= i <= out@.len(),
            s == map_view(out@),
            s.len() == out@.len(),
            forall|k: int| 0 <= k < i ==> s[k] < x as int,
        decreases out@.len() - i,
    {
        proof {
            assert(s[i as int] == out@[i as int] as int);
        }
        i = i + 1;
    }
    proof {
        assert(i < out@.len() ==> s[i as int] == out@[i as int] as int);
        lemma_sorted_insert_at(s, x as int, i as int);
    }
    if i < out.len() && out[i] == x {
        return ;
    }
    out.insert(i, x);
    proof {
        assert(map_view(final(out)@) =~= s.subrange(0, i as int) + seq![x as int] + s.subrange(
            i as int,
            s.len() as int,
        ));
    }
}

/// Computes the ascending block boundaries of an instruction list.
fn compute_boundaries(code: &Vec<Instruction>) -> (b: Vec<usize>)
    requires
        code@.len() < 0x1_0000_0000,
        targets_in_range(code@),
    ensures
        map_view(b@) == s_boundaries(code@),
        sorted_unique(map_view(b@)),
        forall|i: int| 0 <= i < map_view(b@).len() ==> 0 <= #[trigger] map_view(b@)[i]
            <= code@.len(),
{
    let ghost hi = code@.len() as int;
    let mut b: Vec<usize> = Vec::new();
    proof {
        assert(map_view(b@) =~= Seq::<int>::empty());
        lemma_sorted_insert_bounds(Seq::empty(), 0, 0, hi);
    }
    sorted_insert_usize(&mut b, 0);
    proof {
        lemma_sorted_insert_bounds(sorted_insert(Seq::empty(), 0), hi, 0, hi);
    }
    sorted_insert_usize(&mut b, code.len());
    let mut k: usize = 0;
    while k < code.len()
        invariant
            hi == code@.len(),
            0 <= k <= code@.len(),
            code@.len() < 0x1_0000_0000,
            targets_in_range(code@),
            sorted_unique(map_view(b@)),
            forall|i: int| 0 <= i < map_view(b@).len() ==> 0 <= #[trigger] map_view(b@)[i]
                <= code@.len(),
            bounds_from(code@, k as int, map_view(b@)) == s_boundaries(code@),
        decreases code@.len() - k,
    {
        let ins = code[k];
        match ins {
            Instruction::Jump { class, target } => {
                proof {
                    assert(code@[k as int] == (Instruction::Jump { class, target }));
                    assert((target as int) < code@.len());
                    assert(forall|i: int| 0 <= i < map_view(b@).len() ==> 0 <= #[trigger] map_view(
                        b@,
                    )[i] <= hi);
                    lemma_sorted_insert_bounds(map_view(b@), target as int, 0, hi);
                }
                sorted_insert_usize(&mut b, target as usize);
                proof {
                    lemma_sorted_insert_bounds(map_view(b@), k + 1, 0, hi);
                }
                sorted_insert_usize(&mut b, k + 1);
            },
            Instruction::Return => {
                proof {
                    lemma_sorted_insert_bounds(map_view(b@), k + 1, 0, hi);
                }
                sorted_insert_usize(&mut b, k + 1);
            },
            _ => {},
        }
        k = k + 1;
    }
    b
}

/// The blocks of the ranges between consecutive boundaries from `j` onward,
/// keyed by their starting instruction index.
pub open spec fn s_blocks_map(co: CodeObjV, code: Seq<Instruction>, bnds: Seq<int>, j: int) -> Result<
    Map<u32, BlockV>,
    EvalErrV,
>
    decreases bnds.len() - j,
{
    if j < 0 || j + 1 >= bnds.len() {
        Ok(Map::empty())
    } else {
        match s_process_block(co, code, bnds[j], bnds[j + 1]) {
            Err(e) => Err(e),
            Ok(b) => match s_blocks_map(co, code, bnds, j + 1) {
                Err(e) => Err(e),
                Ok(m) => Ok(m.insert(bnds[j] as u32, b)),
            },
        }
    }
}

/// Keys of the block map are the boundaries at or after `j`.
proof fn lemma_blocks_map_keys(co: CodeObjV, code: Seq<Instruction>, bnds: Seq<int>, j: int)
    requires
        sorted_unique(bnds),
        forall|i: int| 0 <= i < bnds.len() ==> 0 <= #[trigger] bnds[i] < 0x1_0000_0000,
    ensures
        match s_blocks_map(co, code, bnds, j) {
            Ok(m) => forall|key: u32| m.contains_key(key) ==> 0 <= j < bnds.len() && bnds[j]
                <= key as int,
            Err(e) => true,
        },
    decreases bnds.len() - j,
{
    if j < 0 || j + 1 >= bnds.len() {
    } else {
        lemma_blocks_map_keys(co, code, bnds, j + 1);
        match s_blocks_map(co, code, bnds, j) {
            Ok(m) => {
                assert forall|key: u32| m.contains_key(key) implies 0 <= j < bnds.len()
                    && bnds[j] <= key as int by {
                    if key as int != bnds[j] {
                        assert(bnds[j] < bnds[j + 1]);
                    }
                }
            },
            Err(e) => {},
        }
    }
}

/// The mathematical values of a finished block table.
pub open spec fn hm_view(m: Map<u32, Block>) -> Map<u32, BlockV> {
    m.map_values(|b: Block| b@)
}

/// The block map denoted by a code object: its bytecode lifted and
/// partitioned, each block evaluated.
pub open spec fn s_eval314(co: CodeObjV) -> Result<Map<u32, BlockV>, EvalErrV> {
    match crate::stack_ir::parse::s_parse314(co.code) {
        Err(pe) => Err(EvalErrV::ParseError(pe)),
        Ok(instrs) => s_blocks_map(co, instrs, s_boundaries(instrs), 0),
    }
}

/// Lifts a code object's bytecode and recovers its block structure: a map
/// from each block's starting instruction index to its statements and
/// terminator.
///
/// The bytecode must have even length, must be small enough for its
/// instruction indices to fit the target width, and must not reach the
/// lifter's internal target-rewrite failure.
#[allow(unused_variables)]
pub fn eval314(input: CodeObject, region: &PyObjectRegion) -> (r: Result<
    HashMap<u32, Block>,
    EvaluationError,
>)
    requires
        input@.code.len() % 2 == 0,
        input@.code.len() < 0x8000_0000,
        crate::stack_ir::parse::lifts_cleanly(input@.code),
        input@.locals_plus_names.len() < 0x1_0000_0000,
    ensures
        match s_eval314(input@) {
            Ok(m) => r matches Ok(hm) && hm_view(hm@) == m,
            Err(e) => r matches Err(err) && err@ == e,
        },
{
    let instrs = match crate::stack_ir::parse::parse314(input.code.as_slice()) {
        Ok(v) => v,
        Err(e) => {
            return Err(EvaluationError::ParseError(e));
        },
    };
    let bounds = compute_boundaries(&instrs);
    let ghost bnds = map_view(bounds@);
    let ghost co = input@;
    let mut blocks: HashMap<u32, Block> = HashMap::new();
    proof {
        assert(hm_view(blocks@) =~= Map::<u32, BlockV>::empty());
    }
    let mut j: usize = 0;
    proof {
        match s_blocks_map(co, instrs@, bnds, 0) {
            Ok(m_rest) => {
                assert(m_rest.union_prefer_right(hm_view(blocks@)) =~= m_rest);
            },
            Err(e) => {},
        }
    }
    while j < bounds.len() && j + 1 < bounds.len()
        invariant
            j == 0 || j < bounds@.len(),
            co == input@,
            bnds == map_view(bounds@),
            bnds == s_boundaries(instrs@),
            crate::stack_ir::parse::s_parse314(co.code) == Ok::<
                Seq<Instruction>,
                IRParseError,
            >(instrs@),
            bounds@.len() == bnds.len(),
            sorted_unique(bnds),
            forall|i: int| 0 <= i < bnds.len() ==> 0 <= #[trigger] bnds[i] <= instrs@.len(),
            instrs@.len() < 0x1_0000_0000,
            co.locals_plus_names.len() < 0x1_0000_0000,
            0 <= j <= bnds.len(),
            forall|key: u32|
                hm_view(blocks@).contains_key(key) ==> exists|l: int|
                    0 <= l < j && key as int == #[trigger] bnds[l],
            match s_blocks_map(co, instrs@, bnds, j as int) {
                Ok(m_rest) => s_blocks_map(co, instrs@, bnds, 0) == Ok::<_, EvalErrV>(
                    m_rest.union_prefer_right(hm_view(blocks@)),
                ),
                Err(e) => s_blocks_map(co, instrs@, bnds, 0) == Err::<Map<u32, BlockV>, _>(e),
            },
        decreases bounds@.len() - j,
    {
        let start = bounds[j];
        let end = bounds[j + 1];
        proof {
            assert(bnds[j as int] <= bnds[j + 1]);
            assert(start as int == bnds[j as int] && end as int == bnds[j + 1]);
        }
        match process_block(&input, &instrs, start, end) {
            Err(e) => {
                proof {
                    assert(s_blocks_map(co, instrs@, bnds, j as int) == Err::<
                        Map<u32, BlockV>,
                        EvalErrV,
                    >(e@));
                }
                return Err(e);
            },
            Ok(b) => {
                let ghost pre_hm = hm_view(blocks@);
                let ghost m_rest_next = match s_blocks_map(co, instrs@, bnds, j + 1) {
                    Ok(m) => m,
                    Err(e) => Map::empty(),
                };
                proof {
                    lemma_blocks_map_keys(co, instrs@, bnds, j + 1);
                }
                blocks.insert(start as u32, b);
                proof {
                    assert(hm_view(blocks@) =~= pre_hm.insert(start as u32, b@));
                    match s_blocks_map(co, instrs@, bnds, j + 1) {
                        Ok(m_next) => {
                            assert(m_next.union_prefer_right(hm_view(blocks@))
                                =~= m_next.insert(bnds[j as int] as u32, b@).union_prefer_right(
                                pre_hm,
                            )) by {
                                assert(forall|key: u32|
                                    pre_hm.contains_key(key) ==> key as int != bnds[j as int]);
                                assert(forall|key: u32|
                                    m_next.contains_key(key) ==> key as int != bnds[j as int]);
                            }
                        },
                        Err(e) => {},
                    }
                }
            },
        }
        j = j + 1;
    }
    proof {
        assert(s_blocks_map(co, instrs@, bnds, j as int) == Ok::<_, EvalErrV>(
            Map::<u32, BlockV>::empty(),
        ));
        assert(Map::<u32, BlockV>::empty().union_prefer_right(hm_view(blocks@)) =~= hm_view(
            blocks@,
        ));
    }
    Ok(blocks)
}


// ---------------------------------------------------------------------------
// Stack discipline
// ---------------------------------------------------------------------------

/// How many stack operands an instruction requires. An out-of-range copy
/// counts its whole reach; swaps are ignored when out of range and so
/// require nothing.
pub open spec fn stack_needed(ins: Instruction) -> int {
    match ins {
        Instruction::LoadConst(_) => 0,
        Instruction::Load { from } => 0,
        Instruction::Store { into } => 1,
        Instruction::Pop => 1,
        Instruction::Copy(n) => n + 1,
        Instruction::Swap(_) => 0,
        Instruction::UnaryOp(_) => 1,
        Instruction::BinaryOp(_) => 2,
        Instruction::Jump { class: crate::stack_ir::JumpClass::IfFalse, target } => 1,
        Instruction::Jump { class: crate::stack_ir::JumpClass::Always, target } => 0,
        Instruction::Call(n) => n + 2,
        Instruction::Return => 1,
        Instruction::MakeFunction => 1,
        Instruction::Coercion(_) => 1,
    }
}

/// The net effect of an instruction on the stack depth.
pub open spec fn stack_effect(ins: Instruction) -> int {
    match ins {
        Instruction::LoadConst(_) => 1,
        Instruction::Load { from } => 1,
        Instruction::Store { into } => -1,
        Instruction::Pop => -1,
        Instruction::Copy(_) => 1,
        Instruction::Swap(_) => 0,
        Instruction::UnaryOp(_) => 0,
        Instruction::BinaryOp(_) => -1,
        Instruction::Jump { class: crate::stack_ir::JumpClass::IfFalse, target } => -1,
        Instruction::Jump { class: crate::stack_ir::JumpClass::Always, target } => 0,
        Instruction::Call(n) => -(n + 1),
        Instruction::Return => -1,
        Instruction::MakeFunction => 0,
        Instruction::Coercion(_) => 0,
    }
}

/// Simulates only the stack depth from instruction `k` onward: the depth
/// after the run, or nothing where some instruction lacks its operands.
pub open spec fn sim_depths(instrs: Seq<Instruction>, k: int, depth: int) -> Option<int>
    decreases instrs.len() - k,
{
    if k < 0 || k >= instrs.len() {
        Some(depth)
    } else if depth < stack_needed(instrs[k]) {
        Option::None
    } else {
        sim_depths(instrs, k + 1, depth + stack_effect(instrs[k]))
    }
}

/// Stack discipline: whether a run of instructions evaluates successfully
/// depends only on the stack's depth, never on its contents. The run
/// succeeds exactly when the simulated depth always covers the next
/// instruction's operands, and then the final depth is the starting depth
/// plus the accumulated per-instruction effects.
pub proof fn lemma_stack_discipline(
    co: CodeObjV,
    instrs: Seq<Instruction>,
    k: int,
    stack: Seq<ExprV>,
    stmts: Seq<StatementV>,
)
    ensures
        match sim_depths(instrs, k, stack.len() as int) {
            Some(d) => s_eval_instrs(co, instrs, k, stack, stmts) matches Ok(p) && p.0.len() == d,
            Option::None => s_eval_instrs(co, instrs, k, stack, stmts) is Err,
        },
    decreases instrs.len() - k,
{
    if k < 0 || k >= instrs.len() {
    } else {
        match step_instr(co, instrs[k], stack, stmts) {
            Ok((stack2, stmts2)) => {
                assert(stack.len() >= stack_needed(instrs[k]));
                assert(stack2.len() == stack.len() + stack_effect(instrs[k]));
                lemma_stack_discipline(co, instrs, k + 1, stack2, stmts2);
            },
            Err(e) => {
                assert(stack.len() < stack_needed(instrs[k]));
            },
        }
    }
}

} // verus!
