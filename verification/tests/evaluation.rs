use pylift::abstract_interpretation::eval::{eval314, CodeObject, EvaluationError};
use pylift::abstract_interpretation::{Block, ControlFlow, Expr, Place, Statement};
use pylift::stack_ir::{BinOp, Constant, UnresolvedPlace};
use pylift::unmarshal::{PyObject, PyObjectRegion, Unmarshaller};

fn bare_code(code: &[u8]) -> CodeObject {
    CodeObject {
        code: code.to_vec(),
        stack_size: 4,
        names: vec![],
        locals_plus_names: vec![],
        locals_plus_kinds: vec![],
    }
}

fn empty_region() -> PyObjectRegion {
    PyObjectRegion(vec![])
}

#[test]
fn eval_return_constant() {
    // a code object whose body returns the small constant five
    let co = bare_code(&[128, 0, 94, 5, 35, 0]);
    let blocks = eval314(co, &empty_region()).expect("evaluation failed");
    assert_eq!(blocks.len(), 1);
    assert_eq!(
        blocks.get(&0),
        Some(&Block {
            body: vec![Statement::Return(Expr::Constant(Constant::SmallInt(5)))],
            control_flow: ControlFlow::Terminates,
        })
    );
}

#[test]
fn eval_identity_function() {
    // the identity function: load the first local, return it
    let co = CodeObject {
        code: b"\x80\x00V\x00#\x00".to_vec(),
        stack_size: 1,
        names: vec![],
        locals_plus_names: vec!["x".into()],
        locals_plus_kinds: vec![0x26],
    };
    let blocks = eval314(co, &empty_region()).expect("evaluation failed");
    assert_eq!(blocks.len(), 1);
    assert_eq!(
        blocks.get(&0),
        Some(&Block {
            body: vec![Statement::Return(Expr::Load { from: Place::Local(0) })],
            control_flow: ControlFlow::Terminates,
        })
    );
}

#[test]
fn eval_identity_from_region() {
    // the same identity function, unmarshalled from its serialized form and
    // constructed out of the region
    let region = Unmarshaller::loads(b"\xe3\x01\x00\x00\x00\x00\x00\x00\x00\x00\x00\x00\x00\x01\x00\x00\x00\x03\x00\x00\x00\xf3\x06\x00\x00\x00\x80\x00V\x00#\x00)\x01N\xa9\x00)\x01\xda\x01xs\x01\x00\x00\x00&\xda\x07example\xda\x01fr\x05\x00\x00\x00\x01\x00\x00\x00s\x07\x00\x00\x00\x80\x00\xd8\x0b\x0c\x80H\xf3\x00\x00\x00\x00").expect("unmarshalling failed");
    let PyObject::Code(c) = region.get(0) else {
        panic!("expected a code object at the region root");
    };
    let co = c.construct(&region).expect("construction failed");
    assert_eq!(co.code, b"\x80\x00V\x00#\x00".to_vec());
    assert_eq!(co.stack_size, 1);
    assert_eq!(co.names, Vec::<String>::new());
    assert_eq!(co.locals_plus_names, vec!["x".to_string()]);
    assert_eq!(co.locals_plus_kinds, vec![0x26]);
    let blocks = eval314(co, &region).expect("evaluation failed");
    assert_eq!(blocks.len(), 1);
    assert_eq!(
        blocks.get(&0),
        Some(&Block {
            body: vec![Statement::Return(Expr::Load { from: Place::Local(0) })],
            control_flow: ControlFlow::Terminates,
        })
    );
}

#[test]
fn eval_closure_region_holds_two_code_objects() {
    // a closure produces two code objects in the region: the outer function
    // and the inner one; its bytecode uses opcodes outside the lifted subset,
    // so lifting reports them as not yet implemented
    let region = Unmarshaller::loads(b"\xe3\x01\x00\x00\x00\x00\x00\x00\x00\x00\x00\x00\x00\x02\x00\x00\x00\x03\x00\x00\x00\xf3\x14\x00\x00\x00a\x00\x80\x00V\x003\x01R\x00\x17\x00l\x08p\x01V\x01#\x00)\x01\xe3\x01\x00\x00\x00\x00\x00\x00\x00\x00\x00\x00\x00\x02\x00\x00\x00\x13\x00\x00\x00\xf3\x16\x00\x00\x00<\x01\x80\x00S\x01V\x00,\x00\x00\x00\x00\x00\x00\x00\x00\x00\x00\x00#\x00)\x01N\xa9\x00)\x02\xda\x01y\xda\x01xs\x02\x00\x00\x00&\x80\xda\x07example\xda\x01g\xda\x0cf.<locals>.g\x02\x00\x00\x00s\x0c\x00\x00\x00\xf8\x80\x00\xd8\x0f\x10\x90\x11\x8ds\x88\n\xf3\x00\x00\x00\x00r\x04\x00\x00\x00)\x02r\x06\x00\x00\x00r\x08\x00\x00\x00s\x02\x00\x00\x00f r\x07\x00\x00\x00\xda\x01fr\x0b\x00\x00\x00\x01\x00\x00\x00s\x0d\x00\x00\x00\xf8\x80\x00\xf5\x02\x01\x05\x13\xe0\x0b\x0c\x80Hr\x0a\x00\x00\x00").expect("unmarshalling failed");
    let code_objects: Vec<usize> = (0..region.len())
        .filter(|i| matches!(region.get(*i), PyObject::Code(_)))
        .collect();
    assert_eq!(code_objects, vec![0, 3]);

    let PyObject::Code(outer) = region.get(0) else {
        panic!("expected a code object at the region root");
    };
    let co = outer.construct(&region).expect("construction failed");
    assert_eq!(
        eval314(co, &region),
        Err(EvaluationError::ParseError(
            pylift::stack_ir::parse::IRParseError::NotYetImplementedInstruction(97)
        ))
    );
}

#[test]
fn eval_block_partitioning() {
    // one arithmetic block ending in a jump over a dead block, then a block
    // that returns: boundaries fall at the jump target, after the jump, and
    // after the return
    let co = bare_code(&[86, 0, 86, 1, 44, 0, 112, 2, 77, 2, 86, 0, 9, 0, 94, 5, 35, 0]);
    let blocks = eval314(co, &empty_region()).expect("evaluation failed");
    assert_eq!(blocks.len(), 3);
    assert_eq!(
        blocks.get(&0),
        Some(&Block {
            body: vec![Statement::Store {
                expr: Expr::BinaryOp {
                    op: BinOp::Add,
                    lhs: Box::new(Expr::Load { from: Place::Local(0) }),
                    rhs: Box::new(Expr::Load { from: Place::Local(1) }),
                },
                into: Place::Local(2),
            }],
            control_flow: ControlFlow::Unconditional(7),
        })
    );
    assert_eq!(
        blocks.get(&5),
        Some(&Block {
            body: vec![Statement::Trivial(Expr::Load { from: Place::Local(0) })],
            control_flow: ControlFlow::Unconditional(7),
        })
    );
    assert_eq!(
        blocks.get(&7),
        Some(&Block {
            body: vec![Statement::Return(Expr::Constant(Constant::SmallInt(5)))],
            control_flow: ControlFlow::Terminates,
        })
    );
}

#[test]
fn eval_conditional_jump_terminator() {
    // load a local, jump if it is false over the first return
    let co = bare_code(&[86, 0, 100, 1, 94, 1, 35, 0, 94, 2, 35, 0]);
    let blocks = eval314(co, &empty_region()).expect("evaluation failed");
    assert_eq!(blocks.len(), 3);
    assert_eq!(
        blocks.get(&0),
        Some(&Block {
            body: vec![],
            control_flow: ControlFlow::CondtionalJump {
                if_true: 2,
                if_false: 4,
                expr: Expr::Load { from: Place::Local(0) },
            },
        })
    );
    assert_eq!(
        blocks.get(&2),
        Some(&Block {
            body: vec![Statement::Return(Expr::Constant(Constant::SmallInt(1)))],
            control_flow: ControlFlow::Terminates,
        })
    );
    assert_eq!(
        blocks.get(&4),
        Some(&Block {
            body: vec![Statement::Return(Expr::Constant(Constant::SmallInt(2)))],
            control_flow: ControlFlow::Terminates,
        })
    );
}

#[test]
fn eval_popped_empty_stack() {
    let co = bare_code(&[35, 0]);
    assert_eq!(
        eval314(co, &empty_region()),
        Err(EvaluationError::PoppedEmptyStack)
    );
}

#[test]
fn eval_copy_out_of_bounds() {
    let co = bare_code(&[59, 5, 35, 0]);
    assert_eq!(
        eval314(co, &empty_region()),
        Err(EvaluationError::StackOpOutOfBounds)
    );
}

#[test]
fn eval_block_with_non_empty_stack() {
    let co = bare_code(&[86, 0]);
    let res = eval314(co, &empty_region());
    assert!(matches!(
        res,
        Err(EvaluationError::BlockWithNonEmptyStack(_, _))
    ));
}

#[test]
fn eval_swap_exchanges_operands() {
    let co = bare_code(&[94, 1, 94, 2, 117, 1, 112, 0, 112, 1]);
    let blocks = eval314(co, &empty_region()).expect("evaluation failed");
    assert_eq!(
        blocks.get(&0),
        Some(&Block {
            body: vec![
                Statement::Store {
                    expr: Expr::Constant(Constant::SmallInt(1)),
                    into: Place::Local(0),
                },
                Statement::Store {
                    expr: Expr::Constant(Constant::SmallInt(2)),
                    into: Place::Local(1),
                },
            ],
            control_flow: ControlFlow::Terminates,
        })
    );
}

#[test]
fn eval_copy_duplicates_top() {
    let co = bare_code(&[94, 7, 59, 0, 112, 0, 112, 1]);
    let blocks = eval314(co, &empty_region()).expect("evaluation failed");
    assert_eq!(
        blocks.get(&0),
        Some(&Block {
            body: vec![
                Statement::Store {
                    expr: Expr::Constant(Constant::SmallInt(7)),
                    into: Place::Local(0),
                },
                Statement::Store {
                    expr: Expr::Constant(Constant::SmallInt(7)),
                    into: Place::Local(1),
                },
            ],
            control_flow: ControlFlow::Terminates,
        })
    );
}

#[test]
fn eval_call_reverses_argument_order() {
    // push the callee, the receiver, then two arguments; the recovered call
    // lists the arguments in pop order
    let co = bare_code(&[94, 1, 94, 2, 94, 3, 94, 4, 52, 2, 9, 0]);
    let blocks = eval314(co, &empty_region()).expect("evaluation failed");
    assert_eq!(
        blocks.get(&0),
        Some(&Block {
            body: vec![Statement::Trivial(Expr::Call {
                func: Box::new(Expr::Constant(Constant::SmallInt(1))),
                receiver: Box::new(Expr::Constant(Constant::SmallInt(2))),
                args: vec![
                    Expr::Constant(Constant::SmallInt(4)),
                    Expr::Constant(Constant::SmallInt(3)),
                ],
            })],
            control_flow: ControlFlow::Terminates,
        })
    );
}

#[test]
fn eval_name_resolves_to_cell() {
    // a name load whose name sits in a cell-kinded frame slot becomes a cell
    let co = CodeObject {
        code: vec![93, 0, 35, 0],
        stack_size: 1,
        names: vec!["x".into()],
        locals_plus_names: vec!["x".into()],
        locals_plus_kinds: vec![0x40],
    };
    let blocks = eval314(co, &empty_region()).expect("evaluation failed");
    assert_eq!(
        blocks.get(&0),
        Some(&Block {
            body: vec![Statement::Return(Expr::Load { from: Place::Cell(0) })],
            control_flow: ControlFlow::Terminates,
        })
    );
}

#[test]
fn eval_name_falls_back_to_global() {
    let co = CodeObject {
        code: vec![93, 0, 35, 0],
        stack_size: 1,
        names: vec!["g".into()],
        locals_plus_names: vec![],
        locals_plus_kinds: vec![],
    };
    let blocks = eval314(co, &empty_region()).expect("evaluation failed");
    assert_eq!(
        blocks.get(&0),
        Some(&Block {
            body: vec![Statement::Return(Expr::Load { from: Place::Global(0) })],
            control_flow: ControlFlow::Terminates,
        })
    );
}

#[test]
fn place_from_unresolved() {
    assert_eq!(
        Place::from_unresolved_unchecked(&UnresolvedPlace::Local(3)),
        Place::Local(3)
    );
    assert_eq!(
        Place::from_unresolved_unchecked(&UnresolvedPlace::Global(4)),
        Place::Global(4)
    );
    assert_eq!(
        Place::from_unresolved_unchecked(&UnresolvedPlace::Cell(5)),
        Place::Cell(5)
    );
}

#[test]
fn unmarshal_invalid_utf8_is_decoding_error() {
    let res = Unmarshaller::loads(b"z\x02\xff\xfe");
    assert_eq!(
        res,
        Err(pylift::unmarshal::UnmarshalError::DecodingError)
    );
}

#[test]
fn unmarshal_invalid_tag() {
    let res = Unmarshaller::loads(b"\x01");
    assert_eq!(res, Err(pylift::unmarshal::UnmarshalError::InvalidTag));
}

#[test]
fn unmarshal_dangling_ref() {
    let res = Unmarshaller::loads(b"r\x05\x00\x00\x00");
    assert_eq!(res, Err(pylift::unmarshal::UnmarshalError::DanglingRef(5)));
}

#[test]
fn unmarshal_negative_length_is_decoding_error() {
    let res = Unmarshaller::loads(b"(\xff\xff\xff\xffN");
    assert_eq!(res, Err(pylift::unmarshal::UnmarshalError::DecodingError));
}

#[test]
fn unmarshal_float_text_not_a_literal() {
    let res = Unmarshaller::loads(b"f\x03abc");
    assert_eq!(res, Err(pylift::unmarshal::UnmarshalError::DecodingError));
}
