use pylift::unmarshal::{
    CodeObjectConstructor, PyObject, PyObjectIndex, PyObjectRegion, PyTypeTag, Unmarshaller,
    UnmarshalError,
};

fn check_tag(tag: PyTypeTag) {
    assert_eq!(PyTypeTag::from_byte(tag.to_byte()), Ok(tag), "{tag:?}");
}

#[test]
/// This is a test that the tags can be converted losslessly between u8 and
/// the explicit enum
fn py_type_tag_conv_iso() {
    check_tag(PyTypeTag::Null);
    check_tag(PyTypeTag::NoneType);
    check_tag(PyTypeTag::True);
    check_tag(PyTypeTag::False);
    check_tag(PyTypeTag::StopIter);
    check_tag(PyTypeTag::Ellipsis);
    check_tag(PyTypeTag::Int);
    check_tag(PyTypeTag::Int64);
    check_tag(PyTypeTag::Float);
    check_tag(PyTypeTag::BinaryFloat);
    check_tag(PyTypeTag::Complex);
    check_tag(PyTypeTag::BinaryComplex);
    check_tag(PyTypeTag::Long);
    check_tag(PyTypeTag::String);
    check_tag(PyTypeTag::Interned);
    check_tag(PyTypeTag::Ref);
    check_tag(PyTypeTag::Tuple);
    check_tag(PyTypeTag::List);
    check_tag(PyTypeTag::Dict);
    check_tag(PyTypeTag::Code);
    check_tag(PyTypeTag::Unicode);
    check_tag(PyTypeTag::Unknown);
    check_tag(PyTypeTag::PySet);
    check_tag(PyTypeTag::FrozenSet);
    check_tag(PyTypeTag::Ascii);
    check_tag(PyTypeTag::AsciiInterned);
    check_tag(PyTypeTag::SmallTuple);
    check_tag(PyTypeTag::ShortAscii);
    check_tag(PyTypeTag::ShortAsciiInterned);
}

#[test]
fn unmarshal_null() {
    let res = Unmarshaller::loads(b"0");
    assert_eq!(Err(UnmarshalError::FoundNull), res);
}

#[test]
fn unmarshal_none() {
    let res = Unmarshaller::loads(b"N");
    let Ok(PyObjectRegion(objects)) = res else {
        panic!("Unmarshalling None failed");
    };
    assert_eq!(
        objects.as_slice(),
        &[PyObject::NoneType],
        "Incorrectly unmarshalled None"
    )
}

#[test]
fn unmarshal_false() {
    let res = Unmarshaller::loads(b"F");
    let Ok(PyObjectRegion(objects)) = res else {
        panic!("Unmarshalling false failed");
    };

    assert_eq!(
        objects.as_slice(),
        &[PyObject::Bool(false)],
        "Incorrectly unmarshalled false"
    )
}

#[test]
fn unmarshal_true() {
    let res = Unmarshaller::loads(b"T");
    let Ok(PyObjectRegion(objects)) = res else {
        panic!("Unmarshalling true failed");
    };

    assert_eq!(
        objects.as_slice(),
        &[PyObject::Bool(true)],
        "Incorrectly unmarshalled true"
    )
}

#[test]
fn unmarshal_stop_iter() {
    let res = Unmarshaller::loads(b"S");
    let Ok(PyObjectRegion(objects)) = res else {
        panic!("Unmarshalling StopIteration failed");
    };

    assert_eq!(
        objects.as_slice(),
        &[PyObject::StopIter],
        "Incorrectly unmarshalled StopIteration"
    )
}

#[test]
fn unmarshal_ellipsis() {
    let res = Unmarshaller::loads(b".");
    let Ok(PyObjectRegion(objects)) = res else {
        panic!("Unmarshalling Ellipsis failed");
    };

    assert_eq!(
        objects.as_slice(),
        &[PyObject::Ellipsis],
        "Incorrectly unmarshalled Ellipsis"
    )
}

#[test]
fn unmarshal_pos_small_int() {
    let res = Unmarshaller::loads(&[b'i', 1, 1, 0, 0]);
    let Ok(PyObjectRegion(objects)) = res else {
        panic!("Unmarshalling 257i32 failed");
    };

    assert_eq!(
        objects.as_slice(),
        &[PyObject::SmallInt(257)],
        "Incorrectly unmarshalled 257i32"
    )
}

#[test]
fn unmarshal_neg_small_int() {
    let res = Unmarshaller::loads(&[b'i', 0xff, 0xfe, 0xff, 0xff]);
    let Ok(PyObjectRegion(objects)) = res else {
        panic!("Unmarshalling -257i32 failed");
    };

    assert_eq!(
        objects.as_slice(),
        &[PyObject::SmallInt(-257)],
        "Incorrectly unmarshalled -257i32"
    )
}

#[test]
fn unmarshal_pos_int64() {
    let res = Unmarshaller::loads(&[b'I', 1, 1, 0, 0, 0, 0, 0, 0]);
    let Ok(PyObjectRegion(objects)) = res else {
        panic!("Unmarshalling 257i64 failed");
    };

    assert_eq!(
        objects.as_slice(),
        &[PyObject::SmallInt(257)],
        "Incorrectly unmarshalled 257i64"
    )
}

#[test]
fn unmarshal_neg_int64() {
    let res = Unmarshaller::loads(&[b'I', 0xff, 0xfe, 0xff, 0xff, 0xff, 0xff, 0xff, 0xff]);
    let Ok(PyObjectRegion(objects)) = res else {
        panic!("Unmarshalling -257i64 failed");
    };

    assert_eq!(
        objects.as_slice(),
        &[PyObject::SmallInt(-257)],
        "Incorrectly unmarshalled -257i64"
    )
}

#[test]
fn unmarshal_invalid_int64() {
    let res = Unmarshaller::loads(b"Iabcdef");
    assert_eq!(
        Err(UnmarshalError::UnexpectedEof),
        res,
        "Expected unmarshalling an int64 with less than 8 bytes to fail with EOF"
    );
}

#[test]
fn unmarshal_pos_binary_float() {
    let res = Unmarshaller::loads(&[b'g', 0, 0, 0, 0, 0, 0x10, 0x70, 0x40]);
    let Ok(PyObjectRegion(objects)) = res else {
        panic!("Unmarshalling 257f64 failed");
    };

    assert_eq!(
        objects.as_slice(),
        &[PyObject::Float(257.0f64.to_bits())],
        "Incorrectly unmarshalled 257f64"
    )
}

#[test]
fn unmarshal_neg_binary_float() {
    let res = Unmarshaller::loads(&[b'g', 0, 0, 0, 0, 0, 0x10, 0x70, 0xc0]);
    let Ok(PyObjectRegion(objects)) = res else {
        panic!("Unmarshalling -257f64 failed");
    };

    assert_eq!(
        objects.as_slice(),
        &[PyObject::Float((-257.0f64).to_bits())],
        "Incorrectly unmarshalled -257f64"
    )
}

#[test]
fn unmarshal_invalid_binary_float() {
    let res = Unmarshaller::loads(b"gabcdef");
    assert_eq!(
        Err(UnmarshalError::UnexpectedEof),
        res,
        "Expected unmarshalling a float64 with less than 8 bytes to fail with EOF"
    );
}

#[test]
fn unmarshal_pos_str_float() {
    let res = Unmarshaller::loads(b"f\x04257.");
    let Ok(PyObjectRegion(objects)) = res else {
        panic!("Unmarshalling 257f64 from string form failed");
    };

    assert_eq!(
        objects.as_slice(),
        &[PyObject::Float(257.0f64.to_bits())],
        "Incorrectly unmarshalled 257f64 (string form)"
    )
}

#[test]
fn unmarshal_neg_str_float() {
    let res = Unmarshaller::loads(b"f\x06-257.0");
    let Ok(PyObjectRegion(objects)) = res else {
        panic!("Unmarshalling -257f64 from string form failed");
    };

    assert_eq!(
        objects.as_slice(),
        &[PyObject::Float((-257.0f64).to_bits())],
        "Incorrectly unmarshalled -257f64 (string form)"
    )
}

#[test]
fn unmarshal_invalid_str_float() {
    let res = Unmarshaller::loads(b"f\x10abc");
    assert_eq!(
        Err(UnmarshalError::UnexpectedEof),
        res,
        "Expected unmarshalling a str float with insufficient data for string"
    );
}

#[test]
fn unmarshal_binary_complex() {
    let res = Unmarshaller::loads(&[
        b'y', 0, 0, 0, 0, 0, 0x10, 0x70, 0x40, 0, 0, 0, 0, 0, 0x10, 0x70, 0xc0,
    ]);
    let Ok(PyObjectRegion(objects)) = res else {
        panic!("Unmarshalling 257-257j failed");
    };

    assert_eq!(
        objects.as_slice(),
        &[PyObject::Complex(
            257.0f64.to_bits(),
            (-257.0f64).to_bits()
        )],
        "Incorrectly unmarshalled 257-257"
    )
}

#[test]
fn unmarshal_str_complex() {
    let res = Unmarshaller::loads(b"x\x03257\x05-257.");
    let Ok(PyObjectRegion(objects)) = res else {
        panic!("Unmarshalling 257-257ji from string failed");
    };

    assert_eq!(
        objects.as_slice(),
        &[PyObject::Complex(
            257.0f64.to_bits(),
            (-257.0f64).to_bits()
        )],
        "Incorrectly unmarshalled 257-257 (from string)"
    )
}

#[test]
fn barebones_unmarshal_long() {
    let res = Unmarshaller::loads(&[b'l', 2, 0, 0, 0, 0, 1]);
    let Ok(PyObjectRegion(objects)) = res else {
        panic!("Unmarshalling long [0,1] from string failed, {res:?}");
    };

    assert_eq!(
        objects.as_slice(),
        &[PyObject::LargeInt(vec![0, 1])],
        "Incorrectly unmarshalled long [0,1]"
    )
}

#[test]
fn unmarshal_bytes() {
    let res = Unmarshaller::loads(&[b's', 3, 0, 0, 0, 0, 1, 1]);
    let Ok(PyObjectRegion(objects)) = res else {
        panic!("Unmarshalling bytes([0,1,1]) from string failed, {res:?}");
    };

    assert_eq!(
        objects.as_slice(),
        &[PyObject::Bytes(vec![0, 1, 1])],
        "Incorrectly unmarshalled bytes([0,1,1])"
    )
}

#[test]
fn unmarshal_bytes_eof() {
    let res = Unmarshaller::loads(&[b's', 3, 0, 0, 0, 0, 1]);
    assert_eq!(
        res,
        Err(UnmarshalError::UnexpectedEof),
        "Expected unmarshalling a bytes object with not enough bytes to be EOF"
    );
}

#[test]
fn unmarshal_unicode_string() {
    let resu = Unmarshaller::loads(b"u\x03\x00\x00\x00abc");
    let resi = Unmarshaller::loads(b"t\x03\x00\x00\x00abc");
    assert_eq!(
        resu, resi,
        "Uncidode unmarshalling {resu:?} should equal intern unmarshalling {resi:?}"
    );

    let Ok(PyObjectRegion(objects)) = resu else {
        panic!("Unmarshalling \"abc\"failed, {resu:?}");
    };

    assert_eq!(
        objects.as_slice(),
        &[PyObject::String("abc".into())],
        "Incorrectly unmarshalled \"abc\""
    )
}

#[test]
fn unmarshal_unicode_string_eof() {
    let resu = Unmarshaller::loads(b"u\x10\x00\x00\x00bla");
    let resi = Unmarshaller::loads(b"t\x10\x00\x00\x00bla");
    assert_eq!(
        resu, resi,
        "Uncidode unmarshalling {resu:?} should equal intern unmarshalling {resi:?}"
    );

    assert_eq!(
        resu,
        Err(UnmarshalError::UnexpectedEof),
        "Expected eof while parsing \"bla\" as a 0x10 byte long string"
    );
}

#[test]
fn unmarshal_tuple() {
    let res = Unmarshaller::loads(b"(\x02\x00\x00\x00i\x01\x01\x00\x00i\x00\x00\x01\x01");
    let Ok(PyObjectRegion(objects)) = res else {
        panic!("Unmarshalling (257, 16842752) failed, {res:?}");
    };

    assert_eq!(
        objects.as_slice(),
        &[
            PyObject::Tuple(vec![PyObjectIndex(1), PyObjectIndex(2)]),
            PyObject::SmallInt(257),
            PyObject::SmallInt(16842752)
        ],
        "Incorrectly unmarshalled (257, 16842752)"
    );
}

#[test]
fn unmarshal_tuple_eof() {
    let res = Unmarshaller::loads(b"(\x10\x00\x00\x00NNN");

    assert_eq!(
        res,
        Err(UnmarshalError::UnexpectedEof),
        "Expected eof while parsing (None, None, None) as a 0x10 item tuple"
    );
}

#[test]
fn unmarshal_small_tuple() {
    let res = Unmarshaller::loads(b")\x02i\x01\x01\x00\x00i\x00\x00\x01\x01");
    let Ok(PyObjectRegion(objects)) = res else {
        panic!("Unmarshalling short tuple (257, 16842752) failed, {res:?}");
    };

    assert_eq!(
        objects.as_slice(),
        &[
            PyObject::Tuple(vec![PyObjectIndex(1), PyObjectIndex(2)]),
            PyObject::SmallInt(257),
            PyObject::SmallInt(16842752)
        ],
        "Incorrectly unmarshalled short tuple (257, 16842752)"
    );
}

#[test]
fn unmarshal_small_tuple_eof() {
    let res = Unmarshaller::loads(b")\x10NNN");

    assert_eq!(
        res,
        Err(UnmarshalError::UnexpectedEof),
        "Expected eof while parsing (None, None, None) as a 0x10 item small tuple"
    );
}

#[test]
/// Tests unmarshalling a tuple where one element is a reference to the other
/// The input bytestring is directly from marshal.dumps((1,1))
fn unmarshal_tuple_with_self_reference() {
    let res = Unmarshaller::loads(b"\xa9\x02\xe9\x01\x00\x00\x00r\x01\x00\x00\x00");
    let Ok(PyObjectRegion(objects)) = res else {
        panic!("Unmarshalling short tuple (1, 1) failed, {res:?}");
    };
    assert_eq!(
        objects.as_slice(),
        &[
            PyObject::Tuple(vec![PyObjectIndex(1), PyObjectIndex(1)]),
            PyObject::SmallInt(1),
        ],
        "Incorrectly unmarshalled self referential tuple (1,1)"
    )
}

#[test]
/// Tests unmarshalling a tuple where one element is a reference to the other
/// The input bytestring is directly from marshal.dumps((1,1,2))
fn unmarshal_tuple_with_self_reference2() {
    let res =
        Unmarshaller::loads(b"\xa9\x03\xe9\x01\x00\x00\x00r\x01\x00\x00\x00i\x02\x00\x00\x00");
    let Ok(PyObjectRegion(objects)) = res else {
        panic!("Unmarshalling short tuple (1, 1, 2) failed, {res:?}");
    };
    assert_eq!(
        objects.as_slice(),
        &[
            PyObject::Tuple(vec![
                PyObjectIndex(1),
                PyObjectIndex(1),
                PyObjectIndex(2)
            ]),
            PyObject::SmallInt(1),
            PyObject::SmallInt(2)
        ],
        "Incorrectly unmarshalled self referential tuple (1, 1, 2)"
    )
}

#[test]
fn unmarshal_list() {
    let res = Unmarshaller::loads(b"[\x02\x00\x00\x00\xe9\x01\x00\x00\x00r\x00\x00\x00\x00");
    let Ok(PyObjectRegion(objects)) = res else {
        panic!("Unmarshalling list [1, 1] failed, {res:?}");
    };

    assert_eq!(
        objects.as_slice(),
        &[
            PyObject::List(vec![PyObjectIndex(1), PyObjectIndex(1)]),
            PyObject::SmallInt(1),
        ],
        "Incorrectly unmarshalled list [1, 1]"
    );
}

#[test]
fn unmarshal_list_eof() {
    let res = Unmarshaller::loads(b"[\x10\x00\x00\x00NNN");

    assert_eq!(
        res,
        Err(UnmarshalError::UnexpectedEof),
        "Expected eof while parsing [None, None, None] as a 0x10 item list"
    );
}

#[test]
fn unmarshal_set() {
    let res = Unmarshaller::loads(b"<\x02\x00\x00\x00\xe9\x01\x00\x00\x00\xe9\x02\x00\x00\x00");
    let Ok(PyObjectRegion(objects)) = res else {
        panic!("Unmarshalling set {{1, 2}} failed, {res:?}");
    };

    assert_eq!(
        objects.as_slice(),
        &[
            PyObject::PySet(vec![PyObjectIndex(1), PyObjectIndex(2)]),
            PyObject::SmallInt(1),
            PyObject::SmallInt(2),
        ],
        "Incorrectly unmarshalled set {{1, 2}}"
    );
}

#[test]
fn unmarshal_set_eof() {
    let res = Unmarshaller::loads(b"<\x10\x00\x00\x00NTF");

    assert_eq!(
        res,
        Err(UnmarshalError::UnexpectedEof),
        "Expected eof while parsing {{None, True, False}} as a 0x10 item set"
    );
}

#[test]
fn unmarshal_set_duplicates() {
    let res = Unmarshaller::loads(b"<\x02\x00\x00\x00\xe9\x01\x00\x00\x00r\x00\x00\x00\x00");
    let Ok(PyObjectRegion(objects)) = res else {
        panic!("Unmarshalling set {{1, 1}} failed, {res:?}");
    };

    assert_eq!(
        objects.as_slice(),
        &[
            PyObject::PySet(vec![PyObjectIndex(1)]),
            PyObject::SmallInt(1),
        ],
        "Incorrectly unmarshalled set {{1, 1}}"
    );
}

#[test]
fn unmarshal_frozen_set() {
    let res = Unmarshaller::loads(b">\x02\x00\x00\x00\xe9\x01\x00\x00\x00\xe9\x02\x00\x00\x00");
    let Ok(PyObjectRegion(objects)) = res else {
        panic!("Unmarshalling frozen set {{1, 2}} failed, {res:?}");
    };

    assert_eq!(
        objects.as_slice(),
        &[
            PyObject::FrozenSet(vec![PyObjectIndex(1), PyObjectIndex(2)]),
            PyObject::SmallInt(1),
            PyObject::SmallInt(2),
        ],
        "Incorrectly unmarshalled frozen set {{1, 2}}"
    );
}

#[test]
fn unmarshal_frozen_set_eof() {
    let res = Unmarshaller::loads(b">\x10\x00\x00\x00NTF");

    assert_eq!(
        res,
        Err(UnmarshalError::UnexpectedEof),
        "Expected eof while parsing {{None, True, False}} as a 0x10 item frozen set"
    );
}

#[test]
fn unmarshal_frozen_set_duplicates() {
    let res = Unmarshaller::loads(b">\x02\x00\x00\x00\xe9\x01\x00\x00\x00r\x00\x00\x00\x00");
    let Ok(PyObjectRegion(objects)) = res else {
        panic!("Unmarshalling frozen set {{1, 1}} failed, {res:?}");
    };

    assert_eq!(
        objects.as_slice(),
        &[
            PyObject::FrozenSet(vec![PyObjectIndex(1)]),
            PyObject::SmallInt(1),
        ],
        "Incorrectly unmarshalled frozen_set {{1, 1}}"
    );
}

#[test]
fn unmarshal_dict() {
    let res = Unmarshaller::loads(b"{\xda\x01a\xe9\x01\x00\x00\x00\xda\x01br\x00\x00\x00\x000");
    let Ok(PyObjectRegion(objects)) = res else {
        panic!("Unmarshalling {{\"a\":1,\"b\":\"a\"}} failed, {res:?}")
    };

    assert_eq!(
        objects.as_slice(),
        &[
            PyObject::Dict(vec![
                (PyObjectIndex(1), PyObjectIndex(2)),
                (PyObjectIndex(3), PyObjectIndex(1)),
            ]),
            PyObject::String("a".into()),
            PyObject::SmallInt(1),
            PyObject::String("b".into()),
        ]
    )
}

#[test]
fn unmarshal_dict_eof() {
    let res = Unmarshaller::loads(b"{\xda\x01a\xe9\x01\x00\x00\x00\xda\x01br\x00\x00\x00\x00");
    assert_eq!(res, Err(UnmarshalError::UnexpectedEof));
}

#[test]
/// Test that basic code object demarshalling is implemented correctly
/// Bytestring is from:
/// ```python
/// def f():
///     return 5
/// marshal.dumps(f.__code__)
/// ```
fn unmarshal_trivial_code() {
    let res = Unmarshaller::loads(b"\xe3\x00\x00\x00\x00\x00\x00\x00\x00\x00\x00\x00\x00\x01\x00\x00\x00\x03\x00\x00\x00\xf3\x06\x00\x00\x00\x80\x00^\x05#\x00)\x01\xe9\x05\x00\x00\x00\xa9\x00r\x03\x00\x00\x00\xf3\x00\x00\x00\x00\xda\x07example\xda\x01fr\x06\x00\x00\x00\x01\x00\x00\x00s\x05\x00\x00\x00\x80\x00\xd9\x0b\x0cr\x04\x00\x00\x00");
    let Ok(PyObjectRegion(objects)) = res else {
        panic!("Unmarshalling function f (equiv to lambda: 5) failed, {res:?}")
    };

    assert_eq!(
        objects.as_slice(),
        &[
            PyObject::Code(CodeObjectConstructor {
                arg_count: 0,
                pos_only_arg_count: 0,
                kw_only_arg_count: 0,
                stack_size: 1,
                flags: 0x03,
                code: PyObjectIndex(1),
                consts: PyObjectIndex(2),
                names: PyObjectIndex(4),
                locals_plus_names: PyObjectIndex(4),
                locals_plus_kinds: PyObjectIndex(5),
                filename: PyObjectIndex(6),
                name: PyObjectIndex(7),
                qualified_name: PyObjectIndex(7),
                first_line_no: 1,
                line_table: PyObjectIndex(8),
                exception_table: PyObjectIndex(5),
            }),
            PyObject::Bytes(b"\x80\x00^\x05#\x00".to_vec()),
            PyObject::Tuple(vec![PyObjectIndex(3)]),
            PyObject::SmallInt(5),
            PyObject::Tuple(vec![]),
            PyObject::Bytes(vec![]),
            PyObject::String("example".into()),
            PyObject::String("f".into()),
            PyObject::Bytes(b"\x80\x00\xd9\x0b\x0c".to_vec()),
        ]
    )
}

#[test]
/// Test that the identity function is demarshalled correctly
/// ```python
/// def f(x):
///     return x
/// marshal.dumps(f.__code__)
/// ```
fn unmarshal_identity_fn_code() {
    let res = Unmarshaller::loads(b"\xe3\x01\x00\x00\x00\x00\x00\x00\x00\x00\x00\x00\x00\x01\x00\x00\x00\x03\x00\x00\x00\xf3\x06\x00\x00\x00\x80\x00V\x00#\x00)\x01N\xa9\x00)\x01\xda\x01xs\x01\x00\x00\x00&\xda\x07example\xda\x01fr\x05\x00\x00\x00\x01\x00\x00\x00s\x07\x00\x00\x00\x80\x00\xd8\x0b\x0c\x80H\xf3\x00\x00\x00\x00");
    let Ok(PyObjectRegion(objects)) = res else {
        panic!("Unmarshalling identity function failed, {res:?}")
    };

    assert_eq!(
        objects.as_slice(),
        &[
            PyObject::Code(CodeObjectConstructor {
                arg_count: 1,
                pos_only_arg_count: 0,
                kw_only_arg_count: 0,
                stack_size: 1,
                flags: 0x03,
                code: PyObjectIndex(1),
                consts: PyObjectIndex(2),
                names: PyObjectIndex(4),
                locals_plus_names: PyObjectIndex(5),
                locals_plus_kinds: PyObjectIndex(7),
                filename: PyObjectIndex(8),
                name: PyObjectIndex(9),
                qualified_name: PyObjectIndex(9),
                first_line_no: 1,
                line_table: PyObjectIndex(10),
                exception_table: PyObjectIndex(11),
            }),
            PyObject::Bytes(b"\x80\x00V\x00#\x00".to_vec()),
            PyObject::Tuple(vec![PyObjectIndex(3)]),
            PyObject::NoneType,
            PyObject::Tuple(vec![]),
            PyObject::Tuple(vec![PyObjectIndex(6)]),
            PyObject::String("x".into()),
            PyObject::Bytes(vec![0x26]),
            PyObject::String("example".into()),
            PyObject::String("f".into()),
            PyObject::Bytes(b"\x80\x00\xd8\x0b\x0c\x80H".to_vec()),
            PyObject::Bytes(vec![]),
        ]
    )
}

#[test]
/// Test that closure functions are demarshalled correctly
/// ```python
/// def f(x):
///     def g(y):
///         return x+y
///     return g
/// marshal.dumps(f(1).__code__)
/// ```
fn unmarshal_closure_fn_code() {
    let res = Unmarshaller::loads(b"\xe3\x01\x00\x00\x00\x00\x00\x00\x00\x00\x00\x00\x00\x02\x00\x00\x00\x13\x00\x00\x00\xf3\x16\x00\x00\x00<\x01\x80\x00S\x01V\x00,\x00\x00\x00\x00\x00\x00\x00\x00\x00\x00\x00#\x00)\x01N\xa9\x00)\x02\xda\x01y\xda\x01xs\x02\x00\x00\x00&\x80\xda\x07example\xda\x01g\xda\x0cf.<locals>.g\x02\x00\x00\x00s\x0c\x00\x00\x00\xf8\x80\x00\xd8\x0f\x10\x90\x11\x8ds\x88\n\xf3\x00\x00\x00\x00");
    let Ok(PyObjectRegion(objects)) = res else {
        panic!("Unmarshalling identity function failed, {res:?}")
    };

    assert_eq!(
        objects.as_slice(),
        &[
            PyObject::Code(CodeObjectConstructor {
                arg_count: 1,
                pos_only_arg_count: 0,
                kw_only_arg_count: 0,
                stack_size: 2,
                flags: 0x13,
                code: PyObjectIndex(1),
                consts: PyObjectIndex(2),
                names: PyObjectIndex(4),
                locals_plus_names: PyObjectIndex(5),
                locals_plus_kinds: PyObjectIndex(8),
                filename: PyObjectIndex(9),
                name: PyObjectIndex(10),
                qualified_name: PyObjectIndex(11),
                first_line_no: 2,
                line_table: PyObjectIndex(12),
                exception_table: PyObjectIndex(13),
            }),
            PyObject::Bytes(
                b"<\x01\x80\x00S\x01V\x00,\x00\x00\x00\x00\x00\x00\x00\x00\x00\x00\x00#\x00"
                    .to_vec()
            ),
            PyObject::Tuple(vec![PyObjectIndex(3)]),
            PyObject::NoneType,
            PyObject::Tuple(vec![]),
            PyObject::Tuple(vec![PyObjectIndex(6), PyObjectIndex(7)]),
            PyObject::String("y".into()),
            PyObject::String("x".into()),
            PyObject::Bytes(vec![0x26, 0x80]),
            PyObject::String("example".into()),
            PyObject::String("g".into()),
            PyObject::String("f.<locals>.g".into()),
            PyObject::Bytes(b"\xf8\x80\x00\xd8\x0f\x10\x90\x11\x8ds\x88\n".to_vec()),
            PyObject::Bytes(vec![]),
        ]
    )
}

#[test]
/// Test that closure functions are demarshalled correctly
/// ```python
/// def f(x):
///     def g(y):
///         return x+y
///     return g
/// marshal.dumps(f.__code__)
/// ```
fn unmarshal_nested_fn() {
    let res = Unmarshaller::loads(b"\xe3\x01\x00\x00\x00\x00\x00\x00\x00\x00\x00\x00\x00\x02\x00\x00\x00\x03\x00\x00\x00\xf3\x14\x00\x00\x00a\x00\x80\x00V\x003\x01R\x00\x17\x00l\x08p\x01V\x01#\x00)\x01\xe3\x01\x00\x00\x00\x00\x00\x00\x00\x00\x00\x00\x00\x02\x00\x00\x00\x13\x00\x00\x00\xf3\x16\x00\x00\x00<\x01\x80\x00S\x01V\x00,\x00\x00\x00\x00\x00\x00\x00\x00\x00\x00\x00#\x00)\x01N\xa9\x00)\x02\xda\x01y\xda\x01xs\x02\x00\x00\x00&\x80\xda\x07example\xda\x01g\xda\x0cf.<locals>.g\x02\x00\x00\x00s\x0c\x00\x00\x00\xf8\x80\x00\xd8\x0f\x10\x90\x11\x8ds\x88\n\xf3\x00\x00\x00\x00r\x04\x00\x00\x00)\x02r\x06\x00\x00\x00r\x08\x00\x00\x00s\x02\x00\x00\x00f r\x07\x00\x00\x00\xda\x01fr\x0b\x00\x00\x00\x01\x00\x00\x00s\x0d\x00\x00\x00\xf8\x80\x00\xf5\x02\x01\x05\x13\xe0\x0b\x0c\x80Hr\x0a\x00\x00\x00");
    let Ok(PyObjectRegion(objects)) = res else {
        panic!("Unmarshalling identity function failed, {res:?}")
    };

    assert_eq!(
        objects.as_slice(),
        &[
            PyObject::Code(CodeObjectConstructor {
                arg_count: 1,
                pos_only_arg_count: 0,
                kw_only_arg_count: 0,
                stack_size: 2,
                flags: 3,
                code: PyObjectIndex(1),
                consts: PyObjectIndex(2),
                names: PyObjectIndex(7),
                locals_plus_names: PyObjectIndex(17),
                locals_plus_kinds: PyObjectIndex(18),
                filename: PyObjectIndex(12),
                name: PyObjectIndex(19),
                qualified_name: PyObjectIndex(19),
                first_line_no: 1,
                line_table: PyObjectIndex(20),
                exception_table: PyObjectIndex(16),
            }),
            PyObject::Bytes(b"a\x00\x80\x00V\x003\x01R\x00\x17\x00l\x08p\x01V\x01#\x00".to_vec()),
            PyObject::Tuple(vec![PyObjectIndex(3)]),
            PyObject::Code(CodeObjectConstructor {
                arg_count: 1,
                pos_only_arg_count: 0,
                kw_only_arg_count: 0,
                stack_size: 2,
                flags: 0x13,
                code: PyObjectIndex(4),
                consts: PyObjectIndex(5),
                names: PyObjectIndex(7),
                locals_plus_names: PyObjectIndex(8),
                locals_plus_kinds: PyObjectIndex(11),
                filename: PyObjectIndex(12),
                name: PyObjectIndex(13),
                qualified_name: PyObjectIndex(14),
                first_line_no: 2,
                line_table: PyObjectIndex(15),
                exception_table: PyObjectIndex(16),
            }),
            PyObject::Bytes(
                b"<\x01\x80\x00S\x01V\x00,\x00\x00\x00\x00\x00\x00\x00\x00\x00\x00\x00#\x00"
                    .to_vec()
            ),
            PyObject::Tuple(vec![PyObjectIndex(6)]),
            PyObject::NoneType,
            PyObject::Tuple(vec![]),
            PyObject::Tuple(vec![PyObjectIndex(9), PyObjectIndex(10)]),
            PyObject::String("y".into()),
            PyObject::String("x".into()),
            PyObject::Bytes(vec![0x26, 0x80]),
            PyObject::String("example".into()),
            PyObject::String("g".into()),
            PyObject::String("f.<locals>.g".into()),
            PyObject::Bytes(b"\xf8\x80\x00\xd8\x0f\x10\x90\x11\x8ds\x88\n".to_vec()),
            PyObject::Bytes(vec![]),
            PyObject::Tuple(vec![PyObjectIndex(10), PyObjectIndex(13)]),
            PyObject::Bytes(vec![0x66, 0x20]),
            PyObject::String("f".into()),
            PyObject::Bytes(b"\xf8\x80\x00\xf5\x02\x01\x05\x13\xe0\x0b\x0c\x80H".to_vec()),
        ]
    )
}

#[test]
fn unmarshal_explicit_unknown() {
    let res = Unmarshaller::loads(b"?");
    assert_eq!(res, Err(UnmarshalError::ExplicitUnknown));
}

#[test]
fn unmarshal_asciis() {
    let resa = Unmarshaller::loads(b"a\x03\x00\x00\x00abc");
    let resai = Unmarshaller::loads(b"a\x03\x00\x00\x00abc");
    let resas = Unmarshaller::loads(b"a\x03\x00\x00\x00abc");
    let resasi = Unmarshaller::loads(b"a\x03\x00\x00\x00abc");

    assert_eq!(
        resa, resai,
        "Interned and non-interned ascii string 'abc' should match"
    );
    assert_eq!(
        resa, resas,
        "Short and normal ascii string 'abc' should match"
    );
    assert_eq!(
        resa, resasi,
        "Interned and non-interned ascii string 'abc' should match"
    );

    let Ok(PyObjectRegion(objects)) = resa else {
        panic!("Unmarshalling ascii \"abc\" function failed, {resa:?}")
    };

    assert_eq!(objects, &[PyObject::String("abc".into())])
}
