//! End-to-end tests of the decode/encode codecs against small catalogs.

use struct_bindgen::error::CodecError;
use struct_bindgen::codec::{decode, encode};
use struct_bindgen::types::{
    EnumVariantDef, IntEncoding, QualifierKind, StructMember, TypeCatalog, TypeDescriptor, Value,
};

fn integer(bits: u32, encoding: IntEncoding) -> TypeDescriptor {
    TypeDescriptor::Integer { bits, encoding }
}

fn member(name: &str, type_id: u32, byte_offset: u32) -> StructMember {
    StructMember { name: name.to_string(), type_id, bit_offset: byte_offset * 8, bit_size: 0 }
}

/// A catalog holding one descriptor per push; ids are indices.
fn catalog(descriptors: Vec<TypeDescriptor>) -> TypeCatalog {
    let mut cat = TypeCatalog::new();
    for d in descriptors {
        cat.push(d);
    }
    cat
}

#[test]
fn integer_round_trips_every_width() {
    let cat = catalog(vec![
        integer(8, IntEncoding::Unsigned),
        integer(8, IntEncoding::Signed),
        integer(16, IntEncoding::Unsigned),
        integer(16, IntEncoding::Signed),
        integer(32, IntEncoding::Unsigned),
        integer(32, IntEncoding::Signed),
        integer(64, IntEncoding::Unsigned),
        integer(64, IntEncoding::Signed),
        integer(128, IntEncoding::Unsigned),
        integer(128, IntEncoding::Signed),
    ]);
    let values = vec![
        Value::U8(0x12),
        Value::I8(-0x12),
        Value::U16(0x1234),
        Value::I16(-0x1234),
        Value::U32(0x12345678),
        Value::I32(-0x12345678),
        Value::U64(0x123456789abcdef0),
        Value::I64(-0x123456789abcdef0),
        Value::U128(0x0123456789abcdef0011223344556677),
        Value::I128(-0x0123456789abcdef0011223344556677),
    ];
    for (id, v) in values.iter().enumerate() {
        let bytes = encode(&cat, id as u32, v).unwrap();
        let back = decode(&cat, id as u32, &bytes).unwrap();
        match (v, &back) {
            (Value::U8(a), Value::U8(b)) => assert_eq!(a, b),
            (Value::I8(a), Value::I8(b)) => assert_eq!(a, b),
            (Value::U16(a), Value::U16(b)) => assert_eq!(a, b),
            (Value::I16(a), Value::I16(b)) => assert_eq!(a, b),
            (Value::U32(a), Value::U32(b)) => assert_eq!(a, b),
            (Value::I32(a), Value::I32(b)) => assert_eq!(a, b),
            (Value::U64(a), Value::U64(b)) => assert_eq!(a, b),
            (Value::I64(a), Value::I64(b)) => assert_eq!(a, b),
            (Value::U128(a), Value::U128(b)) => assert_eq!(a, b),
            (Value::I128(a), Value::I128(b)) => assert_eq!(a, b),
            _ => panic!("decoded value changed shape"),
        }
    }
}

#[test]
fn integer_uses_little_endian_order() {
    let cat = catalog(vec![integer(32, IntEncoding::Unsigned)]);
    let v = decode(&cat, 0, &[0x78, 0x56, 0x34, 0x12]).unwrap();
    assert!(matches!(v, Value::U32(0x12345678)));
    let bytes = encode(&cat, 0, &Value::U32(0x12345678)).unwrap();
    assert_eq!(bytes, vec![0x78, 0x56, 0x34, 0x12]);
}

#[test]
fn boolean_decodes_permissively() {
    let cat = catalog(vec![integer(8, IntEncoding::Boolean)]);
    assert!(matches!(decode(&cat, 0, &[1]).unwrap(), Value::Bool(true)));
    assert!(matches!(decode(&cat, 0, &[0]).unwrap(), Value::Bool(false)));
    // Any byte other than 1 decodes as false, deliberately.
    assert!(matches!(decode(&cat, 0, &[2]).unwrap(), Value::Bool(false)));
    assert_eq!(encode(&cat, 0, &Value::Bool(true)).unwrap(), vec![1]);
    assert_eq!(encode(&cat, 0, &Value::Bool(false)).unwrap(), vec![0]);
}

#[test]
fn char_outside_arrays_is_an_unsigned_byte() {
    let cat = catalog(vec![integer(8, IntEncoding::Char)]);
    assert!(matches!(decode(&cat, 0, &[0x41]).unwrap(), Value::U8(0x41)));
}

#[test]
fn unsupported_integer_shapes_are_rejected() {
    let cat = catalog(vec![
        integer(12, IntEncoding::Unsigned),
        integer(16, IntEncoding::Char),
        integer(16, IntEncoding::Boolean),
    ]);
    assert!(matches!(decode(&cat, 0, &[0, 0]), Err(CodecError::UnsupportedBitfield)));
    assert!(matches!(decode(&cat, 1, &[0, 0]), Err(CodecError::UnsupportedIntegerEncoding)));
    assert!(matches!(decode(&cat, 2, &[0, 0]), Err(CodecError::UnsupportedIntegerEncoding)));
}

#[test]
fn float_round_trips_as_bit_patterns() {
    let cat = catalog(vec![
        TypeDescriptor::Float { size: 4 },
        TypeDescriptor::Float { size: 8 },
    ]);
    let f = 1.23f32;
    let bytes = encode(&cat, 0, &Value::F32Bits(f.to_bits())).unwrap();
    assert_eq!(bytes, f.to_le_bytes().to_vec());
    match decode(&cat, 0, &bytes).unwrap() {
        Value::F32Bits(bits) => assert_eq!(f32::from_bits(bits), 1.23f32),
        _ => panic!("decoded value changed shape"),
    }
    let d = 4.56f64;
    let bytes = encode(&cat, 1, &Value::F64Bits(d.to_bits())).unwrap();
    assert_eq!(bytes, d.to_le_bytes().to_vec());
    match decode(&cat, 1, &bytes).unwrap() {
        Value::F64Bits(bits) => assert_eq!(f64::from_bits(bits), 4.56f64),
        _ => panic!("decoded value changed shape"),
    }
}

#[test]
fn unsupported_float_size_is_rejected() {
    let cat = catalog(vec![TypeDescriptor::Float { size: 2 }]);
    assert!(matches!(decode(&cat, 0, &[0, 0]), Err(CodecError::UnsupportedFloatSize)));
}

#[test]
fn pointer_is_an_eight_byte_address() {
    let cat = catalog(vec![
        integer(32, IntEncoding::Unsigned),
        TypeDescriptor::Pointer { pointee: 0 },
    ]);
    let bytes = encode(&cat, 1, &Value::Pointer(0x1122334455667788)).unwrap();
    assert_eq!(bytes.len(), 8);
    assert!(matches!(decode(&cat, 1, &bytes).unwrap(), Value::Pointer(0x1122334455667788)));
    assert!(matches!(decode(&cat, 1, &[0; 4]), Err(CodecError::LengthMismatch)));
}

#[test]
fn length_mismatch_for_every_kind() {
    let cat = catalog(vec![
        integer(32, IntEncoding::Unsigned),
        TypeDescriptor::Float { size: 8 },
        TypeDescriptor::Pointer { pointee: 0 },
        TypeDescriptor::Enumeration {
            name: "E".to_string(),
            size: 4,
            variants: vec![EnumVariantDef { name: "A".to_string(), value: 0 }],
        },
        TypeDescriptor::Array { element: 0, count: 2 },
        TypeDescriptor::Struct {
            name: "S".to_string(),
            size: 4,
            members: vec![member("x", 0, 0)],
        },
        integer(8, IntEncoding::Char),
        TypeDescriptor::Array { element: 6, count: 4 },
    ]);
    assert!(matches!(decode(&cat, 0, &[0; 3]), Err(CodecError::LengthMismatch)));
    assert!(matches!(decode(&cat, 1, &[0; 9]), Err(CodecError::LengthMismatch)));
    assert!(matches!(decode(&cat, 2, &[0; 7]), Err(CodecError::LengthMismatch)));
    assert!(matches!(decode(&cat, 3, &[0; 2]), Err(CodecError::LengthMismatch)));
    assert!(matches!(decode(&cat, 4, &[0; 7]), Err(CodecError::LengthMismatch)));
    assert!(matches!(decode(&cat, 5, &[0; 5]), Err(CodecError::LengthMismatch)));
    assert!(matches!(decode(&cat, 7, &[0; 3]), Err(CodecError::LengthMismatch)));
}

#[test]
fn enum_decodes_by_declared_value() {
    let cat = catalog(vec![TypeDescriptor::Enumeration {
        name: "E".to_string(),
        size: 4,
        variants: vec![
            EnumVariantDef { name: "E_A".to_string(), value: 5 },
            EnumVariantDef { name: "E_B".to_string(), value: -7 },
            EnumVariantDef { name: "E_C".to_string(), value: 100 },
        ],
    }]);
    assert!(matches!(decode(&cat, 0, &5i32.to_le_bytes()).unwrap(), Value::EnumVariant(0)));
    assert!(matches!(decode(&cat, 0, &(-7i32).to_le_bytes()).unwrap(), Value::EnumVariant(1)));
    assert!(matches!(decode(&cat, 0, &100i32.to_le_bytes()).unwrap(), Value::EnumVariant(2)));
    assert!(matches!(decode(&cat, 0, &6i32.to_le_bytes()), Err(CodecError::InvalidEnumValue)));
    assert_eq!(encode(&cat, 0, &Value::EnumVariant(1)).unwrap(), (-7i32).to_le_bytes().to_vec());
}

#[test]
fn enum_supports_each_declared_width() {
    for (size, bytes) in [(1u32, vec![0xfbu8]), (2, vec![0xfb, 0xff]), (8, {
        let mut b = vec![0xfb, 0xff];
        b.extend(std::iter::repeat(0xff).take(6));
        b
    })] {
        let cat = catalog(vec![TypeDescriptor::Enumeration {
            name: "E".to_string(),
            size,
            variants: vec![EnumVariantDef { name: "M".to_string(), value: -5 }],
        }]);
        assert!(matches!(decode(&cat, 0, &bytes).unwrap(), Value::EnumVariant(0)));
        assert_eq!(encode(&cat, 0, &Value::EnumVariant(0)).unwrap(), bytes);
    }
}

#[test]
fn unsupported_enum_size_is_rejected() {
    let cat = catalog(vec![TypeDescriptor::Enumeration {
        name: "E".to_string(),
        size: 3,
        variants: vec![],
    }]);
    assert!(matches!(decode(&cat, 0, &[0; 3]), Err(CodecError::UnsupportedEnumSize)));
}

#[test]
fn text_array_round_trips() {
    let cat = catalog(vec![
        integer(8, IntEncoding::Char),
        TypeDescriptor::Array { element: 0, count: 8 },
    ]);
    let bytes = encode(&cat, 1, &Value::Text("hi".to_string())).unwrap();
    assert_eq!(bytes, vec![b'h', b'i', 0, 0, 0, 0, 0, 0]);
    match decode(&cat, 1, &bytes).unwrap() {
        Value::Text(s) => assert_eq!(s, "hi"),
        _ => panic!("decoded value changed shape"),
    }
}

#[test]
fn text_decode_takes_bytes_before_first_zero() {
    let cat = catalog(vec![
        integer(8, IntEncoding::Char),
        TypeDescriptor::Array { element: 0, count: 6 },
    ]);
    match decode(&cat, 1, &[b'a', b'b', 0, b'c', 0, 0]).unwrap() {
        Value::Text(s) => assert_eq!(s, "ab"),
        _ => panic!("decoded value changed shape"),
    }
}

#[test]
fn text_decode_requires_a_terminator() {
    let cat = catalog(vec![
        integer(8, IntEncoding::Char),
        TypeDescriptor::Array { element: 0, count: 4 },
    ]);
    assert!(matches!(decode(&cat, 1, &[b'a', b'b', b'c', b'd']), Err(CodecError::MissingTerminator)));
}

#[test]
fn text_decode_rejects_invalid_utf8() {
    let cat = catalog(vec![
        integer(8, IntEncoding::Char),
        TypeDescriptor::Array { element: 0, count: 4 },
    ]);
    assert!(matches!(decode(&cat, 1, &[0xff, 0xfe, 0, 0]), Err(CodecError::InvalidText)));
}

#[test]
fn text_encode_rejects_overlong_text() {
    let cat = catalog(vec![
        integer(8, IntEncoding::Char),
        TypeDescriptor::Array { element: 0, count: 4 },
    ]);
    assert_eq!(
        encode(&cat, 1, &Value::Text("abcd".to_string())),
        Err(CodecError::TextTooLong)
    );
    // The terminator still fits beside three bytes of text.
    assert_eq!(
        encode(&cat, 1, &Value::Text("abc".to_string())).unwrap(),
        vec![b'a', b'b', b'c', 0]
    );
}

#[test]
fn general_array_round_trips_in_order() {
    let cat = catalog(vec![
        integer(16, IntEncoding::Unsigned),
        TypeDescriptor::Array { element: 0, count: 3 },
    ]);
    let v = Value::Array(vec![Value::U16(1), Value::U16(2), Value::U16(3)]);
    let bytes = encode(&cat, 1, &v).unwrap();
    assert_eq!(bytes, vec![1, 0, 2, 0, 3, 0]);
    match decode(&cat, 1, &bytes).unwrap() {
        Value::Array(vs) => {
            assert_eq!(vs.len(), 3);
            for (k, expect) in [1u16, 2, 3].iter().enumerate() {
                assert!(matches!(&vs[k], Value::U16(x) if x == expect));
            }
        },
        _ => panic!("decoded value changed shape"),
    }
}

#[test]
fn nested_arrays_are_arrays_of_arrays() {
    let cat = catalog(vec![
        integer(8, IntEncoding::Unsigned),
        TypeDescriptor::Array { element: 0, count: 2 },
        TypeDescriptor::Array { element: 1, count: 2 },
    ]);
    let bytes = [1u8, 2, 3, 4];
    match decode(&cat, 2, &bytes).unwrap() {
        Value::Array(rows) => {
            assert_eq!(rows.len(), 2);
            match (&rows[0], &rows[1]) {
                (Value::Array(r0), Value::Array(r1)) => {
                    assert!(matches!(r0[0], Value::U8(1)));
                    assert!(matches!(r0[1], Value::U8(2)));
                    assert!(matches!(r1[0], Value::U8(3)));
                    assert!(matches!(r1[1], Value::U8(4)));
                },
                _ => panic!("inner values are not arrays"),
            }
        },
        _ => panic!("decoded value changed shape"),
    }
}

#[test]
fn struct_with_text_field_round_trips() {
    // A struct with f1: uint32 at offset 0 and f2: char[4] at offset 4.
    let cat = catalog(vec![
        integer(32, IntEncoding::Unsigned),
        integer(8, IntEncoding::Char),
        TypeDescriptor::Array { element: 1, count: 4 },
        TypeDescriptor::Struct {
            name: "S".to_string(),
            size: 8,
            members: vec![member("f1", 0, 0), member("f2", 2, 4)],
        },
    ]);
    let input = [0x78u8, 0x56, 0x34, 0x12, b'h', b'i', 0, 0];
    let v = decode(&cat, 3, &input).unwrap();
    match &v {
        Value::Struct(fields) => {
            assert_eq!(fields.len(), 2);
            assert!(matches!(fields[0], Value::U32(0x12345678)));
            match &fields[1] {
                Value::Text(s) => assert_eq!(s, "hi"),
                _ => panic!("text field changed shape"),
            }
        },
        _ => panic!("decoded value changed shape"),
    }
    assert_eq!(encode(&cat, 3, &v).unwrap(), input.to_vec());
}

#[test]
fn struct_encode_zeroes_padding() {
    // Two one-byte members at offsets 0 and 3 leave bytes 1 and 2 as padding.
    let cat = catalog(vec![
        integer(8, IntEncoding::Unsigned),
        TypeDescriptor::Struct {
            name: "S".to_string(),
            size: 4,
            members: vec![member("a", 0, 0), member("b", 0, 3)],
        },
    ]);
    let bytes = encode(&cat, 1, &Value::Struct(vec![Value::U8(0xaa), Value::U8(0xbb)])).unwrap();
    assert_eq!(bytes, vec![0xaa, 0, 0, 0xbb]);
}

#[test]
fn struct_with_bitfield_member_is_rejected() {
    let cat = catalog(vec![
        integer(32, IntEncoding::Unsigned),
        TypeDescriptor::Struct {
            name: "S".to_string(),
            size: 4,
            members: vec![StructMember {
                name: "x".to_string(),
                type_id: 0,
                bit_offset: 3,
                bit_size: 0,
            }],
        },
    ]);
    assert!(matches!(decode(&cat, 1, &[0; 4]), Err(CodecError::UnsupportedBitfield)));
}

#[test]
fn qualified_field_behaves_like_the_bare_type() {
    // id 0: uint32; ids 1..=3: typedef -> const -> volatile chain onto it.
    let cat = catalog(vec![
        integer(32, IntEncoding::Unsigned),
        TypeDescriptor::Qualifier { kind: QualifierKind::Volatile, target: 0 },
        TypeDescriptor::Qualifier { kind: QualifierKind::Const, target: 1 },
        TypeDescriptor::Qualifier { kind: QualifierKind::Typedef, target: 2 },
        TypeDescriptor::Struct {
            name: "Direct".to_string(),
            size: 4,
            members: vec![member("x", 0, 0)],
        },
        TypeDescriptor::Struct {
            name: "Qualified".to_string(),
            size: 4,
            members: vec![member("x", 3, 0)],
        },
    ]);
    let input = [0x78u8, 0x56, 0x34, 0x12];
    let direct = decode(&cat, 4, &input).unwrap();
    let qualified = decode(&cat, 5, &input).unwrap();
    match (&direct, &qualified) {
        (Value::Struct(a), Value::Struct(b)) => {
            assert!(matches!(a[0], Value::U32(0x12345678)));
            assert!(matches!(b[0], Value::U32(0x12345678)));
        },
        _ => panic!("decoded values changed shape"),
    }
    assert_eq!(encode(&cat, 4, &direct).unwrap(), input.to_vec());
    assert_eq!(encode(&cat, 5, &qualified).unwrap(), input.to_vec());
}

#[test]
fn qualifier_cycle_is_malformed() {
    let cat = catalog(vec![
        TypeDescriptor::Qualifier { kind: QualifierKind::Typedef, target: 1 },
        TypeDescriptor::Qualifier { kind: QualifierKind::Const, target: 0 },
    ]);
    assert!(matches!(decode(&cat, 0, &[0; 4]), Err(CodecError::MalformedTypeGraph)));
}

#[test]
fn dangling_type_id_is_malformed() {
    let cat = catalog(vec![TypeDescriptor::Qualifier {
        kind: QualifierKind::Typedef,
        target: 99,
    }]);
    assert!(matches!(decode(&cat, 0, &[0; 4]), Err(CodecError::MalformedTypeGraph)));
    assert!(matches!(decode(&cat, 42, &[0; 4]), Err(CodecError::MalformedTypeGraph)));
}

#[test]
fn text_handles_multibyte_utf8() {
    let cat = catalog(vec![
        integer(8, IntEncoding::Char),
        TypeDescriptor::Array { element: 0, count: 8 },
    ]);
    let bytes = encode(&cat, 1, &Value::Text("héllo".to_string())).unwrap();
    assert_eq!(bytes.len(), 8);
    match decode(&cat, 1, &bytes).unwrap() {
        Value::Text(s) => assert_eq!(s, "héllo"),
        _ => panic!("decoded value changed shape"),
    }
}

#[test]
fn text_fills_its_capacity_exactly() {
    let cat = catalog(vec![
        integer(8, IntEncoding::Char),
        TypeDescriptor::Array { element: 0, count: 10 },
    ]);
    let bytes = encode(&cat, 1, &Value::Text("hello 0".to_string())).unwrap();
    assert_eq!(bytes, vec![b'h', b'e', b'l', b'l', b'o', b' ', b'0', 0, 0, 0]);
}

#[test]
fn struct_decode_mirrors_many_field_layouts() {
    // One struct exercising every scalar width side by side.
    let cat = catalog(vec![
        integer(8, IntEncoding::Unsigned),
        integer(8, IntEncoding::Signed),
        integer(16, IntEncoding::Unsigned),
        integer(16, IntEncoding::Signed),
        integer(32, IntEncoding::Unsigned),
        integer(32, IntEncoding::Signed),
        integer(64, IntEncoding::Unsigned),
        integer(64, IntEncoding::Signed),
        TypeDescriptor::Struct {
            name: "AllInts".to_string(),
            size: 32,
            members: vec![
                member("u8v", 0, 0),
                member("i8v", 1, 1),
                member("u16v", 2, 2),
                member("i16v", 3, 4),
                member("u32v", 4, 8),
                member("i32v", 5, 12),
                member("u64v", 6, 16),
                member("i64v", 7, 24),
            ],
        },
    ]);
    let mut input = Vec::new();
    input.push(0x12u8);
    input.extend((-0x12i8).to_le_bytes());
    input.extend(0x1234u16.to_le_bytes());
    input.extend((-0x1234i16).to_le_bytes());
    // Bytes 6 and 7 are padding before the 4-byte member at offset 8.
    input.extend([0u8, 0u8]);
    input.extend(0x12345678u32.to_le_bytes());
    input.extend((-0x12345678i32).to_le_bytes());
    input.extend(0x123456789abcdef0u64.to_le_bytes());
    input.extend((-0x123456789abcdef0i64).to_le_bytes());
    assert_eq!(input.len(), 32);
    let v = decode(&cat, 8, &input).unwrap();
    match &v {
        Value::Struct(fields) => {
            assert!(matches!(fields[0], Value::U8(0x12)));
            assert!(matches!(fields[1], Value::I8(-0x12)));
            assert!(matches!(fields[2], Value::U16(0x1234)));
            assert!(matches!(fields[3], Value::I16(-0x1234)));
            assert!(matches!(fields[4], Value::U32(0x12345678)));
            assert!(matches!(fields[5], Value::I32(-0x12345678)));
            assert!(matches!(fields[6], Value::U64(0x123456789abcdef0)));
            assert!(matches!(fields[7], Value::I64(-0x123456789abcdef0)));
        },
        _ => panic!("decoded value changed shape"),
    }
    assert_eq!(encode(&cat, 8, &v).unwrap(), input);
}
