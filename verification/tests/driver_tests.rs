//! Tests of the generation run: bundle contents, names and fail-fast errors.

use struct_bindgen::driver::generate_bindgen_bundle;
use struct_bindgen::error::CodecError;
use struct_bindgen::names::{decimal_string, func_names, ty_name};
use struct_bindgen::sizes::{size_of, SizeResolveCache};
use struct_bindgen::types::{
    EnumVariantDef, IntEncoding, QualifierKind, StructMember, TypeCatalog, TypeDescriptor,
};

fn sample_catalog() -> TypeCatalog {
    let mut cat = TypeCatalog::new();
    cat.push(TypeDescriptor::Other);
    cat.push(TypeDescriptor::Integer { bits: 32, encoding: IntEncoding::Unsigned });
    cat.push(TypeDescriptor::Pointer { pointee: 1 });
    cat.push(TypeDescriptor::Qualifier { kind: QualifierKind::Const, target: 1 });
    cat.push(TypeDescriptor::Array { element: 1, count: 3 });
    cat.push(TypeDescriptor::Struct {
        name: "point".to_string(),
        size: 8,
        members: vec![
            StructMember { name: "x".to_string(), type_id: 1, bit_offset: 0, bit_size: 0 },
            StructMember { name: "y".to_string(), type_id: 3, bit_offset: 32, bit_size: 0 },
        ],
    });
    cat.push(TypeDescriptor::Enumeration {
        name: "color".to_string(),
        size: 4,
        variants: vec![
            EnumVariantDef { name: "RED".to_string(), value: 0 },
            EnumVariantDef { name: "BLUE".to_string(), value: 1 },
        ],
    });
    cat.push(TypeDescriptor::Float { size: 8 });
    cat
}

#[test]
fn name_resolver_is_deterministic() {
    assert_eq!(ty_name(0), "btf_type_0");
    assert_eq!(ty_name(7), "btf_type_7");
    assert_eq!(ty_name(4294967295), "btf_type_4294967295");
    let (de, ser) = func_names(12);
    assert_eq!(de, "deserialize_btf_type_12");
    assert_eq!(ser, "serialize_btf_type_12");
    assert_eq!(decimal_string(0), "0");
    assert_eq!(decimal_string(10), "10");
    assert_eq!(decimal_string(90102), "90102");
}

#[test]
fn size_resolution_is_qualifier_aware_and_memoized() {
    let cat = sample_catalog();
    assert_eq!(size_of(&cat, 1), Ok(4));
    assert_eq!(size_of(&cat, 2), Ok(8));
    assert_eq!(size_of(&cat, 3), Ok(4));
    assert_eq!(size_of(&cat, 4), Ok(12));
    assert_eq!(size_of(&cat, 5), Ok(8));
    assert_eq!(size_of(&cat, 0), Ok(0));
    let mut cache = SizeResolveCache::new();
    assert_eq!(cache.resolve(&cat, 4), Ok(12));
    assert_eq!(cache.resolve(&cat, 4), Ok(12));
    assert_eq!(cache.resolve(&cat, 5), Ok(8));
}

#[test]
fn generation_partitions_internal_and_public_units() {
    let cat = sample_catalog();
    let bundle = generate_bindgen_bundle(&cat).unwrap();
    // Every supported kind gets an internal unit; Other and the qualifier do not.
    let internal_ids: Vec<u32> = bundle.internal.iter().map(|u| u.ty_id).collect();
    assert_eq!(internal_ids, vec![1, 2, 4, 5, 6, 7]);
    // Only the struct and the enumeration get public units.
    let public_ids: Vec<u32> = bundle.public.iter().map(|u| u.ty_id).collect();
    assert_eq!(public_ids, vec![5, 6]);
    for u in &bundle.internal {
        assert_eq!(u.repr_name, format!("btf_type_{}", u.ty_id));
        assert_eq!(u.decode_name, format!("deserialize_btf_type_{}", u.ty_id));
        assert_eq!(u.encode_name, format!("serialize_btf_type_{}", u.ty_id));
        assert!(!u.public);
        assert!(u.external_name.is_none());
    }
    assert_eq!(bundle.internal[0].byte_size, 4);
    assert_eq!(bundle.internal[2].byte_size, 12);
    assert_eq!(bundle.public[0].external_name.as_deref(), Some("point"));
    assert_eq!(bundle.public[1].external_name.as_deref(), Some("color"));
    assert_eq!(bundle.public[0].byte_size, 8);
    assert!(bundle.public.iter().all(|u| u.public));
}

#[test]
fn public_units_decode_and_encode_their_type() {
    let cat = sample_catalog();
    let bundle = generate_bindgen_bundle(&cat).unwrap();
    let point = &bundle.public[0];
    let input = [1u8, 0, 0, 0, 2, 0, 0, 0];
    let v = point.from_bytes(&cat, &input).unwrap();
    match &v {
        struct_bindgen::types::Value::Struct(fields) => {
            assert!(matches!(fields[0], struct_bindgen::types::Value::U32(1)));
            assert!(matches!(fields[1], struct_bindgen::types::Value::U32(2)));
        },
        _ => panic!("decoded value changed shape"),
    }
    assert_eq!(point.to_bytes(&cat, &v).unwrap(), input.to_vec());
}

#[test]
fn generation_of_an_empty_catalog_is_empty() {
    let cat = TypeCatalog::new();
    let bundle = generate_bindgen_bundle(&cat).unwrap();
    assert!(bundle.internal.is_empty());
    assert!(bundle.public.is_empty());
}

#[test]
fn generation_fails_fast_on_the_first_error() {
    let mut cat = TypeCatalog::new();
    cat.push(TypeDescriptor::Integer { bits: 32, encoding: IntEncoding::Unsigned });
    cat.push(TypeDescriptor::Integer { bits: 12, encoding: IntEncoding::Unsigned });
    cat.push(TypeDescriptor::Float { size: 3 });
    assert!(matches!(generate_bindgen_bundle(&cat), Err(CodecError::UnsupportedBitfield)));

    let mut cat2 = TypeCatalog::new();
    cat2.push(TypeDescriptor::Float { size: 3 });
    cat2.push(TypeDescriptor::Integer { bits: 12, encoding: IntEncoding::Unsigned });
    assert!(matches!(generate_bindgen_bundle(&cat2), Err(CodecError::UnsupportedFloatSize)));

    let mut cat3 = TypeCatalog::new();
    cat3.push(TypeDescriptor::Enumeration {
        name: "E".to_string(),
        size: 3,
        variants: vec![],
    });
    assert!(matches!(generate_bindgen_bundle(&cat3), Err(CodecError::UnsupportedEnumSize)));

    let mut cat4 = TypeCatalog::new();
    cat4.push(TypeDescriptor::Array { element: 9, count: 2 });
    assert!(matches!(generate_bindgen_bundle(&cat4), Err(CodecError::MalformedTypeGraph)));
}
