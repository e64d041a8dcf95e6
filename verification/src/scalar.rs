//! Codecs for the flat kinds: integers, floats, pointers and enumerations.
//!
//! All multi-byte values use little-endian byte order, the native order of
//! the targets these layouts describe: decode and encode are byte-exact
//! inverses at the declared width.

use vstd::bytes::{
    spec_u128_from_le_bytes, spec_u128_to_le_bytes, spec_u16_from_le_bytes, spec_u16_to_le_bytes,
    spec_u32_from_le_bytes, spec_u32_to_le_bytes, spec_u64_from_le_bytes, spec_u64_to_le_bytes,
    u128_from_le_bytes, u128_to_le_bytes, u16_from_le_bytes, u16_to_le_bytes, u32_from_le_bytes,
    u32_to_le_bytes, u64_from_le_bytes, u64_to_le_bytes,
};
use vstd::prelude::*;
use vstd::slice::slice_index_get;

use crate::error::CodecError;
use crate::sizes::spec_int_size;
use crate::types::{
    decode_result_matches, encode_result_matches, EnumVariantDef, IntEncoding, Value, ValueModel,
};

verus! {

broadcast use vstd::std_specs::vec::group_vec_axioms;

// --- integers ---

/// Whether a bit-width/encoding pair has a codec: one-byte booleans and
/// character code units, and power-of-two integers from one to sixteen bytes.
pub open spec fn spec_int_pair_supported(bits: u32, encoding: IntEncoding) -> bool {
    match encoding {
        IntEncoding::Boolean => bits == 8,
        IntEncoding::Char => bits == 8,
        IntEncoding::Signed => bits == 8 || bits == 16 || bits == 32 || bits == 64 || bits == 128,
        IntEncoding::Unsigned => bits == 8 || bits == 16 || bits == 32 || bits == 64 || bits
            == 128,
    }
}

/// The validation error of an integer type, if any: sub-byte widths are
/// bit-fields, and any other unknown pair has no codec.
pub open spec fn spec_int_check(bits: u32, encoding: IntEncoding) -> Option<CodecError> {
    if bits % 8 != 0 {
        Some(CodecError::UnsupportedBitfield)
    } else if !spec_int_pair_supported(bits, encoding) {
        Some(CodecError::UnsupportedIntegerEncoding)
    } else {
        None
    }
}

/// The value that a supported integer type reads from its exact-width window.
///
/// A boolean is the single byte compared against 1 — any other byte decodes
/// as `false`, deliberately, without rejecting it. A character code unit
/// decodes as an unsigned byte.
pub open spec fn spec_int_value(bits: u32, encoding: IntEncoding, b: Seq<u8>) -> ValueModel
    recommends
        spec_int_pair_supported(bits, encoding),
        b.len() == spec_int_size(bits),
{
    match encoding {
        IntEncoding::Boolean => ValueModel::Bool(b[0] == 1),
        IntEncoding::Signed => {
            if bits == 8 {
                ValueModel::I8(b[0] as i8)
            } else if bits == 16 {
                ValueModel::I16(spec_u16_from_le_bytes(b) as i16)
            } else if bits == 32 {
                ValueModel::I32(spec_u32_from_le_bytes(b) as i32)
            } else if bits == 64 {
                ValueModel::I64(spec_u64_from_le_bytes(b) as i64)
            } else {
                ValueModel::I128(spec_u128_from_le_bytes(b) as i128)
            }
        },
        _ => {
            if bits == 8 {
                ValueModel::U8(b[0])
            } else if bits == 16 {
                ValueModel::U16(spec_u16_from_le_bytes(b))
            } else if bits == 32 {
                ValueModel::U32(spec_u32_from_le_bytes(b))
            } else if bits == 64 {
                ValueModel::U64(spec_u64_from_le_bytes(b))
            } else {
                ValueModel::U128(spec_u128_from_le_bytes(b))
            }
        },
    }
}

/// What decoding an integer type yields on a window of bytes.
pub open spec fn spec_decode_integer(bits: u32, encoding: IntEncoding, b: Seq<u8>) -> Result<
    ValueModel,
    CodecError,
> {
    match spec_int_check(bits, encoding) {
        Some(e) => Err(e),
        None => {
            if b.len() != spec_int_size(bits) {
                Err(CodecError::LengthMismatch)
            } else {
                Ok(spec_int_value(bits, encoding, b))
            }
        },
    }
}

/// Whether a value has the shape that an integer type encodes.
pub open spec fn spec_int_value_ok(bits: u32, encoding: IntEncoding, m: ValueModel) -> bool {
    match encoding {
        IntEncoding::Boolean => m is Bool,
        IntEncoding::Signed => {
            if bits == 8 {
                m is I8
            } else if bits == 16 {
                m is I16
            } else if bits == 32 {
                m is I32
            } else if bits == 64 {
                m is I64
            } else {
                m is I128
            }
        },
        _ => {
            if bits == 8 {
                m is U8
            } else if bits == 16 {
                m is U16
            } else if bits == 32 {
                m is U32
            } else if bits == 64 {
                m is U64
            } else {
                m is U128
            }
        },
    }
}

/// The bytes that an integer value encodes to: little-endian at its width,
/// a boolean as exactly 1 or 0.
pub open spec fn spec_int_bytes(m: ValueModel) -> Seq<u8> {
    match m {
        ValueModel::Bool(x) => seq![
            if x {
                1u8
            } else {
                0u8
            },
        ],
        ValueModel::U8(x) => seq![x],
        ValueModel::I8(x) => seq![x as u8],
        ValueModel::U16(x) => spec_u16_to_le_bytes(x),
        ValueModel::I16(x) => spec_u16_to_le_bytes(x as u16),
        ValueModel::U32(x) => spec_u32_to_le_bytes(x),
        ValueModel::I32(x) => spec_u32_to_le_bytes(x as u32),
        ValueModel::U64(x) => spec_u64_to_le_bytes(x),
        ValueModel::I64(x) => spec_u64_to_le_bytes(x as u64),
        ValueModel::U128(x) => spec_u128_to_le_bytes(x),
        ValueModel::I128(x) => spec_u128_to_le_bytes(x as u128),
        _ => Seq::empty(),
    }
}

/// What encoding a value against an integer type yields.
///
/// A value of the wrong shape cannot arise from a decoded or well-typed
/// value; it reports the graph as malformed rather than inventing bytes.
pub open spec fn spec_encode_integer(bits: u32, encoding: IntEncoding, m: ValueModel) -> Result<
    Seq<u8>,
    CodecError,
> {
    match spec_int_check(bits, encoding) {
        Some(e) => Err(e),
        None => {
            if !spec_int_value_ok(bits, encoding, m) {
                Err(CodecError::MalformedTypeGraph)
            } else {
                Ok(spec_int_bytes(m))
            }
        },
    }
}

/// Decodes an integer type from its window.
pub fn decode_integer(bits: u32, encoding: IntEncoding, w: &[u8]) -> (r: Result<Value, CodecError>)
    ensures
        decode_result_matches(r, spec_decode_integer(bits, encoding, w@)),
{
    if bits % 8 != 0 {
        return Err(CodecError::UnsupportedBitfield);
    }
    let supported: bool = match encoding {
        IntEncoding::Boolean => bits == 8,
        IntEncoding::Char => bits == 8,
        IntEncoding::Signed => bits == 8 || bits == 16 || bits == 32 || bits == 64 || bits == 128,
        IntEncoding::Unsigned => bits == 8 || bits == 16 || bits == 32 || bits == 64 || bits
            == 128,
    };
    if !supported {
        return Err(CodecError::UnsupportedIntegerEncoding);
    }
    let width: usize = (bits / 8) as usize;
    if w.len() != width {
        return Err(CodecError::LengthMismatch);
    }
    match encoding {
        IntEncoding::Boolean => Ok(Value::Bool(*slice_index_get(w, 0) == 1)),
        IntEncoding::Signed => {
            if bits == 8 {
                Ok(Value::I8(*slice_index_get(w, 0) as i8))
            } else if bits == 16 {
                Ok(Value::I16(u16_from_le_bytes(w) as i16))
            } else if bits == 32 {
                Ok(Value::I32(u32_from_le_bytes(w) as i32))
            } else if bits == 64 {
                Ok(Value::I64(u64_from_le_bytes(w) as i64))
            } else {
                Ok(Value::I128(u128_from_le_bytes(w) as i128))
            }
        },
        _ => {
            if bits == 8 {
                Ok(Value::U8(*slice_index_get(w, 0)))
            } else if bits == 16 {
                Ok(Value::U16(u16_from_le_bytes(w)))
            } else if bits == 32 {
                Ok(Value::U32(u32_from_le_bytes(w)))
            } else if bits == 64 {
                Ok(Value::U64(u64_from_le_bytes(w)))
            } else {
                Ok(Value::U128(u128_from_le_bytes(w)))
            }
        },
    }
}

/// Encodes a value against an integer type.
pub fn encode_integer(bits: u32, encoding: IntEncoding, v: &Value) -> (r: Result<
    Vec<u8>,
    CodecError,
>)
    ensures
        encode_result_matches(r, spec_encode_integer(bits, encoding, v.model())),
{
    if bits % 8 != 0 {
        return Err(CodecError::UnsupportedBitfield);
    }
    let supported: bool = match encoding {
        IntEncoding::Boolean => bits == 8,
        IntEncoding::Char => bits == 8,
        IntEncoding::Signed => bits == 8 || bits == 16 || bits == 32 || bits == 64 || bits == 128,
        IntEncoding::Unsigned => bits == 8 || bits == 16 || bits == 32 || bits == 64 || bits
            == 128,
    };
    if !supported {
        return Err(CodecError::UnsupportedIntegerEncoding);
    }
    match encoding {
        IntEncoding::Boolean => {
            match v {
                Value::Bool(x) => {
                    let mut out: Vec<u8> = Vec::new();
                    out.push(
                        if *x {
                            1
                        } else {
                            0
                        },
                    );
                    proof {
                        assert(out@ =~= spec_int_bytes(v.model()));
                    }
                    Ok(out)
                },
                _ => Err(CodecError::MalformedTypeGraph),
            }
        },
        IntEncoding::Signed => {
            if bits == 8 {
                match v {
                    Value::I8(x) => {
                        let mut out: Vec<u8> = Vec::new();
                        out.push(*x as u8);
                        proof {
                            assert(out@ =~= spec_int_bytes(v.model()));
                        }
                        Ok(out)
                    },
                    _ => Err(CodecError::MalformedTypeGraph),
                }
            } else if bits == 16 {
                match v {
                    Value::I16(x) => Ok(u16_to_le_bytes(*x as u16)),
                    _ => Err(CodecError::MalformedTypeGraph),
                }
            } else if bits == 32 {
                match v {
                    Value::I32(x) => Ok(u32_to_le_bytes(*x as u32)),
                    _ => Err(CodecError::MalformedTypeGraph),
                }
            } else if bits == 64 {
                match v {
                    Value::I64(x) => Ok(u64_to_le_bytes(*x as u64)),
                    _ => Err(CodecError::MalformedTypeGraph),
                }
            } else {
                match v {
                    Value::I128(x) => Ok(u128_to_le_bytes(*x as u128)),
                    _ => Err(CodecError::MalformedTypeGraph),
                }
            }
        },
        _ => {
            if bits == 8 {
                match v {
                    Value::U8(x) => {
                        let mut out: Vec<u8> = Vec::new();
                        out.push(*x);
                        proof {
                            assert(out@ =~= spec_int_bytes(v.model()));
                        }
                        Ok(out)
                    },
                    _ => Err(CodecError::MalformedTypeGraph),
                }
            } else if bits == 16 {
                match v {
                    Value::U16(x) => Ok(u16_to_le_bytes(*x)),
                    _ => Err(CodecError::MalformedTypeGraph),
                }
            } else if bits == 32 {
                match v {
                    Value::U32(x) => Ok(u32_to_le_bytes(*x)),
                    _ => Err(CodecError::MalformedTypeGraph),
                }
            } else if bits == 64 {
                match v {
                    Value::U64(x) => Ok(u64_to_le_bytes(*x)),
                    _ => Err(CodecError::MalformedTypeGraph),
                }
            } else {
                match v {
                    Value::U128(x) => Ok(u128_to_le_bytes(*x)),
                    _ => Err(CodecError::MalformedTypeGraph),
                }
            }
        },
    }
}

// --- floats ---

/// The validation error of a floating-point type, if any: only 4- and 8-byte
/// widths have codecs.
pub open spec fn spec_float_check(size: u32) -> Option<CodecError> {
    if size == 4 || size == 8 {
        None
    } else {
        Some(CodecError::UnsupportedFloatSize)
    }
}

/// What decoding a floating-point type yields: the raw bit pattern read
/// little-endian from an exact-width window.
pub open spec fn spec_decode_float(size: u32, b: Seq<u8>) -> Result<ValueModel, CodecError> {
    match spec_float_check(size) {
        Some(e) => Err(e),
        None => {
            if b.len() != size {
                Err(CodecError::LengthMismatch)
            } else if size == 4 {
                Ok(ValueModel::F32Bits(spec_u32_from_le_bytes(b)))
            } else {
                Ok(ValueModel::F64Bits(spec_u64_from_le_bytes(b)))
            }
        },
    }
}

/// Whether a value has the shape that a floating-point type encodes.
pub open spec fn spec_float_value_ok(size: u32, m: ValueModel) -> bool {
    if size == 4 {
        m is F32Bits
    } else {
        m is F64Bits
    }
}

/// What encoding a value against a floating-point type yields: its bit
/// pattern, little-endian at the declared width.
pub open spec fn spec_encode_float(size: u32, m: ValueModel) -> Result<Seq<u8>, CodecError> {
    match spec_float_check(size) {
        Some(e) => Err(e),
        None => {
            match m {
                ValueModel::F32Bits(x) => {
                    if size == 4 {
                        Ok(spec_u32_to_le_bytes(x))
                    } else {
                        Err(CodecError::MalformedTypeGraph)
                    }
                },
                ValueModel::F64Bits(x) => {
                    if size == 8 {
                        Ok(spec_u64_to_le_bytes(x))
                    } else {
                        Err(CodecError::MalformedTypeGraph)
                    }
                },
                _ => Err(CodecError::MalformedTypeGraph),
            }
        },
    }
}

/// Decodes a floating-point type from its window.
pub fn decode_float(size: u32, w: &[u8]) -> (r: Result<Value, CodecError>)
    ensures
        decode_result_matches(r, spec_decode_float(size, w@)),
{
    if size != 4 && size != 8 {
        return Err(CodecError::UnsupportedFloatSize);
    }
    if w.len() != size as usize {
        return Err(CodecError::LengthMismatch);
    }
    if size == 4 {
        Ok(Value::F32Bits(u32_from_le_bytes(w)))
    } else {
        Ok(Value::F64Bits(u64_from_le_bytes(w)))
    }
}

/// Encodes a value against a floating-point type.
pub fn encode_float(size: u32, v: &Value) -> (r: Result<Vec<u8>, CodecError>)
    ensures
        encode_result_matches(r, spec_encode_float(size, v.model())),
{
    if size != 4 && size != 8 {
        return Err(CodecError::UnsupportedFloatSize);
    }
    match v {
        Value::F32Bits(x) => {
            if size == 4 {
                Ok(u32_to_le_bytes(*x))
            } else {
                Err(CodecError::MalformedTypeGraph)
            }
        },
        Value::F64Bits(x) => {
            if size == 8 {
                Ok(u64_to_le_bytes(*x))
            } else {
                Err(CodecError::MalformedTypeGraph)
            }
        },
        _ => Err(CodecError::MalformedTypeGraph),
    }
}

// --- pointers ---

/// What decoding a pointer yields: the raw 8-byte address, whatever the
/// pointee type.
pub open spec fn spec_decode_pointer(b: Seq<u8>) -> Result<ValueModel, CodecError> {
    if b.len() != 8 {
        Err(CodecError::LengthMismatch)
    } else {
        Ok(ValueModel::Pointer(spec_u64_from_le_bytes(b)))
    }
}

/// What encoding a pointer value yields: its 8 address bytes.
pub open spec fn spec_encode_pointer(m: ValueModel) -> Result<Seq<u8>, CodecError> {
    match m {
        ValueModel::Pointer(x) => Ok(spec_u64_to_le_bytes(x)),
        _ => Err(CodecError::MalformedTypeGraph),
    }
}

/// Decodes a pointer from its window.
pub fn decode_pointer(w: &[u8]) -> (r: Result<Value, CodecError>)
    ensures
        decode_result_matches(r, spec_decode_pointer(w@)),
{
    if w.len() != 8 {
        return Err(CodecError::LengthMismatch);
    }
    Ok(Value::Pointer(u64_from_le_bytes(w)))
}

/// Encodes a pointer value.
pub fn encode_pointer(v: &Value) -> (r: Result<Vec<u8>, CodecError>)
    ensures
        encode_result_matches(r, spec_encode_pointer(v.model())),
{
    match v {
        Value::Pointer(x) => Ok(u64_to_le_bytes(*x)),
        _ => Err(CodecError::MalformedTypeGraph),
    }
}

// --- enumerations ---

/// The validation error of an enumeration type, if any: the declared byte
/// size selects an 8-, 16-, 32- or 64-bit signed representation.
pub open spec fn spec_enum_check(size: u32) -> Option<CodecError> {
    if size == 1 || size == 2 || size == 4 || size == 8 {
        None
    } else {
        Some(CodecError::UnsupportedEnumSize)
    }
}

/// The signed integer read from an enumeration window, widened to 64 bits.
pub open spec fn spec_enum_raw(size: u32, b: Seq<u8>) -> i64
    recommends
        spec_enum_check(size) is None,
        b.len() == size,
{
    if size == 1 {
        (b[0] as i8) as i64
    } else if size == 2 {
        (spec_u16_from_le_bytes(b) as i16) as i64
    } else if size == 4 {
        (spec_u32_from_le_bytes(b) as i32) as i64
    } else {
        spec_u64_from_le_bytes(b) as i64
    }
}

/// The first variant at or after position `j` whose value is `raw`.
pub open spec fn spec_find_variant_from(
    variants: Seq<EnumVariantDef>,
    raw: i64,
    j: int,
) -> Option<int>
    decreases variants.len() - j,
{
    if j < 0 || j >= variants.len() {
        None
    } else if variants[j].value == raw {
        Some(j)
    } else {
        spec_find_variant_from(variants, raw, j + 1)
    }
}

/// The first variant, in declaration order, whose value is `raw`.
pub open spec fn spec_find_variant(variants: Seq<EnumVariantDef>, raw: i64) -> Option<int> {
    spec_find_variant_from(variants, raw, 0)
}

/// A found variant lies within the table.
pub proof fn lemma_find_variant_in_range(variants: Seq<EnumVariantDef>, raw: i64, j: int)
    requires
        spec_find_variant_from(variants, raw, j) is Some,
    ensures
        j <= spec_find_variant_from(variants, raw, j).unwrap() < variants.len(),
        variants[spec_find_variant_from(variants, raw, j).unwrap()].value == raw,
    decreases variants.len() - j,
{
    if 0 <= j < variants.len() && variants[j].value != raw {
        lemma_find_variant_in_range(variants, raw, j + 1);
    }
}

/// What decoding an enumeration yields: the first variant whose value
/// matches the integer read from an exact-width window.
pub open spec fn spec_decode_enum(size: u32, variants: Seq<EnumVariantDef>, b: Seq<u8>) -> Result<
    ValueModel,
    CodecError,
> {
    match spec_enum_check(size) {
        Some(e) => Err(e),
        None => {
            if b.len() != size {
                Err(CodecError::LengthMismatch)
            } else {
                match spec_find_variant(variants, spec_enum_raw(size, b)) {
                    Some(idx) => Ok(ValueModel::EnumVariant(idx as usize)),
                    None => Err(CodecError::InvalidEnumValue),
                }
            }
        },
    }
}

/// The bytes of one variant value at the representation width: the declared
/// 64-bit value truncated little-endian to the declared size.
pub open spec fn spec_enum_value_bytes(size: u32, value: i64) -> Seq<u8>
    recommends
        spec_enum_check(size) is None,
{
    if size == 1 {
        seq![value as u8]
    } else if size == 2 {
        spec_u16_to_le_bytes(value as u16)
    } else if size == 4 {
        spec_u32_to_le_bytes(value as u32)
    } else {
        spec_u64_to_le_bytes(value as u64)
    }
}

/// What encoding a variant yields: its declared value at the representation
/// width. For a variant inside the table this never fails.
pub open spec fn spec_encode_enum(size: u32, variants: Seq<EnumVariantDef>, m: ValueModel) -> Result<
    Seq<u8>,
    CodecError,
> {
    match spec_enum_check(size) {
        Some(e) => Err(e),
        None => {
            match m {
                ValueModel::EnumVariant(idx) => {
                    if idx < variants.len() {
                        Ok(spec_enum_value_bytes(size, variants[idx as int].value))
                    } else {
                        Err(CodecError::MalformedTypeGraph)
                    }
                },
                _ => Err(CodecError::MalformedTypeGraph),
            }
        },
    }
}

/// Decodes an enumeration from its window, matching the variant table in
/// declaration order.
#[verifier::loop_isolation(false)]
pub fn decode_enum(size: u32, variants: &Vec<EnumVariantDef>, w: &[u8]) -> (r: Result<
    Value,
    CodecError,
>)
    ensures
        decode_result_matches(r, spec_decode_enum(size, variants@, w@)),
{
    if !(size == 1 || size == 2 || size == 4 || size == 8) {
        return Err(CodecError::UnsupportedEnumSize);
    }
    if w.len() != size as usize {
        return Err(CodecError::LengthMismatch);
    }
    let raw: i64 = if size == 1 {
        (*slice_index_get(w, 0) as i8) as i64
    } else if size == 2 {
        (u16_from_le_bytes(w) as i16) as i64
    } else if size == 4 {
        (u32_from_le_bytes(w) as i32) as i64
    } else {
        u64_from_le_bytes(w) as i64
    };
    let mut j: usize = 0;
    while j < variants.len()
        invariant
            j <= variants@.len(),
            spec_find_variant(variants@, raw) == spec_find_variant_from(variants@, raw, j as int),
        decreases variants@.len() - j,
    {
        if variants[j].value == raw {
            return Ok(Value::EnumVariant(j));
        }
        j = j + 1;
    }
    Err(CodecError::InvalidEnumValue)
}

/// Encodes a variant of an enumeration; inside the table this always
/// succeeds and yields the declared value.
pub fn encode_enum(size: u32, variants: &Vec<EnumVariantDef>, v: &Value) -> (r: Result<
    Vec<u8>,
    CodecError,
>)
    ensures
        encode_result_matches(r, spec_encode_enum(size, variants@, v.model())),
{
    if !(size == 1 || size == 2 || size == 4 || size == 8) {
        return Err(CodecError::UnsupportedEnumSize);
    }
    match v {
        Value::EnumVariant(idx) => {
            if *idx < variants.len() {
                let value: i64 = variants[*idx].value;
                if size == 1 {
                    let mut out: Vec<u8> = Vec::new();
                    out.push(value as u8);
                    proof {
                        assert(out@ =~= spec_enum_value_bytes(size, value));
                    }
                    Ok(out)
                } else if size == 2 {
                    Ok(u16_to_le_bytes(value as u16))
                } else if size == 4 {
                    Ok(u32_to_le_bytes(value as u32))
                } else {
                    Ok(u64_to_le_bytes(value as u64))
                }
            } else {
                Err(CodecError::MalformedTypeGraph)
            }
        },
        _ => Err(CodecError::MalformedTypeGraph),
    }
}

} // verus!
