//! The behavioural laws of the generated codecs, proved once and for all
//! against the specification semantics in [`crate::codec`].

use vstd::prelude::*;

use crate::codec::{
    spec_decode, spec_decode_elements, spec_decode_members, spec_encode, spec_encode_elements,
    spec_encode_members, spec_is_text_element, spec_write,
};
use crate::error::CodecError;
use crate::resolve::{lemma_resolve_concrete, resolve_fuel, spec_resolve};
use crate::scalar::{
    lemma_find_variant_in_range, spec_decode_enum, spec_decode_integer, spec_encode_enum,
    spec_enum_check, spec_enum_raw, spec_enum_value_bytes, spec_find_variant,
    spec_find_variant_from, spec_float_check, spec_int_bytes, spec_int_check, spec_int_value,
    spec_int_value_ok,
};
use crate::sizes::{lemma_size_at_resolved, spec_int_size, spec_size};
use crate::text::{
    lemma_first_zero_from, spec_decode_text, spec_encode_text, spec_first_zero, zeros,
};
use crate::types::{EnumVariantDef, StructMember, TypeDescriptor, ValueModel};

verus! {

broadcast use vstd::std_specs::vec::group_vec_axioms;

// --- shared helpers ---

/// All variant values of an enumeration are pairwise distinct; the catalog
/// invariant that makes decoding unambiguous.
pub open spec fn spec_enum_values_distinct(variants: Seq<EnumVariantDef>) -> bool {
    forall|j: int, k: int|
        0 <= j < k < variants.len() ==> (#[trigger] variants[j]).value != (
        #[trigger] variants[k]).value
}

/// Whether a variant value is representable at the declared enumeration
/// width; the catalog invariant that makes its encoding lossless.
pub open spec fn spec_enum_value_fits(size: u32, value: i64) -> bool {
    if size == 1 {
        i8::MIN <= value <= i8::MAX
    } else if size == 2 {
        i16::MIN <= value <= i16::MAX
    } else if size == 4 {
        i32::MIN <= value <= i32::MAX
    } else {
        true
    }
}

/// Reinterpreting a signed value as unsigned and back is the identity, at
/// every width the codecs use.
proof fn lemma_signed_unsigned_casts()
    ensures
        forall|x: i8| #![trigger (x as u8) as i8] (x as u8) as i8 == x,
        forall|x: i16| #![trigger (x as u16) as i16] (x as u16) as i16 == x,
        forall|x: i32| #![trigger (x as u32) as i32] (x as u32) as i32 == x,
        forall|x: i64| #![trigger (x as u64) as i64] (x as u64) as i64 == x,
        forall|x: i128| #![trigger (x as u128) as i128] (x as u128) as i128 == x,
        forall|u: u8| #![trigger (u as i8) as u8] (u as i8) as u8 == u,
        forall|u: u16| #![trigger (u as i16) as u16] (u as i16) as u16 == u,
        forall|u: u32| #![trigger (u as i32) as u32] (u as i32) as u32 == u,
        forall|u: u64| #![trigger (u as i64) as u64] (u as i64) as u64 == u,
        forall|u: u128| #![trigger (u as i128) as u128] (u as i128) as u128 == u,
{
    assert forall|x: i8| #![trigger (x as u8) as i8] (x as u8) as i8 == x by {
        assert((x as u8) as i8 == x) by (bit_vector);
    }
    assert forall|x: i16| #![trigger (x as u16) as i16] (x as u16) as i16 == x by {
        assert((x as u16) as i16 == x) by (bit_vector);
    }
    assert forall|x: i32| #![trigger (x as u32) as i32] (x as u32) as i32 == x by {
        assert((x as u32) as i32 == x) by (bit_vector);
    }
    assert forall|x: i64| #![trigger (x as u64) as i64] (x as u64) as i64 == x by {
        assert((x as u64) as i64 == x) by (bit_vector);
    }
    assert forall|x: i128| #![trigger (x as u128) as i128] (x as u128) as i128 == x by {
        assert((x as u128) as i128 == x) by (bit_vector);
    }
    assert forall|u: u8| #![trigger (u as i8) as u8] (u as i8) as u8 == u by {
        assert((u as i8) as u8 == u) by (bit_vector);
    }
    assert forall|u: u16| #![trigger (u as i16) as u16] (u as i16) as u16 == u by {
        assert((u as i16) as u16 == u) by (bit_vector);
    }
    assert forall|u: u32| #![trigger (u as i32) as u32] (u as i32) as u32 == u by {
        assert((u as i32) as u32 == u) by (bit_vector);
    }
    assert forall|u: u64| #![trigger (u as i64) as u64] (u as i64) as u64 == u by {
        assert((u as i64) as u64 == u) by (bit_vector);
    }
    assert forall|u: u128| #![trigger (u as i128) as u128] (u as i128) as u128 == u by {
        assert((u as i128) as u128 == u) by (bit_vector);
    }
}

/// Truncating a 64-bit value that fits a narrower signed width and
/// sign-extending it back is the identity.
proof fn lemma_fits_round_trip()
    ensures
        forall|v: i64|
            i8::MIN <= v <= i8::MAX ==> #[trigger] (((v as u8) as i8) as i64) == v,
        forall|v: i64|
            i16::MIN <= v <= i16::MAX ==> #[trigger] (((v as u16) as i16) as i64) == v,
        forall|v: i64|
            i32::MIN <= v <= i32::MAX ==> #[trigger] (((v as u32) as i32) as i64) == v,
{
    assert forall|v: i64| i8::MIN <= v <= i8::MAX implies #[trigger] (((v as u8) as i8) as i64)
        == v by {
        assert(-128 <= v <= 127 ==> ((v as u8) as i8) as i64 == v) by (bit_vector);
    }
    assert forall|v: i64| i16::MIN <= v <= i16::MAX implies #[trigger] (((v as u16) as i16)
        as i64) == v by {
        assert(-32768 <= v <= 32767 ==> ((v as u16) as i16) as i64 == v) by (bit_vector);
    }
    assert forall|v: i64| i32::MIN <= v <= i32::MAX implies #[trigger] (((v as u32) as i32)
        as i64) == v by {
        assert(-0x8000_0000 <= v <= 0x7fff_ffff ==> ((v as u32) as i32) as i64 == v)
            by (bit_vector);
    }
}

/// With pairwise distinct values, the variant table maps a matching value
/// back to exactly the variant it came from.
proof fn lemma_find_distinct(variants: Seq<EnumVariantDef>, idx: int, j: int)
    requires
        spec_enum_values_distinct(variants),
        0 <= j <= idx < variants.len(),
    ensures
        spec_find_variant_from(variants, variants[idx].value, j) == Some(idx),
    decreases variants.len() - j,
{
    if j < idx {
        lemma_find_distinct(variants, idx, j + 1);
    }
}

/// Widening a signed value that fits the declared width and truncating it
/// back is the identity; the byte images agree likewise.
proof fn lemma_enum_raw_round_trip(size: u32, variants: Seq<EnumVariantDef>, idx: int)
    requires
        spec_enum_check(size) is None,
        0 <= idx < variants.len(),
        spec_enum_value_fits(size, variants[idx].value),
    ensures
        spec_enum_value_bytes(size, variants[idx].value).len() == size,
        spec_enum_raw(size, spec_enum_value_bytes(size, variants[idx].value)) == variants[
            idx].value,
{
    vstd::bytes::lemma_auto_spec_u16_to_from_le_bytes();
    vstd::bytes::lemma_auto_spec_u32_to_from_le_bytes();
    vstd::bytes::lemma_auto_spec_u64_to_from_le_bytes();
    lemma_signed_unsigned_casts();
    lemma_fits_round_trip();
    let v = variants[idx].value;
    if size == 1 {
        assert(spec_enum_value_bytes(size, v) == seq![v as u8]);
        assert((((v as u8) as i8) as i64) == v);
    } else if size == 2 {
        let b = spec_enum_value_bytes(size, v);
        assert(b == vstd::bytes::spec_u16_to_le_bytes(v as u16));
        assert(vstd::bytes::spec_u16_from_le_bytes(b) == v as u16);
        assert(((v as u16) as i16) as i64 == v);
    } else if size == 4 {
        let b = spec_enum_value_bytes(size, v);
        assert(b == vstd::bytes::spec_u32_to_le_bytes(v as u32));
        assert(vstd::bytes::spec_u32_from_le_bytes(b) == v as u32);
        assert(((v as u32) as i32) as i64 == v);
    } else {
        let b = spec_enum_value_bytes(size, v);
        assert(b == vstd::bytes::spec_u64_to_le_bytes(v as u64));
        assert(vstd::bytes::spec_u64_from_le_bytes(b) == v as u64);
        assert(((v as u64) as i64) == v);
    }
}

// --- the laws themselves ---

/// Every decoder, of every supported kind, rejects a buffer whose length is
/// not the type's declared size with `LengthMismatch` — no truncation, no
/// silent extension.
pub proof fn lemma_decode_length_mismatch(
    types: Seq<TypeDescriptor>,
    id: int,
    b: Seq<u8>,
    fuel: nat,
)
    requires
        fuel >= 1,
        spec_resolve(types, id) is Some,
        crate::driver::spec_has_codec(types[spec_resolve(types, id).unwrap()]),
        crate::driver::spec_validate(types, spec_resolve(types, id).unwrap()) is None,
        spec_size(types, id) is Some,
        b.len() != spec_size(types, id).unwrap(),
    ensures
        spec_decode(types, id, b, fuel) == Err::<ValueModel, CodecError>(
            CodecError::LengthMismatch,
        ),
{
    let rid = spec_resolve(types, id).unwrap();
    lemma_resolve_concrete(types, id, resolve_fuel(types));
    lemma_size_at_resolved(types, id, resolve_fuel(types));
    assert(spec_size(types, rid) == spec_size(types, id));
    match types[rid] {
        TypeDescriptor::Integer { bits, encoding } => {
            assert(spec_size(types, rid) == Some(spec_int_size(bits)));
            assert(spec_decode(types, id, b, fuel) == spec_decode_integer(bits, encoding, b));
        },
        TypeDescriptor::Float { size } => {
            assert(spec_size(types, rid) == Some(size as nat));
        },
        TypeDescriptor::Pointer { pointee: _ } => {
            assert(spec_size(types, rid) == Some(8nat));
        },
        TypeDescriptor::Enumeration { name: _, size, variants: _ } => {
            assert(spec_size(types, rid) == Some(size as nat));
        },
        TypeDescriptor::Struct { name: _, size, members: _ } => {
            assert(spec_size(types, rid) == Some(size as nat));
        },
        TypeDescriptor::Array { element, count } => {
            crate::sizes::lemma_size_fuel_mono(
                types,
                element as int,
                (crate::sizes::size_fuel(types) - 1) as nat,
                crate::sizes::size_fuel(types),
            );
            if spec_is_text_element(types, element as int) {
                vstd::arithmetic::mul::lemma_mul_basics(count as int);
                assert(spec_size(types, element as int) == Some(1nat));
                assert(spec_size(types, rid) == Some(count as nat));
            } else {
                let esz = spec_size(types, element as int).unwrap();
                assert(spec_size(types, rid) == Some((count * esz) as nat));
            }
        },
        _ => {},
    }
}

/// Text-array decode with no zero byte anywhere in the capacity window fails
/// with `MissingTerminator`; on success it returns exactly the bytes before
/// the first zero byte, interpreted as UTF-8 text.
pub proof fn lemma_text_decode(capacity: u32, b: Seq<u8>)
    requires
        b.len() == capacity,
    ensures
        (forall|k: int| 0 <= k < b.len() ==> b[k] != 0) ==> spec_decode_text(capacity, b) == Err::<
            ValueModel,
            CodecError,
        >(CodecError::MissingTerminator),
        spec_decode_text(capacity, b) matches Ok(m) ==> exists|i: int|
            {
                &&& 0 <= i < b.len()
                &&& b[i] == 0
                &&& forall|k: int| 0 <= k < i ==> b[k] != 0
                &&& m == ValueModel::Text(vstd::utf8::decode_utf8(b.subrange(0, i)))
            },
{
    lemma_first_zero_from(b, 0);
    match spec_first_zero(b) {
        Some(i) => {
            if spec_decode_text(capacity, b) is Ok {
                assert({
                    &&& 0 <= i < b.len()
                    &&& b[i] == 0
                    &&& forall|k: int| 0 <= k < i ==> b[k] != 0
                    &&& spec_decode_text(capacity, b) == Ok::<ValueModel, CodecError>(
                        ValueModel::Text(vstd::utf8::decode_utf8(b.subrange(0, i))),
                    )
                });
            }
        },
        None => {},
    }
}

/// Text-array encode fails with `TextTooLong` exactly when the text and its
/// terminator do not fit the capacity; otherwise the output has exactly the
/// capacity's length and is the text's bytes, one zero byte, then zero
/// padding.
pub proof fn lemma_text_encode(capacity: u32, chars: Seq<char>)
    ensures
        spec_encode_text(capacity, chars) is Err <==> vstd::utf8::encode_utf8(chars).len() + 1
            > capacity,
        spec_encode_text(capacity, chars) is Err ==> spec_encode_text(capacity, chars)
            == Err::<Seq<u8>, CodecError>(CodecError::TextTooLong),
        spec_encode_text(capacity, chars) matches Ok(out) ==> {
            let bytes = vstd::utf8::encode_utf8(chars);
            &&& out.len() == capacity
            &&& out.subrange(0, bytes.len() as int) == bytes
            &&& out[bytes.len() as int] == 0
            &&& forall|k: int| bytes.len() < k < out.len() ==> out[k] == 0
        },
{
    let bytes = vstd::utf8::encode_utf8(chars);
    if bytes.len() + 1 <= capacity {
        let out = spec_encode_text(capacity, chars).unwrap();
        assert(out.subrange(0, bytes.len() as int) =~= bytes);
    }
}

/// Enumeration decode fails with `InvalidEnumValue` for any
/// representation-width integer absent from the variant table; enumeration
/// encode of a variant in the table never fails and always returns the
/// declared value at the declared width.
pub proof fn lemma_enum_laws(size: u32, variants: Seq<EnumVariantDef>, b: Seq<u8>, idx: usize)
    requires
        spec_enum_check(size) is None,
    ensures
        (b.len() == size && forall|j: int|
            0 <= j < variants.len() ==> (#[trigger] variants[j]).value != spec_enum_raw(size, b))
            ==> spec_decode_enum(size, variants, b) == Err::<ValueModel, CodecError>(
            CodecError::InvalidEnumValue,
        ),
        idx < variants.len() ==> spec_encode_enum(size, variants, ValueModel::EnumVariant(idx))
            == Ok::<Seq<u8>, CodecError>(spec_enum_value_bytes(size, variants[idx as int].value)),
{
    if b.len() == size && forall|j: int|
        0 <= j < variants.len() ==> (#[trigger] variants[j]).value != spec_enum_raw(size, b) {
        if spec_find_variant(variants, spec_enum_raw(size, b)) is Some {
            lemma_find_variant_in_range(variants, spec_enum_raw(size, b), 0);
        }
    }
}

/// What a value must look like to round-trip through a scalar codec: the
/// shape its type encodes, and — for enumerations — a variant of a table
/// whose values are pairwise distinct and representable at the declared
/// width.
pub open spec fn spec_scalar_value_matches(d: TypeDescriptor, m: ValueModel) -> bool {
    match d {
        TypeDescriptor::Integer { bits, encoding } => spec_int_check(bits, encoding) is None
            && spec_int_value_ok(bits, encoding, m),
        TypeDescriptor::Float { size } => spec_float_check(size) is None && (if size == 4 {
            m is F32Bits
        } else {
            m is F64Bits
        }),
        TypeDescriptor::Pointer { pointee: _ } => m is Pointer,
        TypeDescriptor::Enumeration { name: _, size, variants } => {
            match m {
                ValueModel::EnumVariant(idx) => {
                    &&& spec_enum_check(size) is None
                    &&& idx < variants@.len()
                    &&& spec_enum_values_distinct(variants@)
                    &&& spec_enum_value_fits(size, variants@[idx as int].value)
                },
                _ => false,
            }
        },
        _ => false,
    }
}

/// For every supported integer, float, pointer or enumeration type and every
/// valid value of it, encoding succeeds and decoding the encoded bytes gives
/// the value back.
pub proof fn lemma_scalar_round_trip(types: Seq<TypeDescriptor>, id: int, m: ValueModel, fuel: nat)
    requires
        fuel >= 1,
        spec_resolve(types, id) is Some,
        spec_scalar_value_matches(types[spec_resolve(types, id).unwrap()], m),
    ensures
        spec_encode(types, id, m, fuel) is Ok,
        spec_decode(types, id, spec_encode(types, id, m, fuel).unwrap(), fuel) == Ok::<
            ValueModel,
            CodecError,
        >(m),
{
    vstd::bytes::lemma_auto_spec_u16_to_from_le_bytes();
    vstd::bytes::lemma_auto_spec_u32_to_from_le_bytes();
    vstd::bytes::lemma_auto_spec_u64_to_from_le_bytes();
    vstd::bytes::lemma_auto_spec_u128_to_from_le_bytes();
    lemma_signed_unsigned_casts();
    let rid = spec_resolve(types, id).unwrap();
    lemma_resolve_concrete(types, id, resolve_fuel(types));
    match types[rid] {
        TypeDescriptor::Integer { bits, encoding } => {
            let b = spec_int_bytes(m);
            assert(b.len() == spec_int_size(bits));
            assert(spec_int_value(bits, encoding, b) == m);
        },
        TypeDescriptor::Float { size: _ } => {},
        TypeDescriptor::Pointer { pointee: _ } => {},
        TypeDescriptor::Enumeration { name: _, size, variants } => {
            match m {
                ValueModel::EnumVariant(idx) => {
                    lemma_enum_raw_round_trip(size, variants@, idx as int);
                    lemma_find_distinct(variants@, idx as int, 0);
                },
                _ => {},
            }
        },
        _ => {},
    }
}

// --- the byte-exact round trip ---

/// Whether member `m` covers byte position `i` of its struct.
pub open spec fn spec_member_covers(types: Seq<TypeDescriptor>, m: StructMember, i: int) -> bool {
    match spec_size(types, m.type_id as int) {
        Some(msz) => (m.bit_offset / 8) <= i < (m.bit_offset / 8) + msz,
        None => false,
    }
}

/// Whether any member of the list covers byte position `i`.
pub open spec fn spec_covered(
    types: Seq<TypeDescriptor>,
    members: Seq<StructMember>,
    i: int,
) -> bool {
    exists|j: int| 0 <= j < members.len() && spec_member_covers(types, #[trigger] members[j], i)
}

/// The window of the struct buffer `b` that member `m` occupies.
pub open spec fn spec_member_window(
    types: Seq<TypeDescriptor>,
    m: StructMember,
    b: Seq<u8>,
) -> Seq<u8> {
    match spec_size(types, m.type_id as int) {
        Some(msz) => b.subrange(m.bit_offset as int / 8, m.bit_offset as int / 8 + msz),
        None => Seq::empty(),
    }
}

/// A byte buffer in the codec's own canonical form — what every encoder
/// emits: boolean bytes are 0 or 1, text windows are zero from their
/// terminator on, struct padding is zero, and the same holds inside every
/// member and element window.
pub open spec fn spec_canonical(types: Seq<TypeDescriptor>, id: int, b: Seq<u8>, fuel: nat) -> bool
    decreases fuel, 1int, 0int,
{
    if fuel == 0 {
        true
    } else {
        match spec_resolve(types, id) {
            None => true,
            Some(rid) => match types[rid] {
                TypeDescriptor::Integer { bits: _, encoding } => {
                    encoding is Boolean ==> (b.len() > 0 ==> (b[0] == 0 || b[0] == 1))
                },
                TypeDescriptor::Array { element, count } => {
                    if spec_is_text_element(types, element as int) {
                        match spec_first_zero(b) {
                            Some(i) => forall|k: int| i < k < b.len() ==> b[k] == 0,
                            None => true,
                        }
                    } else {
                        match spec_size(types, element as int) {
                            Some(esz) => spec_canonical_elements(
                                types,
                                element as int,
                                esz,
                                b,
                                count as int,
                                fuel,
                            ),
                            None => true,
                        }
                    }
                },
                TypeDescriptor::Struct { name: _, size: _, members } => {
                    &&& spec_canonical_members(types, members@, b, fuel)
                    &&& forall|i: int|
                        0 <= i < b.len() && !spec_covered(types, members@, i) ==> b[i] == 0
                },
                _ => true,
            },
        }
    }
}

/// Canonical form of the first `n` element windows of an array buffer.
pub open spec fn spec_canonical_elements(
    types: Seq<TypeDescriptor>,
    element: int,
    esz: nat,
    b: Seq<u8>,
    n: int,
    fuel: nat,
) -> bool
    decreases fuel, 0int, n,
{
    if fuel == 0 || n <= 0 {
        true
    } else {
        spec_canonical_elements(types, element, esz, b, n - 1, fuel) && spec_canonical(
            types,
            element,
            b.subrange((n - 1) * esz, n * esz),
            (fuel - 1) as nat,
        )
    }
}

/// Canonical form of every member window of a struct buffer.
pub open spec fn spec_canonical_members(
    types: Seq<TypeDescriptor>,
    members: Seq<StructMember>,
    b: Seq<u8>,
    fuel: nat,
) -> bool
    decreases fuel, 0int, members.len(),
{
    if fuel == 0 || members.len() == 0 {
        true
    } else {
        spec_canonical_members(types, members.drop_last(), b, fuel) && spec_canonical(
            types,
            members.last().type_id as int,
            spec_member_window(types, members.last(), b),
            (fuel - 1) as nat,
        )
    }
}

/// Successful member decoding yields one value per member.
proof fn lemma_decode_members_len(
    types: Seq<TypeDescriptor>,
    members: Seq<StructMember>,
    b: Seq<u8>,
    fuel: nat,
)
    requires
        spec_decode_members(types, members, b, fuel) is Ok,
    ensures
        spec_decode_members(types, members, b, fuel).unwrap().len() == members.len(),
    decreases members.len(),
{
    if members.len() > 0 {
        lemma_decode_members_len(types, members.drop_last(), b, fuel);
    }
}

/// Successful element decoding yields one value per element.
proof fn lemma_decode_elements_len(
    types: Seq<TypeDescriptor>,
    element: int,
    esz: nat,
    b: Seq<u8>,
    n: int,
    fuel: nat,
)
    requires
        n >= 0,
        spec_decode_elements(types, element, esz, b, n, fuel) is Ok,
    ensures
        spec_decode_elements(types, element, esz, b, n, fuel).unwrap().len() == n,
    decreases n,
{
    if n > 0 {
        lemma_decode_elements_len(types, element, esz, b, n - 1, fuel);
    }
}

/// Coverage by a member list splits into coverage by the last member or by
/// the rest.
proof fn lemma_covered_split(types: Seq<TypeDescriptor>, members: Seq<StructMember>, i: int)
    requires
        members.len() > 0,
    ensures
        spec_covered(types, members, i) <==> (spec_covered(types, members.drop_last(), i)
            || spec_member_covers(types, members.last(), i)),
{
    if spec_covered(types, members, i) {
        let j = choose|j: int|
            0 <= j < members.len() && spec_member_covers(types, #[trigger] members[j], i);
        if j < members.len() - 1 {
            assert(members.drop_last()[j] == members[j]);
            assert(spec_covered(types, members.drop_last(), i));
        }
    }
    if spec_covered(types, members.drop_last(), i) {
        let j = choose|j: int|
            0 <= j < members.drop_last().len() && spec_member_covers(
                types,
                #[trigger] members.drop_last()[j],
                i,
            );
        assert(members[j] == members.drop_last()[j]);
        assert(spec_covered(types, members, i));
    }
    if spec_member_covers(types, members.last(), i) {
        assert(spec_covered(types, members, i));
    }
}

/// Bytes outside every member window keep their input value through member
/// encoding.
proof fn lemma_encode_members_padding(
    types: Seq<TypeDescriptor>,
    members: Seq<StructMember>,
    ms: Seq<ValueModel>,
    acc: Seq<u8>,
    fuel: nat,
)
    requires
        spec_encode_members(types, members, ms, acc, fuel) is Ok,
    ensures
        spec_encode_members(types, members, ms, acc, fuel).unwrap().len() == acc.len(),
        forall|i: int|
            0 <= i < acc.len() && !spec_covered(types, members, i) ==> spec_encode_members(
                types,
                members,
                ms,
                acc,
                fuel,
            ).unwrap()[i] == acc[i],
    decreases members.len(),
{
    if members.len() > 0 {
        lemma_encode_members_padding(types, members.drop_last(), ms.drop_last(), acc, fuel);
        let buf = spec_encode_members(
            types,
            members.drop_last(),
            ms.drop_last(),
            acc,
            fuel,
        ).unwrap();
        let out = spec_encode_members(types, members, ms, acc, fuel).unwrap();
        let mem = members.last();
        let off = mem.bit_offset as int / 8;
        let msz = spec_size(types, mem.type_id as int).unwrap() as int;
        let mb = spec_encode(types, mem.type_id as int, ms.last(), (fuel - 1) as nat).unwrap();
        crate::codec::lemma_encode_len(types, mem.type_id as int, ms.last(), (fuel - 1) as nat);
        assert(mb.len() == msz);
        assert(out == spec_write(buf, off, mb));
        assert forall|i: int|
            0 <= i < acc.len() && !spec_covered(types, members, i) implies out[i] == acc[i] by {
            lemma_covered_split(types, members, i);
            assert(!spec_member_covers(types, mem, i));
            assert(!(off <= i < off + msz));
        }
    }
}

/// Struct encode output always has the struct's declared size, and every
/// byte not covered by any member window is zero.
pub proof fn lemma_struct_encode_shape(
    types: Seq<TypeDescriptor>,
    id: int,
    m: ValueModel,
    fuel: nat,
)
    requires
        spec_encode(types, id, m, fuel) is Ok,
        spec_resolve(types, id) is Some,
        types[spec_resolve(types, id).unwrap()] is Struct,
    ensures
        ({
            let out = spec_encode(types, id, m, fuel).unwrap();
            match types[spec_resolve(types, id).unwrap()] {
                TypeDescriptor::Struct { name: _, size, members } => {
                    &&& out.len() == size
                    &&& forall|i: int|
                        0 <= i < out.len() && !spec_covered(types, members@, i) ==> out[i] == 0
                },
                _ => true,
            }
        }),
{
    let rid = spec_resolve(types, id).unwrap();
    lemma_resolve_concrete(types, id, resolve_fuel(types));
    match types[rid] {
        TypeDescriptor::Struct { name: _, size, members } => {
            match m {
                ValueModel::Struct(ms) => {
                    let out = spec_encode(types, id, m, fuel).unwrap();
                    assert(out == spec_encode_members(
                        types,
                        members@,
                        ms,
                        zeros(size as nat),
                        fuel,
                    ).unwrap());
                    lemma_encode_members_padding(types, members@, ms, zeros(size as nat), fuel);
                    assert forall|i: int|
                        0 <= i < out.len() && !spec_covered(types, members@, i) implies out[i]
                        == 0 by {
                        assert(out[i] == zeros(size as nat)[i]);
                    }
                },
                _ => {},
            }
        },
        _ => {},
    }
}

/// Chaining a truncating cast with a sign extension back to the original
/// width is the identity, at every enumeration width.
proof fn lemma_unsigned_chain_casts()
    ensures
        forall|u: u8| #![trigger ((u as i8) as i64) as u8] (((u as i8) as i64) as u8) == u,
        forall|u: u16| #![trigger ((u as i16) as i64) as u16] (((u as i16) as i64) as u16) == u,
        forall|u: u32| #![trigger ((u as i32) as i64) as u32] (((u as i32) as i64) as u32) == u,
{
    assert forall|u: u8| #![trigger ((u as i8) as i64) as u8] (((u as i8) as i64) as u8) == u by {
        assert((((u as i8) as i64) as u8) == u) by (bit_vector);
    }
    assert forall|u: u16| #![trigger ((u as i16) as i64) as u16] (((u as i16) as i64) as u16)
        == u by {
        assert((((u as i16) as i64) as u16) == u) by (bit_vector);
    }
    assert forall|u: u32| #![trigger ((u as i32) as i64) as u32] (((u as i32) as i64) as u32)
        == u by {
        assert((((u as i32) as i64) as u32) == u) by (bit_vector);
    }
}

/// Decoding a canonical buffer and re-encoding the decoded value reproduces
/// the buffer byte for byte, for every kind of type.
pub proof fn lemma_encode_decode_identity(
    types: Seq<TypeDescriptor>,
    id: int,
    b: Seq<u8>,
    fuel: nat,
)
    requires
        spec_decode(types, id, b, fuel) is Ok,
        spec_canonical(types, id, b, fuel),
    ensures
        spec_encode(types, id, spec_decode(types, id, b, fuel).unwrap(), fuel) == Ok::<
            Seq<u8>,
            CodecError,
        >(b),
    decreases fuel, 1int, 0int,
{
    vstd::bytes::lemma_auto_spec_u16_to_from_le_bytes();
    vstd::bytes::lemma_auto_spec_u32_to_from_le_bytes();
    vstd::bytes::lemma_auto_spec_u64_to_from_le_bytes();
    vstd::bytes::lemma_auto_spec_u128_to_from_le_bytes();
    lemma_signed_unsigned_casts();
    lemma_unsigned_chain_casts();
    let rid = spec_resolve(types, id).unwrap();
    lemma_resolve_concrete(types, id, resolve_fuel(types));
    let m = spec_decode(types, id, b, fuel).unwrap();
    match types[rid] {
        TypeDescriptor::Integer { bits, encoding } => {
            assert(spec_int_bytes(m) =~= b);
            assert(spec_encode(types, id, m, fuel) == Ok::<Seq<u8>, CodecError>(b));
        },
        TypeDescriptor::Float { size: _ } => {
            assert(spec_encode(types, id, m, fuel) == Ok::<Seq<u8>, CodecError>(b));
        },
        TypeDescriptor::Pointer { pointee: _ } => {
            assert(spec_encode(types, id, m, fuel) == Ok::<Seq<u8>, CodecError>(b));
        },
        TypeDescriptor::Enumeration { name: _, size, variants } => {
            let raw = spec_enum_raw(size, b);
            lemma_find_variant_in_range(variants@, raw, 0);
            let idx = spec_find_variant(variants@, raw).unwrap();
            assert(vstd::std_specs::vec::spec_vec_len(&variants) == variants@.len());
            assert(idx as usize == idx);
            assert(spec_enum_value_bytes(size, raw) =~= b);
            assert(spec_encode(types, id, m, fuel) == Ok::<Seq<u8>, CodecError>(b));
        },
        TypeDescriptor::Array { element, count } => {
            if spec_is_text_element(types, element as int) {
                broadcast use vstd::utf8::decode_utf8_encode_utf8;

                lemma_first_zero_from(b, 0);
                let i = spec_first_zero(b).unwrap();
                let prefix = b.subrange(0, i);
                let chars = vstd::utf8::decode_utf8(prefix);
                assert(vstd::utf8::encode_utf8(chars) == prefix);
                assert(spec_encode_text(count, chars).unwrap() =~= b);
                assert(spec_encode(types, id, m, fuel) == Ok::<Seq<u8>, CodecError>(b));
            } else {
                let esz = spec_size(types, element as int).unwrap();
                assert(b.len() == count * esz);
                assert(spec_canonical_elements(types, element as int, esz, b, count as int, fuel));
                lemma_decode_elements_len(types, element as int, esz, b, count as int, fuel);
                lemma_round_trip_elements(types, element as int, esz, b, count as int, fuel);
                assert(b.subrange(0, count as int * esz as int) =~= b);
                assert(spec_encode(types, id, m, fuel) == Ok::<Seq<u8>, CodecError>(b));
            }
        },
        TypeDescriptor::Struct { name: _, size, members } => {
            lemma_decode_members_len(types, members@, b, fuel);
            let ms = spec_decode_members(types, members@, b, fuel).unwrap();
            assert(b.len() == size);
            assert(spec_canonical_members(types, members@, b, fuel));
            lemma_round_trip_members(types, members@, b, zeros(size as nat), fuel);
            let out = spec_encode_members(types, members@, ms, zeros(size as nat), fuel).unwrap();
            assert forall|i: int| 0 <= i < b.len() implies out[i] == b[i] by {
                if !spec_covered(types, members@, i) {
                    assert(b[i] == 0);
                    assert(out[i] == zeros(size as nat)[i]);
                }
            }
            assert(out =~= b);
            assert(spec_encode(types, id, m, fuel) == Ok::<Seq<u8>, CodecError>(b));
        },
        _ => {},
    }
}

/// Re-encoding the values decoded from the first `n` element windows of a
/// canonical array buffer reproduces exactly those windows.
proof fn lemma_round_trip_elements(
    types: Seq<TypeDescriptor>,
    element: int,
    esz: nat,
    b: Seq<u8>,
    n: int,
    fuel: nat,
)
    requires
        0 <= n,
        fuel >= 1,
        spec_size(types, element) == Some(esz),
        n * esz <= b.len(),
        spec_decode_elements(types, element, esz, b, n, fuel) is Ok,
        spec_canonical_elements(types, element, esz, b, n, fuel),
    ensures
        spec_encode_elements(
            types,
            element,
            spec_decode_elements(types, element, esz, b, n, fuel).unwrap(),
            fuel,
        ) == Ok::<Seq<u8>, CodecError>(b.subrange(0, n * esz)),
    decreases fuel, 0int, n,
{
    let ms = spec_decode_elements(types, element, esz, b, n, fuel).unwrap();
    if n == 0 {
        assert(b.subrange(0, 0) =~= Seq::<u8>::empty());
        assert(ms == Seq::<ValueModel>::empty());
        assert(spec_encode_elements(types, element, ms, fuel) == Ok::<Seq<u8>, CodecError>(
            Seq::<u8>::empty(),
        ));
        vstd::arithmetic::mul::lemma_mul_basics(esz as int);
        assert(n * esz == 0);
        assert(spec_encode_elements(types, element, ms, fuel) == Ok::<Seq<u8>, CodecError>(
            b.subrange(0, n * esz),
        ));
    } else {
        lemma_decode_elements_len(types, element, esz, b, n, fuel);
        let ms_pre = spec_decode_elements(types, element, esz, b, n - 1, fuel).unwrap();
        let window = b.subrange((n - 1) * esz, n * esz);
        assert((n - 1) * esz <= n * esz) by (nonlinear_arith)
            requires
                n >= 1,
                esz >= 0,
        ;
        lemma_round_trip_elements(types, element, esz, b, n - 1, fuel);
        lemma_encode_decode_identity(types, element, window, (fuel - 1) as nat);
        assert(ms.drop_last() =~= ms_pre);
        assert(ms.last() == spec_decode(types, element, window, (fuel - 1) as nat).unwrap());
        assert(spec_encode_elements(types, element, ms.drop_last(), fuel) == Ok::<
            Seq<u8>,
            CodecError,
        >(b.subrange(0, (n - 1) * esz)));
        assert(spec_encode(types, element, ms.last(), (fuel - 1) as nat) == Ok::<
            Seq<u8>,
            CodecError,
        >(window));
        assert(spec_encode_elements(types, element, ms, fuel) == Ok::<Seq<u8>, CodecError>(
            b.subrange(0, (n - 1) * esz) + window,
        ));
        assert(b.subrange(0, (n - 1) * esz) + window =~= b.subrange(0, n * esz));
        assert(spec_encode_elements(types, element, ms, fuel) == Ok::<Seq<u8>, CodecError>(
            b.subrange(0, n * esz),
        ));
    }
}

/// Re-encoding the values decoded from a canonical struct buffer writes
/// every member window back byte for byte, leaving the rest of the buffer
/// as given.
proof fn lemma_round_trip_members(
    types: Seq<TypeDescriptor>,
    members: Seq<StructMember>,
    b: Seq<u8>,
    acc: Seq<u8>,
    fuel: nat,
)
    requires
        fuel >= 1,
        acc.len() == b.len(),
        spec_decode_members(types, members, b, fuel) is Ok,
        spec_canonical_members(types, members, b, fuel),
    ensures
        ({
            let r = spec_encode_members(
                types,
                members,
                spec_decode_members(types, members, b, fuel).unwrap(),
                acc,
                fuel,
            );
            &&& r is Ok
            &&& r.unwrap().len() == acc.len()
            &&& forall|i: int|
                0 <= i < acc.len() ==> r.unwrap()[i] == if spec_covered(types, members, i) {
                    b[i]
                } else {
                    acc[i]
                }
        }),
    decreases fuel, 0int, members.len(),
{
    let ms = spec_decode_members(types, members, b, fuel).unwrap();
    if members.len() == 0 {
    } else {
        lemma_decode_members_len(types, members, b, fuel);
        let ms_pre = spec_decode_members(types, members.drop_last(), b, fuel).unwrap();
        let mem = members.last();
        let off = mem.bit_offset as int / 8;
        let msz = spec_size(types, mem.type_id as int).unwrap() as int;
        let window = b.subrange(off, off + msz);
        lemma_round_trip_members(types, members.drop_last(), b, acc, fuel);
        assert(spec_member_window(types, mem, b) == window);
        lemma_encode_decode_identity(types, mem.type_id as int, window, (fuel - 1) as nat);
        assert(ms.drop_last() =~= ms_pre);
        assert(ms.last() == spec_decode(types, mem.type_id as int, window, (fuel - 1) as nat)
            .unwrap());
        let buf = spec_encode_members(types, members.drop_last(), ms_pre, acc, fuel).unwrap();
        let out = spec_encode_members(types, members, ms, acc, fuel).unwrap();
        assert(out == spec_write(buf, off, window));
        assert forall|i: int|
            0 <= i < acc.len() implies out[i] == if spec_covered(types, members, i) {
            b[i]
        } else {
            acc[i]
        } by {
            lemma_covered_split(types, members, i);
            if off <= i < off + msz {
                assert(out[i] == window[i - off]);
                assert(window[i - off] == b[i]);
                assert(spec_member_covers(types, mem, i));
            }
        }
    }
}

} // verus!
