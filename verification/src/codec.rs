//! The type-directed codecs themselves: decoding bytes into values and
//! encoding values back into bytes, driven by the type graph.
//!
//! The specification functions here are the reference semantics of every
//! generated codec; the executable `decode` and `encode` are proved to
//! follow them exactly, error for error and byte for byte.

use vstd::prelude::*;
use vstd::slice::slice_subrange;

use crate::error::CodecError;
use crate::resolve::{lemma_resolve_concrete, resolve_fuel, resolve_qualifiers, spec_resolve};
use crate::scalar::{
    decode_enum, decode_float, decode_integer, decode_pointer, encode_enum, encode_float,
    encode_integer, encode_pointer, spec_decode_enum, spec_decode_float, spec_decode_integer,
    spec_decode_pointer, spec_encode_enum, spec_encode_float, spec_encode_integer,
    spec_encode_pointer,
};
use crate::sizes::{size_of, spec_size};
use crate::text::{decode_text, encode_text, spec_decode_text, spec_encode_text_value, zeros};
use crate::types::{
    decode_result_matches, encode_result_matches, lemma_model_seq, lemma_model_seq_push,
    model_seq, IntEncoding, StructMember, TypeCatalog, TypeDescriptor, Value, ValueModel,
};

verus! {

broadcast use vstd::std_specs::vec::group_vec_axioms;

/// Whether an array over this element type is a text field: the element is
/// an 8-bit character code unit. The element descriptor is inspected
/// directly, without qualifier resolution.
pub open spec fn spec_is_text_element(types: Seq<TypeDescriptor>, element: int) -> bool {
    0 <= element < types.len() && match types[element] {
        TypeDescriptor::Integer { bits, encoding } => bits == 8 && encoding is Char,
        _ => false,
    }
}

/// Whether every member of a struct sits on whole bytes, offset and width.
pub open spec fn spec_members_aligned(members: Seq<StructMember>) -> bool {
    forall|j: int|
        0 <= j < members.len() ==> (#[trigger] members[j]).bit_offset % 8 == 0
            && members[j].bit_size % 8 == 0
}

/// Recursion budget enough to decode any acyclic type: nesting can pass
/// through each descriptor at most once.
pub open spec fn codec_fuel(types: Seq<TypeDescriptor>) -> nat {
    if types.len() < usize::MAX {
        types.len() + 1
    } else {
        usize::MAX as nat
    }
}

/// What decoding type `id` from the byte window `b` yields, with recursion
/// budget `fuel`.
///
/// The type's own validation errors come first, then the exact-length check,
/// then the content. A reference to a type with no codec, a dangling id, a
/// qualifier cycle, or a member window outside its struct all surface as
/// `MalformedTypeGraph`.
pub open spec fn spec_decode(types: Seq<TypeDescriptor>, id: int, b: Seq<u8>, fuel: nat) -> Result<
    ValueModel,
    CodecError,
>
    decreases fuel, 2int, 0int,
{
    if fuel == 0 {
        Err(CodecError::MalformedTypeGraph)
    } else {
        match spec_resolve(types, id) {
            None => Err(CodecError::MalformedTypeGraph),
            Some(rid) => match types[rid] {
                TypeDescriptor::Integer { bits, encoding } => spec_decode_integer(
                    bits,
                    encoding,
                    b,
                ),
                TypeDescriptor::Float { size } => spec_decode_float(size, b),
                TypeDescriptor::Pointer { pointee: _ } => spec_decode_pointer(b),
                TypeDescriptor::Enumeration { name: _, size, variants } => spec_decode_enum(
                    size,
                    variants@,
                    b,
                ),
                TypeDescriptor::Array { element, count } => spec_decode_array(
                    types,
                    element as int,
                    count,
                    b,
                    fuel,
                ),
                TypeDescriptor::Struct { name: _, size, members } => spec_decode_struct(
                    types,
                    size,
                    members@,
                    b,
                    fuel,
                ),
                _ => Err(CodecError::MalformedTypeGraph),
            },
        }
    }
}

/// What decoding an array yields: a text field when the element is a
/// character code unit, otherwise `count` contiguous element windows, each
/// sized by the element type, decoded in order.
pub open spec fn spec_decode_array(
    types: Seq<TypeDescriptor>,
    element: int,
    count: u32,
    b: Seq<u8>,
    fuel: nat,
) -> Result<ValueModel, CodecError>
    decreases fuel, 1int, 0int,
{
    if spec_is_text_element(types, element) {
        spec_decode_text(count, b)
    } else {
        match spec_size(types, element) {
            None => Err(CodecError::MalformedTypeGraph),
            Some(esz) => {
                if b.len() != count * esz {
                    Err(CodecError::LengthMismatch)
                } else {
                    match spec_decode_elements(types, element, esz, b, count as int, fuel) {
                        Ok(ms) => Ok(ValueModel::Array(ms)),
                        Err(e) => Err(e),
                    }
                }
            },
        }
    }
}

/// What decoding the first `n` elements of an array yields: element `k`
/// reads the window `[k*esz, (k+1)*esz)` of the array's bytes, in order,
/// and the first failure wins.
pub open spec fn spec_decode_elements(
    types: Seq<TypeDescriptor>,
    element: int,
    esz: nat,
    b: Seq<u8>,
    n: int,
    fuel: nat,
) -> Result<Seq<ValueModel>, CodecError>
    decreases fuel, 0int, n,
{
    if n <= 0 {
        Ok(Seq::empty())
    } else {
        match spec_decode_elements(types, element, esz, b, n - 1, fuel) {
            Err(e) => Err(e),
            Ok(ms) => {
                if fuel == 0 {
                    Err(CodecError::MalformedTypeGraph)
                } else {
                    match spec_decode(
                        types,
                        element,
                        b.subrange((n - 1) * esz, n * esz),
                        (fuel - 1) as nat,
                    ) {
                        Err(e) => Err(e),
                        Ok(v) => Ok(ms.push(v)),
                    }
                }
            },
        }
    }
}

/// What decoding a struct yields: after the whole-byte alignment check and
/// the exact-length check, every member window decoded in declaration order.
pub open spec fn spec_decode_struct(
    types: Seq<TypeDescriptor>,
    size: u32,
    members: Seq<StructMember>,
    b: Seq<u8>,
    fuel: nat,
) -> Result<ValueModel, CodecError>
    decreases fuel, 1int, 0int,
{
    if !spec_members_aligned(members) {
        Err(CodecError::UnsupportedBitfield)
    } else if b.len() != size {
        Err(CodecError::LengthMismatch)
    } else {
        match spec_decode_members(types, members, b, fuel) {
            Ok(ms) => Ok(ValueModel::Struct(ms)),
            Err(e) => Err(e),
        }
    }
}

/// What decoding a struct's members yields: each member reads the window
/// `[offset, offset+size)` of the struct's bytes, in declaration order, and
/// the first failure wins. The member's size comes from its original,
/// possibly qualified, type id; its codec from the resolved one.
pub open spec fn spec_decode_members(
    types: Seq<TypeDescriptor>,
    members: Seq<StructMember>,
    b: Seq<u8>,
    fuel: nat,
) -> Result<Seq<ValueModel>, CodecError>
    decreases fuel, 0int, members.len(),
{
    if members.len() == 0 {
        Ok(Seq::empty())
    } else {
        match spec_decode_members(types, members.drop_last(), b, fuel) {
            Err(e) => Err(e),
            Ok(ms) => {
                let m = members.last();
                let off = (m.bit_offset / 8) as int;
                match spec_size(types, m.type_id as int) {
                    None => Err(CodecError::MalformedTypeGraph),
                    Some(msz) => {
                        if off + msz > b.len() {
                            Err(CodecError::MalformedTypeGraph)
                        } else if fuel == 0 {
                            Err(CodecError::MalformedTypeGraph)
                        } else {
                            match spec_decode(
                                types,
                                m.type_id as int,
                                b.subrange(off, off + msz),
                                (fuel - 1) as nat,
                            ) {
                                Err(e) => Err(e),
                                Ok(v) => Ok(ms.push(v)),
                            }
                        }
                    },
                }
            },
        }
    }
}

/// `buf` with `bytes` written at `off`, every other byte unchanged.
pub open spec fn spec_write(buf: Seq<u8>, off: int, bytes: Seq<u8>) -> Seq<u8> {
    Seq::new(
        buf.len(),
        |i: int|
            if off <= i < off + bytes.len() {
                bytes[i - off]
            } else {
                buf[i]
            },
    )
}

/// What encoding value `m` against type `id` yields, with recursion budget
/// `fuel`.
///
/// A value whose shape does not match the type cannot arise from a decoded
/// value; it reports the graph as malformed rather than inventing bytes.
pub open spec fn spec_encode(
    types: Seq<TypeDescriptor>,
    id: int,
    m: ValueModel,
    fuel: nat,
) -> Result<Seq<u8>, CodecError>
    decreases fuel, 2int, 0int,
{
    if fuel == 0 {
        Err(CodecError::MalformedTypeGraph)
    } else {
        match spec_resolve(types, id) {
            None => Err(CodecError::MalformedTypeGraph),
            Some(rid) => match types[rid] {
                TypeDescriptor::Integer { bits, encoding } => spec_encode_integer(
                    bits,
                    encoding,
                    m,
                ),
                TypeDescriptor::Float { size } => spec_encode_float(size, m),
                TypeDescriptor::Pointer { pointee: _ } => spec_encode_pointer(m),
                TypeDescriptor::Enumeration { name: _, size, variants } => spec_encode_enum(
                    size,
                    variants@,
                    m,
                ),
                TypeDescriptor::Array { element, count } => spec_encode_array(
                    types,
                    element as int,
                    count,
                    m,
                    fuel,
                ),
                TypeDescriptor::Struct { name: _, size, members } => spec_encode_struct(
                    types,
                    size,
                    members@,
                    m,
                    fuel,
                ),
                _ => Err(CodecError::MalformedTypeGraph),
            },
        }
    }
}

/// What encoding an array yields: a text field when the element is a
/// character code unit, otherwise each element's bytes concatenated in
/// order.
pub open spec fn spec_encode_array(
    types: Seq<TypeDescriptor>,
    element: int,
    count: u32,
    m: ValueModel,
    fuel: nat,
) -> Result<Seq<u8>, CodecError>
    decreases fuel, 1int, 0int,
{
    if spec_is_text_element(types, element) {
        spec_encode_text_value(count, m)
    } else {
        match m {
            ValueModel::Array(ms) => {
                if ms.len() != count {
                    Err(CodecError::MalformedTypeGraph)
                } else {
                    spec_encode_elements(types, element, ms, fuel)
                }
            },
            _ => Err(CodecError::MalformedTypeGraph),
        }
    }
}

/// What encoding a sequence of array elements yields: each element's bytes,
/// concatenated in order, and the first failure wins.
pub open spec fn spec_encode_elements(
    types: Seq<TypeDescriptor>,
    element: int,
    ms: Seq<ValueModel>,
    fuel: nat,
) -> Result<Seq<u8>, CodecError>
    decreases fuel, 0int, ms.len(),
{
    if ms.len() == 0 {
        Ok(Seq::empty())
    } else {
        match spec_encode_elements(types, element, ms.drop_last(), fuel) {
            Err(e) => Err(e),
            Ok(bs) => {
                if fuel == 0 {
                    Err(CodecError::MalformedTypeGraph)
                } else {
                    match spec_encode(types, element, ms.last(), (fuel - 1) as nat) {
                        Err(e) => Err(e),
                        Ok(eb) => Ok(bs + eb),
                    }
                }
            },
        }
    }
}

/// What encoding a struct yields: a zero-filled buffer of the declared size
/// with every member's bytes written at its window, so that bytes not
/// covered by any member stay zero.
pub open spec fn spec_encode_struct(
    types: Seq<TypeDescriptor>,
    size: u32,
    members: Seq<StructMember>,
    m: ValueModel,
    fuel: nat,
) -> Result<Seq<u8>, CodecError>
    decreases fuel, 1int, 0int,
{
    if !spec_members_aligned(members) {
        Err(CodecError::UnsupportedBitfield)
    } else {
        match m {
            ValueModel::Struct(ms) => {
                if ms.len() != members.len() {
                    Err(CodecError::MalformedTypeGraph)
                } else {
                    spec_encode_members(types, members, ms, zeros(size as nat), fuel)
                }
            },
            _ => Err(CodecError::MalformedTypeGraph),
        }
    }
}

/// What encoding a struct's members into the buffer `acc` yields: each
/// member's bytes written at its window, in declaration order, every byte
/// outside the windows left as it was in `acc`.
pub open spec fn spec_encode_members(
    types: Seq<TypeDescriptor>,
    members: Seq<StructMember>,
    ms: Seq<ValueModel>,
    acc: Seq<u8>,
    fuel: nat,
) -> Result<Seq<u8>, CodecError>
    decreases fuel, 0int, members.len(),
{
    if members.len() == 0 {
        Ok(acc)
    } else {
        match spec_encode_members(types, members.drop_last(), ms.drop_last(), acc, fuel) {
            Err(e) => Err(e),
            Ok(buf) => {
                let mem = members.last();
                let off = (mem.bit_offset / 8) as int;
                match spec_size(types, mem.type_id as int) {
                    None => Err(CodecError::MalformedTypeGraph),
                    Some(msz) => {
                        if off + msz > buf.len() {
                            Err(CodecError::MalformedTypeGraph)
                        } else if fuel == 0 {
                            Err(CodecError::MalformedTypeGraph)
                        } else {
                            match spec_encode(
                                types,
                                mem.type_id as int,
                                ms.last(),
                                (fuel - 1) as nat,
                            ) {
                                Err(e) => Err(e),
                                Ok(mb) => Ok(spec_write(buf, off, mb)),
                            }
                        }
                    },
                }
            },
        }
    }
}

/// Once a prefix of the members fails to decode, the whole member list fails
/// the same way.
proof fn lemma_decode_members_prefix_err(
    types: Seq<TypeDescriptor>,
    members: Seq<StructMember>,
    b: Seq<u8>,
    fuel: nat,
    j: int,
)
    requires
        0 <= j <= members.len(),
        spec_decode_members(types, members.take(j), b, fuel) is Err,
    ensures
        spec_decode_members(types, members, b, fuel) == spec_decode_members(
            types,
            members.take(j),
            b,
            fuel,
        ),
    decreases members.len() - j,
{
    if j == members.len() {
        assert(members.take(j) =~= members);
    } else {
        assert(members.take(j + 1).drop_last() =~= members.take(j));
        lemma_decode_members_prefix_err(types, members, b, fuel, j + 1);
    }
}

/// Once a prefix of the elements fails to decode, decoding any longer run of
/// elements fails the same way.
proof fn lemma_decode_elements_prefix_err(
    types: Seq<TypeDescriptor>,
    element: int,
    esz: nat,
    b: Seq<u8>,
    fuel: nat,
    j: int,
    n: int,
)
    requires
        0 <= j <= n,
        spec_decode_elements(types, element, esz, b, j, fuel) is Err,
    ensures
        spec_decode_elements(types, element, esz, b, n, fuel) == spec_decode_elements(
            types,
            element,
            esz,
            b,
            j,
            fuel,
        ),
    decreases n - j,
{
    if j < n {
        lemma_decode_elements_prefix_err(types, element, esz, b, fuel, j + 1, n);
    }
}

/// Decodes an array type from the window `[lo, hi)` of `b`.
#[verifier::loop_isolation(false)]
fn decode_array_steps(
    catalog: &TypeCatalog,
    element: u32,
    count: u32,
    b: &[u8],
    lo: usize,
    hi: usize,
    fuel: usize,
) -> (r: Result<Value, CodecError>)
    requires
        lo <= hi <= b@.len(),
        fuel >= 1,
    ensures
        decode_result_matches(
            r,
            spec_decode_array(
                catalog@,
                element as int,
                count,
                b@.subrange(lo as int, hi as int),
                fuel as nat,
            ),
        ),
    decreases fuel, 0int,
{
    let ghost bw: Seq<u8> = b@.subrange(lo as int, hi as int);
    let is_text: bool = match catalog.get(element) {
        Some(ed) => match ed {
            TypeDescriptor::Integer { bits, encoding } => *bits == 8 && match encoding {
                IntEncoding::Char => true,
                _ => false,
            },
            _ => false,
        },
        None => false,
    };
    if is_text {
        return decode_text(count, slice_subrange(b, lo, hi));
    }
    let esz: usize = match size_of(catalog, element) {
        Ok(n) => n,
        Err(e) => {
            return Err(e);
        },
    };
    let total: usize = match (count as usize).checked_mul(esz) {
        Some(t) => t,
        None => {
            return Err(CodecError::LengthMismatch);
        },
    };
    if hi - lo != total {
        return Err(CodecError::LengthMismatch);
    }
    let mut vals: Vec<Value> = Vec::new();
    let mut i: usize = 0;
    while i < count as usize
        invariant
            i <= count as usize,
            vals@.len() == i,
            spec_decode_elements(catalog@, element as int, esz as nat, bw, i as int, fuel as nat)
                == Ok::<Seq<ValueModel>, CodecError>(model_seq(vals@)),
        decreases count as int - i,
    {
        proof {
            vstd::arithmetic::mul::lemma_mul_inequality(i as int + 1, count as int, esz as int);
            vstd::arithmetic::mul::lemma_mul_is_distributive_add_other_way(
                esz as int,
                i as int,
                1int,
            );
        }
        let s: usize = lo + i * esz;
        let e2: usize = s + esz;
        let r = decode_steps(catalog, element, b, s, e2, fuel - 1);
        proof {
            assert(bw.subrange(i as int * esz as int, (i as int + 1) * esz as int) =~= b@.subrange(
                s as int,
                e2 as int,
            ));
        }
        match r {
            Err(e) => {
                proof {
                    lemma_decode_elements_prefix_err(
                        catalog@,
                        element as int,
                        esz as nat,
                        bw,
                        fuel as nat,
                        i as int + 1,
                        count as int,
                    );
                }
                return Err(e);
            },
            Ok(v) => {
                proof {
                    lemma_model_seq_push(vals@, v);
                }
                vals.push(v);
            },
        }
        i = i + 1;
    }
    Ok(Value::Array(vals))
}

/// Decodes a struct type from the window `[lo, hi)` of `b`.
#[verifier::loop_isolation(false)]
fn decode_struct_steps(
    catalog: &TypeCatalog,
    size: u32,
    members: &Vec<StructMember>,
    b: &[u8],
    lo: usize,
    hi: usize,
    fuel: usize,
) -> (r: Result<Value, CodecError>)
    requires
        lo <= hi <= b@.len(),
        fuel >= 1,
    ensures
        decode_result_matches(
            r,
            spec_decode_struct(
                catalog@,
                size,
                members@,
                b@.subrange(lo as int, hi as int),
                fuel as nat,
            ),
        ),
    decreases fuel, 0int,
{
    let ghost bw: Seq<u8> = b@.subrange(lo as int, hi as int);
    let mut j: usize = 0;
    while j < members.len()
        invariant
            j <= members@.len(),
            forall|k: int|
                0 <= k < j ==> (#[trigger] members@[k]).bit_offset % 8 == 0 && members@[k].bit_size
                    % 8 == 0,
        decreases members@.len() - j,
    {
        let mem = &members[j];
        if mem.bit_offset % 8 != 0 || mem.bit_size % 8 != 0 {
            return Err(CodecError::UnsupportedBitfield);
        }
        j = j + 1;
    }
    if hi - lo != size as usize {
        return Err(CodecError::LengthMismatch);
    }
    let mut vals: Vec<Value> = Vec::new();
    let mut i: usize = 0;
    while i < members.len()
        invariant
            i <= members@.len(),
            vals@.len() == i,
            spec_decode_members(catalog@, members@.take(i as int), bw, fuel as nat) == Ok::<
                Seq<ValueModel>,
                CodecError,
            >(model_seq(vals@)),
        decreases members@.len() - i,
    {
        proof {
            assert(members@.take(i as int + 1).drop_last() =~= members@.take(i as int));
            assert(members@.take(i as int + 1).last() == members@[i as int]);
        }
        let mem = &members[i];
        let off: usize = (mem.bit_offset / 8) as usize;
        let msz: usize = match size_of(catalog, mem.type_id) {
            Ok(n) => n,
            Err(e) => {
                proof {
                    lemma_decode_members_prefix_err(catalog@, members@, bw, fuel as nat, i as int
                        + 1);
                }
                return Err(e);
            },
        };
        if msz > hi - lo || off > (hi - lo) - msz {
            proof {
                lemma_decode_members_prefix_err(catalog@, members@, bw, fuel as nat, i as int + 1);
            }
            return Err(CodecError::MalformedTypeGraph);
        }
        let s: usize = lo + off;
        let e2: usize = s + msz;
        let r = decode_steps(catalog, mem.type_id, b, s, e2, fuel - 1);
        proof {
            assert(bw.subrange(off as int, off as int + msz as int) =~= b@.subrange(
                s as int,
                e2 as int,
            ));
        }
        match r {
            Err(e) => {
                proof {
                    lemma_decode_members_prefix_err(catalog@, members@, bw, fuel as nat, i as int
                        + 1);
                }
                return Err(e);
            },
            Ok(v) => {
                proof {
                    lemma_model_seq_push(vals@, v);
                }
                vals.push(v);
            },
        }
        i = i + 1;
    }
    proof {
        assert(members@.take(members@.len() as int) =~= members@);
    }
    Ok(Value::Struct(vals))
}

/// Decodes type `ty_id` from the window `[lo, hi)` of `b`, with recursion
/// budget `fuel`.
fn decode_steps(
    catalog: &TypeCatalog,
    ty_id: u32,
    b: &[u8],
    lo: usize,
    hi: usize,
    fuel: usize,
) -> (r: Result<Value, CodecError>)
    requires
        lo <= hi <= b@.len(),
    ensures
        decode_result_matches(
            r,
            spec_decode(catalog@, ty_id as int, b@.subrange(lo as int, hi as int), fuel as nat),
        ),
    decreases fuel, 1int,
{
    if fuel == 0 {
        return Err(CodecError::MalformedTypeGraph);
    }
    let rid: u32 = match resolve_qualifiers(catalog, ty_id) {
        Ok(r) => r,
        Err(e) => {
            return Err(e);
        },
    };
    proof {
        lemma_resolve_concrete(catalog@, ty_id as int, resolve_fuel(catalog@));
    }
    let d: &TypeDescriptor = match catalog.get(rid) {
        Some(d) => d,
        None => {
            return Err(CodecError::MalformedTypeGraph);
        },
    };
    match d {
        TypeDescriptor::Integer { bits, encoding } => decode_integer(
            *bits,
            *encoding,
            slice_subrange(b, lo, hi),
        ),
        TypeDescriptor::Float { size } => decode_float(*size, slice_subrange(b, lo, hi)),
        TypeDescriptor::Pointer { pointee: _ } => decode_pointer(slice_subrange(b, lo, hi)),
        TypeDescriptor::Enumeration { name: _, size, variants } => decode_enum(
            *size,
            variants,
            slice_subrange(b, lo, hi),
        ),
        TypeDescriptor::Array { element, count } => decode_array_steps(
            catalog,
            *element,
            *count,
            b,
            lo,
            hi,
            fuel,
        ),
        TypeDescriptor::Struct { name: _, size, members } => decode_struct_steps(
            catalog,
            *size,
            members,
            b,
            lo,
            hi,
            fuel,
        ),
        TypeDescriptor::Qualifier { kind: _, target: _ } => Err(CodecError::MalformedTypeGraph),
        TypeDescriptor::Other => Err(CodecError::MalformedTypeGraph),
    }
}

/// Encoded bytes always have the type's declared size, whenever the graph
/// assigns one.
pub proof fn lemma_encode_len(types: Seq<TypeDescriptor>, id: int, m: ValueModel, fuel: nat)
    requires
        spec_encode(types, id, m, fuel) is Ok,
        spec_size(types, id) is Some,
    ensures
        spec_encode(types, id, m, fuel).unwrap().len() == spec_size(types, id).unwrap(),
    decreases fuel, 2int, 0int,
{
    vstd::bytes::lemma_auto_spec_u16_to_from_le_bytes();
    vstd::bytes::lemma_auto_spec_u32_to_from_le_bytes();
    vstd::bytes::lemma_auto_spec_u64_to_from_le_bytes();
    vstd::bytes::lemma_auto_spec_u128_to_from_le_bytes();
    let rid = spec_resolve(types, id).unwrap();
    lemma_resolve_concrete(types, id, resolve_fuel(types));
    crate::sizes::lemma_size_at_resolved(types, id, resolve_fuel(types));
    match types[rid] {
        TypeDescriptor::Array { element, count } => {
            if spec_is_text_element(types, element as int) {
                vstd::arithmetic::mul::lemma_mul_basics(count as int);
            } else {
                crate::sizes::lemma_size_fuel_mono(
                    types,
                    element as int,
                    (crate::sizes::size_fuel(types) - 1) as nat,
                    crate::sizes::size_fuel(types),
                );
                match m {
                    ValueModel::Array(ms) => {
                        lemma_encode_elements_len(types, element as int, ms, fuel);
                    },
                    _ => {},
                }
            }
        },
        TypeDescriptor::Struct { name: _, size, members } => {
            match m {
                ValueModel::Struct(ms) => {
                    lemma_encode_members_len(types, members@, ms, zeros(size as nat), fuel);
                },
                _ => {},
            }
        },
        _ => {},
    }
}

/// Concatenated element encodings measure one element size per element.
proof fn lemma_encode_elements_len(
    types: Seq<TypeDescriptor>,
    element: int,
    ms: Seq<ValueModel>,
    fuel: nat,
)
    requires
        spec_encode_elements(types, element, ms, fuel) is Ok,
        spec_size(types, element) is Some,
    ensures
        spec_encode_elements(types, element, ms, fuel).unwrap().len() == ms.len() * spec_size(
            types,
            element,
        ).unwrap(),
    decreases fuel, 1int, ms.len(),
{
    let esz = spec_size(types, element).unwrap() as int;
    if ms.len() == 0 {
        assert(0int * esz == 0) by (nonlinear_arith);
    } else {
        lemma_encode_elements_len(types, element, ms.drop_last(), fuel);
        lemma_encode_len(types, element, ms.last(), (fuel - 1) as nat);
        assert((ms.len() - 1) * esz + esz == ms.len() as int * esz) by (nonlinear_arith);
    }
}

/// Writing members into a buffer keeps its length.
pub proof fn lemma_encode_members_len(
    types: Seq<TypeDescriptor>,
    members: Seq<StructMember>,
    ms: Seq<ValueModel>,
    acc: Seq<u8>,
    fuel: nat,
)
    requires
        spec_encode_members(types, members, ms, acc, fuel) is Ok,
    ensures
        spec_encode_members(types, members, ms, acc, fuel).unwrap().len() == acc.len(),
    decreases fuel, 1int, members.len(),
{
    if members.len() > 0 {
        lemma_encode_members_len(types, members.drop_last(), ms.drop_last(), acc, fuel);
    }
}

/// Once a prefix of the members fails to encode, the whole member list fails
/// the same way.
proof fn lemma_encode_members_prefix_err(
    types: Seq<TypeDescriptor>,
    members: Seq<StructMember>,
    ms: Seq<ValueModel>,
    acc: Seq<u8>,
    fuel: nat,
    j: int,
)
    requires
        ms.len() == members.len(),
        0 <= j <= members.len(),
        spec_encode_members(types, members.take(j), ms.take(j), acc, fuel) is Err,
    ensures
        spec_encode_members(types, members, ms, acc, fuel) == spec_encode_members(
            types,
            members.take(j),
            ms.take(j),
            acc,
            fuel,
        ),
    decreases members.len() - j,
{
    if j == members.len() {
        assert(members.take(j) =~= members);
        assert(ms.take(j) =~= ms);
    } else {
        assert(members.take(j + 1).drop_last() =~= members.take(j));
        assert(ms.take(j + 1).drop_last() =~= ms.take(j));
        lemma_encode_members_prefix_err(types, members, ms, acc, fuel, j + 1);
    }
}

/// Once a prefix of the elements fails to encode, the whole sequence fails
/// the same way.
proof fn lemma_encode_elements_prefix_err(
    types: Seq<TypeDescriptor>,
    element: int,
    ms: Seq<ValueModel>,
    fuel: nat,
    j: int,
)
    requires
        0 <= j <= ms.len(),
        spec_encode_elements(types, element, ms.take(j), fuel) is Err,
    ensures
        spec_encode_elements(types, element, ms, fuel) == spec_encode_elements(
            types,
            element,
            ms.take(j),
            fuel,
        ),
    decreases ms.len() - j,
{
    if j == ms.len() {
        assert(ms.take(j) =~= ms);
    } else {
        assert(ms.take(j + 1).drop_last() =~= ms.take(j));
        lemma_encode_elements_prefix_err(types, element, ms, fuel, j + 1);
    }
}

/// A zero-filled buffer of length `n`.
#[verifier::loop_isolation(false)]
fn zero_vec(n: usize) -> (v: Vec<u8>)
    ensures
        v@ == zeros(n as nat),
{
    let mut v: Vec<u8> = Vec::new();
    let mut i: usize = 0;
    while i < n
        invariant
            i <= n,
            v@.len() == i,
            forall|k: int| 0 <= k < i ==> v@[k] == 0u8,
        decreases n - i,
    {
        v.push(0);
        i = i + 1;
    }
    proof {
        assert(v@ =~= zeros(n as nat));
    }
    v
}

/// Writes `bytes` into `buf` at `off`, leaving every other byte unchanged.
#[verifier::loop_isolation(false)]
fn write_range(buf: &mut Vec<u8>, off: usize, bytes: &Vec<u8>)
    requires
        off + bytes@.len() <= old(buf)@.len(),
    ensures
        final(buf)@ == spec_write(old(buf)@, off as int, bytes@),
{
    let buf_len: usize = buf.len();
    let mut k: usize = 0;
    while k < bytes.len()
        invariant
            k <= bytes@.len(),
            buf@.len() == old(buf)@.len(),
            buf@.len() == buf_len,
            forall|i: int|
                0 <= i < buf@.len() ==> buf@[i] == if off <= i < off + k {
                    bytes@[i - off]
                } else {
                    old(buf)@[i]
                },
        decreases bytes@.len() - k,
    {
        let idx: usize = off + k;
        let value: u8 = bytes[k];
        buf[idx] = value;
        k = k + 1;
    }
    proof {
        assert(buf@ =~= spec_write(old(buf)@, off as int, bytes@));
    }
}

/// Appends all of `piece` to `out`.
#[verifier::loop_isolation(false)]
fn append_bytes(out: &mut Vec<u8>, piece: &Vec<u8>)
    ensures
        final(out)@ == old(out)@ + piece@,
{
    let mut k: usize = 0;
    while k < piece.len()
        invariant
            k <= piece@.len(),
            out@ =~= old(out)@ + piece@.take(k as int),
        decreases piece@.len() - k,
    {
        let value: u8 = piece[k];
        out.push(value);
        k = k + 1;
    }
    proof {
        assert(old(out)@ + piece@.take(piece@.len() as int) =~= old(out)@ + piece@);
    }
}

/// Encodes a value against an array type.
#[verifier::loop_isolation(false)]
fn encode_array_steps(
    catalog: &TypeCatalog,
    element: u32,
    count: u32,
    v: &Value,
    fuel: usize,
) -> (r: Result<Vec<u8>, CodecError>)
    requires
        fuel >= 1,
    ensures
        encode_result_matches(
            r,
            spec_encode_array(catalog@, element as int, count, v.model(), fuel as nat),
        ),
    decreases fuel, 0int,
{
    let is_text: bool = match catalog.get(element) {
        Some(ed) => match ed {
            TypeDescriptor::Integer { bits, encoding } => *bits == 8 && match encoding {
                IntEncoding::Char => true,
                _ => false,
            },
            _ => false,
        },
        None => false,
    };
    if is_text {
        return encode_text(count, v);
    }
    match v {
        Value::Array(vs) => {
            let ghost ms: Seq<ValueModel> = model_seq(vs@);
            proof {
                lemma_model_seq(vs@);
            }
            if vs.len() != count as usize {
                return Err(CodecError::MalformedTypeGraph);
            }
            let mut out: Vec<u8> = Vec::new();
            let mut i: usize = 0;
            while i < vs.len()
                invariant
                    i <= vs@.len(),
                    spec_encode_elements(catalog@, element as int, ms.take(i as int), fuel as nat)
                        == Ok::<Seq<u8>, CodecError>(out@),
                decreases vs@.len() - i,
            {
                proof {
                    assert(ms.take(i as int + 1).drop_last() =~= ms.take(i as int));
                    assert(ms.take(i as int + 1).last() == ms[i as int]);
                }
                let r = encode_steps(catalog, element, &vs[i], fuel - 1);
                match r {
                    Err(e) => {
                        proof {
                            lemma_encode_elements_prefix_err(
                                catalog@,
                                element as int,
                                ms,
                                fuel as nat,
                                i as int + 1,
                            );
                        }
                        return Err(e);
                    },
                    Ok(eb) => {
                        append_bytes(&mut out, &eb);
                    },
                }
                i = i + 1;
            }
            proof {
                assert(ms.take(vs@.len() as int) =~= ms);
            }
            Ok(out)
        },
        _ => Err(CodecError::MalformedTypeGraph),
    }
}

/// Encodes a value against a struct type.
#[verifier::loop_isolation(false)]
fn encode_struct_steps(
    catalog: &TypeCatalog,
    size: u32,
    members: &Vec<StructMember>,
    v: &Value,
    fuel: usize,
) -> (r: Result<Vec<u8>, CodecError>)
    requires
        fuel >= 1,
    ensures
        encode_result_matches(
            r,
            spec_encode_struct(catalog@, size, members@, v.model(), fuel as nat),
        ),
    decreases fuel, 0int,
{
    let mut j: usize = 0;
    while j < members.len()
        invariant
            j <= members@.len(),
            forall|k: int|
                0 <= k < j ==> (#[trigger] members@[k]).bit_offset % 8 == 0 && members@[k].bit_size
                    % 8 == 0,
        decreases members@.len() - j,
    {
        let mem = &members[j];
        if mem.bit_offset % 8 != 0 || mem.bit_size % 8 != 0 {
            return Err(CodecError::UnsupportedBitfield);
        }
        j = j + 1;
    }
    match v {
        Value::Struct(vs) => {
            let ghost ms: Seq<ValueModel> = model_seq(vs@);
            proof {
                lemma_model_seq(vs@);
            }
            if vs.len() != members.len() {
                return Err(CodecError::MalformedTypeGraph);
            }
            let mut buf: Vec<u8> = zero_vec(size as usize);
            let mut i: usize = 0;
            while i < members.len()
                invariant
                    i <= members@.len(),
                    buf@.len() == size,
                    spec_encode_members(
                        catalog@,
                        members@.take(i as int),
                        ms.take(i as int),
                        zeros(size as nat),
                        fuel as nat,
                    ) == Ok::<Seq<u8>, CodecError>(buf@),
                decreases members@.len() - i,
            {
                proof {
                    assert(members@.take(i as int + 1).drop_last() =~= members@.take(i as int));
                    assert(members@.take(i as int + 1).last() == members@[i as int]);
                    assert(ms.take(i as int + 1).drop_last() =~= ms.take(i as int));
                    assert(ms.take(i as int + 1).last() == ms[i as int]);
                }
                let mem = &members[i];
                let off: usize = (mem.bit_offset / 8) as usize;
                let msz: usize = match size_of(catalog, mem.type_id) {
                    Ok(n) => n,
                    Err(e) => {
                        proof {
                            lemma_encode_members_prefix_err(
                                catalog@,
                                members@,
                                ms,
                                zeros(size as nat),
                                fuel as nat,
                                i as int + 1,
                            );
                        }
                        return Err(e);
                    },
                };
                if msz > size as usize || off > size as usize - msz {
                    proof {
                        lemma_encode_members_prefix_err(
                            catalog@,
                            members@,
                            ms,
                            zeros(size as nat),
                            fuel as nat,
                            i as int + 1,
                        );
                    }
                    return Err(CodecError::MalformedTypeGraph);
                }
                let r = encode_steps(catalog, mem.type_id, &vs[i], fuel - 1);
                match r {
                    Err(e) => {
                        proof {
                            lemma_encode_members_prefix_err(
                                catalog@,
                                members@,
                                ms,
                                zeros(size as nat),
                                fuel as nat,
                                i as int + 1,
                            );
                        }
                        return Err(e);
                    },
                    Ok(mb) => {
                        proof {
                            lemma_encode_len(
                                catalog@,
                                mem.type_id as int,
                                ms[i as int],
                                (fuel - 1) as nat,
                            );
                        }
                        write_range(&mut buf, off, &mb);
                    },
                }
                i = i + 1;
            }
            proof {
                assert(members@.take(members@.len() as int) =~= members@);
                assert(ms.take(members@.len() as int) =~= ms);
            }
            Ok(buf)
        },
        _ => Err(CodecError::MalformedTypeGraph),
    }
}

/// Encodes value `v` against type `ty_id`, with recursion budget `fuel`.
fn encode_steps(catalog: &TypeCatalog, ty_id: u32, v: &Value, fuel: usize) -> (r: Result<
    Vec<u8>,
    CodecError,
>)
    ensures
        encode_result_matches(r, spec_encode(catalog@, ty_id as int, v.model(), fuel as nat)),
    decreases fuel, 1int,
{
    if fuel == 0 {
        return Err(CodecError::MalformedTypeGraph);
    }
    let rid: u32 = match resolve_qualifiers(catalog, ty_id) {
        Ok(r) => r,
        Err(e) => {
            return Err(e);
        },
    };
    proof {
        lemma_resolve_concrete(catalog@, ty_id as int, resolve_fuel(catalog@));
    }
    let d: &TypeDescriptor = match catalog.get(rid) {
        Some(d) => d,
        None => {
            return Err(CodecError::MalformedTypeGraph);
        },
    };
    match d {
        TypeDescriptor::Integer { bits, encoding } => encode_integer(*bits, *encoding, v),
        TypeDescriptor::Float { size } => encode_float(*size, v),
        TypeDescriptor::Pointer { pointee: _ } => encode_pointer(v),
        TypeDescriptor::Enumeration { name: _, size, variants } => encode_enum(*size, variants, v),
        TypeDescriptor::Array { element, count } => encode_array_steps(
            catalog,
            *element,
            *count,
            v,
            fuel,
        ),
        TypeDescriptor::Struct { name: _, size, members } => encode_struct_steps(
            catalog,
            *size,
            members,
            v,
            fuel,
        ),
        TypeDescriptor::Qualifier { kind: _, target: _ } => Err(CodecError::MalformedTypeGraph),
        TypeDescriptor::Other => Err(CodecError::MalformedTypeGraph),
    }
}

/// Encodes value `v` against type `ty_id` into bytes.
///
/// The result mirrors [`spec_encode`] exactly: the same bytes on success and
/// the same error otherwise.
pub fn encode(catalog: &TypeCatalog, ty_id: u32, v: &Value) -> (r: Result<Vec<u8>, CodecError>)
    ensures
        encode_result_matches(
            r,
            spec_encode(catalog@, ty_id as int, v.model(), codec_fuel(catalog@)),
        ),
{
    let n: usize = catalog.len();
    let fuel: usize = if n < usize::MAX {
        n + 1
    } else {
        usize::MAX
    };
    encode_steps(catalog, ty_id, v, fuel)
}

/// Decodes type `ty_id` from `bytes` against the catalog.
///
/// The result mirrors [`spec_decode`] exactly: the same value on success and
/// the same error otherwise.
pub fn decode(catalog: &TypeCatalog, ty_id: u32, bytes: &[u8]) -> (r: Result<Value, CodecError>)
    ensures
        decode_result_matches(r, spec_decode(catalog@, ty_id as int, bytes@, codec_fuel(catalog@))),
{
    let n: usize = catalog.len();
    let fuel: usize = if n < usize::MAX {
        n + 1
    } else {
        usize::MAX
    };
    let r = decode_steps(catalog, ty_id, bytes, 0, bytes.len(), fuel);
    proof {
        assert(bytes@.subrange(0, bytes@.len() as int) =~= bytes@);
    }
    r
}

} // verus!
