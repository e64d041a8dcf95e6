//! The generation run: one pass over the catalog in ascending id order,
//! validating every descriptor and assembling the bundle of codec units.
//!
//! Struct and enumeration types yield a public unit (carrying their declared
//! name) besides the internal one; integers, floats, pointers and arrays
//! yield internal units only; qualifiers and other descriptors yield none.
//! The run fails fast on the first validation error, producing no partial
//! output.

use vstd::prelude::*;

use crate::codec::spec_members_aligned;
use crate::error::CodecError;
use crate::names::{func_names, spec_decode_name, spec_encode_name, spec_ty_name, ty_name};
use crate::resolve::{resolve_qualifiers, spec_resolve};
use crate::scalar::{spec_enum_check, spec_float_check, spec_int_check};
use crate::sizes::{size_of, spec_size, SizeResolveCache};
use crate::types::{StructMember, TypeCatalog, TypeDescriptor};

verus! {

broadcast use vstd::std_specs::vec::group_vec_axioms;

/// One generated codec: the representation name, the decode and encode
/// operation names, the declared byte size, and — for public units — the
/// catalog's declared type name.
#[derive(Debug, Clone)]
pub struct CodecUnit {
    /// The type id this codec serves.
    pub ty_id: u32,
    /// The generated representation's identifier.
    pub repr_name: String,
    /// The generated decode operation's identifier.
    pub decode_name: String,
    /// The generated encode operation's identifier.
    pub encode_name: String,
    /// The type's declared byte size: what its decoder demands and its
    /// encoder produces.
    pub byte_size: usize,
    /// Whether this unit is part of the public bundle.
    pub public: bool,
    /// The externally visible alias, present exactly on public units.
    pub external_name: Option<String>,
}

impl CodecUnit {
    /// Decodes a value of this unit's type: the convenience entry point that
    /// delegates to the codec for `self.ty_id`.
    pub fn from_bytes(&self, catalog: &TypeCatalog, bytes: &[u8]) -> (r: Result<
        crate::types::Value,
        CodecError,
    >)
        ensures
            crate::types::decode_result_matches(
                r,
                crate::codec::spec_decode(
                    catalog@,
                    self.ty_id as int,
                    bytes@,
                    crate::codec::codec_fuel(catalog@),
                ),
            ),
    {
        crate::codec::decode(catalog, self.ty_id, bytes)
    }

    /// Encodes a value of this unit's type: the convenience entry point that
    /// delegates to the codec for `self.ty_id`.
    pub fn to_bytes(&self, catalog: &TypeCatalog, v: &crate::types::Value) -> (r: Result<
        Vec<u8>,
        CodecError,
    >)
        ensures
            crate::types::encode_result_matches(
                r,
                crate::codec::spec_encode(
                    catalog@,
                    self.ty_id as int,
                    v.model(),
                    crate::codec::codec_fuel(catalog@),
                ),
            ),
    {
        crate::codec::encode(catalog, self.ty_id, v)
    }
}

/// Everything one generation run produces: internal units for every
/// supported type, and public units for structs and enumerations.
#[derive(Debug, Clone)]
pub struct Bundle {
    pub internal: Vec<CodecUnit>,
    pub public: Vec<CodecUnit>,
}

/// Whether a descriptor receives a codec of its own.
pub open spec fn spec_has_codec(d: TypeDescriptor) -> bool {
    match d {
        TypeDescriptor::Integer { .. } => true,
        TypeDescriptor::Float { .. } => true,
        TypeDescriptor::Pointer { .. } => true,
        TypeDescriptor::Array { .. } => true,
        TypeDescriptor::Struct { .. } => true,
        TypeDescriptor::Enumeration { .. } => true,
        _ => false,
    }
}

/// Whether a descriptor additionally receives a public alias.
pub open spec fn spec_has_public_unit(d: TypeDescriptor) -> bool {
    match d {
        TypeDescriptor::Struct { .. } => true,
        TypeDescriptor::Enumeration { .. } => true,
        _ => false,
    }
}

/// The declared name of a struct or enumeration descriptor.
pub open spec fn spec_declared_name(d: TypeDescriptor) -> Seq<char> {
    match d {
        TypeDescriptor::Struct { name, size: _, members: _ } => name@,
        TypeDescriptor::Enumeration { name, size: _, variants: _ } => name@,
        _ => Seq::empty(),
    }
}

/// Whether every member's type can be resolved and measured.
pub open spec fn spec_members_resolvable(types: Seq<TypeDescriptor>, members: Seq<StructMember>) -> bool {
    forall|j: int|
        0 <= j < members.len() ==> spec_resolve(types, (#[trigger] members[j]).type_id as int)
            is Some && spec_size(types, members[j].type_id as int) is Some
}

/// The validation error that generating a codec for `id` raises, if any:
/// exactly the checks that abort a generation run.
pub open spec fn spec_validate(types: Seq<TypeDescriptor>, id: int) -> Option<CodecError>
    recommends
        0 <= id < types.len(),
{
    match types[id] {
        TypeDescriptor::Integer { bits, encoding } => spec_int_check(bits, encoding),
        TypeDescriptor::Float { size } => spec_float_check(size),
        TypeDescriptor::Pointer { pointee: _ } => None,
        TypeDescriptor::Array { element: _, count: _ } => {
            if spec_size(types, id) is None {
                Some(CodecError::MalformedTypeGraph)
            } else {
                None
            }
        },
        TypeDescriptor::Struct { name: _, size: _, members } => {
            if !spec_members_aligned(members@) {
                Some(CodecError::UnsupportedBitfield)
            } else if !spec_members_resolvable(types, members@) {
                Some(CodecError::MalformedTypeGraph)
            } else {
                None
            }
        },
        TypeDescriptor::Enumeration { name: _, size, variants: _ } => spec_enum_check(size),
        TypeDescriptor::Qualifier { kind: _, target: _ } => None,
        TypeDescriptor::Other => None,
    }
}

/// The first validation error among ids below `n`, in ascending id order.
pub open spec fn spec_generation_error(types: Seq<TypeDescriptor>, n: int) -> Option<CodecError>
    decreases n,
{
    if n <= 0 {
        None
    } else {
        match spec_generation_error(types, n - 1) {
            Some(e) => Some(e),
            None => spec_validate(types, n - 1),
        }
    }
}

/// The ids below `n` that receive an internal codec, ascending.
pub open spec fn spec_internal_ids(types: Seq<TypeDescriptor>, n: int) -> Seq<int>
    decreases n,
{
    if n <= 0 {
        Seq::empty()
    } else if spec_has_codec(types[n - 1]) {
        spec_internal_ids(types, n - 1).push(n - 1)
    } else {
        spec_internal_ids(types, n - 1)
    }
}

/// The ids below `n` that receive a public alias, ascending.
pub open spec fn spec_public_ids(types: Seq<TypeDescriptor>, n: int) -> Seq<int>
    decreases n,
{
    if n <= 0 {
        Seq::empty()
    } else if spec_has_public_unit(types[n - 1]) {
        spec_public_ids(types, n - 1).push(n - 1)
    } else {
        spec_public_ids(types, n - 1)
    }
}

/// What a well-formed codec unit for type `id` holds: the deterministic
/// names derived from the id, the authoritative byte size, and — on public
/// units only — the declared type name.
pub open spec fn spec_unit_ok(
    types: Seq<TypeDescriptor>,
    id: int,
    u: CodecUnit,
    public: bool,
) -> bool {
    &&& u.ty_id == id
    &&& u.repr_name@ == spec_ty_name(id as u32)
    &&& u.decode_name@ == spec_decode_name(id as u32)
    &&& u.encode_name@ == spec_encode_name(id as u32)
    &&& spec_size(types, id) == Some(u.byte_size as nat)
    &&& u.public == public
    &&& if public {
        u.external_name matches Some(s) && s@ == spec_declared_name(types[id])
    } else {
        u.external_name is None
    }
}

/// An error found below `n` is still the first error below any larger bound.
proof fn lemma_generation_error_persists(types: Seq<TypeDescriptor>, n: int, m: int)
    requires
        0 <= n <= m,
        spec_generation_error(types, n) is Some,
    ensures
        spec_generation_error(types, m) == spec_generation_error(types, n),
    decreases m - n,
{
    if n < m {
        lemma_generation_error_persists(types, n + 1, m);
    }
}

/// Validates the descriptor at `id` exactly as a generation run does.
#[verifier::loop_isolation(false)]
fn validate_type(catalog: &TypeCatalog, id: u32) -> (r: Option<CodecError>)
    requires
        id < catalog@.len(),
    ensures
        r == spec_validate(catalog@, id as int),
{
    let d: &TypeDescriptor = match catalog.get(id) {
        Some(d) => d,
        None => {
            return Some(CodecError::MalformedTypeGraph);
        },
    };
    match d {
        TypeDescriptor::Integer { bits, encoding } => {
            if *bits % 8 != 0 {
                return Some(CodecError::UnsupportedBitfield);
            }
            let supported: bool = match encoding {
                crate::types::IntEncoding::Boolean => *bits == 8,
                crate::types::IntEncoding::Char => *bits == 8,
                crate::types::IntEncoding::Signed => *bits == 8 || *bits == 16 || *bits == 32
                    || *bits == 64 || *bits == 128,
                crate::types::IntEncoding::Unsigned => *bits == 8 || *bits == 16 || *bits == 32
                    || *bits == 64 || *bits == 128,
            };
            if !supported {
                return Some(CodecError::UnsupportedIntegerEncoding);
            }
            None
        },
        TypeDescriptor::Float { size } => {
            if *size == 4 || *size == 8 {
                None
            } else {
                Some(CodecError::UnsupportedFloatSize)
            }
        },
        TypeDescriptor::Pointer { pointee: _ } => None,
        TypeDescriptor::Array { element: _, count: _ } => {
            match size_of(catalog, id) {
                Ok(_) => None,
                Err(e) => Some(e),
            }
        },
        TypeDescriptor::Struct { name: _, size: _, members } => {
            let mut j: usize = 0;
            while j < members.len()
                invariant
                    j <= members@.len(),
                    forall|k: int|
                        0 <= k < j ==> (#[trigger] members@[k]).bit_offset % 8 == 0
                            && members@[k].bit_size % 8 == 0,
                decreases members@.len() - j,
            {
                let mem = &members[j];
                if mem.bit_offset % 8 != 0 || mem.bit_size % 8 != 0 {
                    return Some(CodecError::UnsupportedBitfield);
                }
                j = j + 1;
            }
            let mut i: usize = 0;
            while i < members.len()
                invariant
                    i <= members@.len(),
                    forall|k: int|
                        0 <= k < i ==> spec_resolve(
                            catalog@,
                            (#[trigger] members@[k]).type_id as int,
                        ) is Some && spec_size(catalog@, members@[k].type_id as int) is Some,
                decreases members@.len() - i,
            {
                let mem = &members[i];
                match resolve_qualifiers(catalog, mem.type_id) {
                    Ok(_) => {},
                    Err(_) => {
                        return Some(CodecError::MalformedTypeGraph);
                    },
                }
                match size_of(catalog, mem.type_id) {
                    Ok(_) => {},
                    Err(_) => {
                        return Some(CodecError::MalformedTypeGraph);
                    },
                }
                i = i + 1;
            }
            None
        },
        TypeDescriptor::Enumeration { name: _, size, variants: _ } => {
            if *size == 1 || *size == 2 || *size == 4 || *size == 8 {
                None
            } else {
                Some(CodecError::UnsupportedEnumSize)
            }
        },
        TypeDescriptor::Qualifier { kind: _, target: _ } => None,
        TypeDescriptor::Other => None,
    }
}

/// Builds the codec unit for type `id`.
fn build_unit(
    catalog: &TypeCatalog,
    cache: &mut SizeResolveCache,
    id: u32,
    public: bool,
    external_name: Option<String>,
) -> (r: Result<CodecUnit, CodecError>)
    requires
        old(cache).wf(catalog@),
    ensures
        final(cache).wf(catalog@),
        match r {
            Ok(u) => {
                &&& u.ty_id == id
                &&& u.repr_name@ == spec_ty_name(id)
                &&& u.decode_name@ == spec_decode_name(id)
                &&& u.encode_name@ == spec_encode_name(id)
                &&& spec_size(catalog@, id as int) == Some(u.byte_size as nat)
                &&& u.public == public
                &&& u.external_name == external_name
            },
            Err(_) => spec_size(catalog@, id as int) is None,
        },
{
    let byte_size: usize = match cache.resolve(catalog, id) {
        Ok(n) => n,
        Err(e) => {
            return Err(e);
        },
    };
    let repr_name: String = ty_name(id);
    let names: (String, String) = func_names(id);
    Ok(
        CodecUnit {
            ty_id: id,
            repr_name,
            decode_name: names.0,
            encode_name: names.1,
            byte_size,
            public,
            external_name,
        },
    )
}

/// Runs one generation pass over the whole catalog, ascending by id.
///
/// On success the internal bundle holds one unit per supported type and the
/// public bundle one per struct or enumeration, each with its deterministic
/// names and authoritative byte size; the public units carry their declared
/// type name. The run aborts with the first validation error, in id order,
/// and produces nothing else.
#[verifier::loop_isolation(false)]
pub fn generate_bindgen_bundle(catalog: &TypeCatalog) -> (r: Result<Bundle, CodecError>)
    requires
        catalog@.len() <= u32::MAX,
    ensures
        match r {
            Ok(bundle) => {
                &&& spec_generation_error(catalog@, catalog@.len() as int) is None
                &&& bundle.internal@.len() == spec_internal_ids(
                    catalog@,
                    catalog@.len() as int,
                ).len()
                &&& forall|k: int|
                    0 <= k < bundle.internal@.len() ==> spec_unit_ok(
                        catalog@,
                        spec_internal_ids(catalog@, catalog@.len() as int)[k],
                        #[trigger] bundle.internal@[k],
                        false,
                    )
                &&& bundle.public@.len() == spec_public_ids(catalog@, catalog@.len() as int).len()
                &&& forall|k: int|
                    0 <= k < bundle.public@.len() ==> spec_unit_ok(
                        catalog@,
                        spec_public_ids(catalog@, catalog@.len() as int)[k],
                        #[trigger] bundle.public@[k],
                        true,
                    )
            },
            Err(e) => spec_generation_error(catalog@, catalog@.len() as int) == Some(e),
        },
{
    let len: usize = catalog.len();
    let mut cache: SizeResolveCache = SizeResolveCache::new();
    let mut internal: Vec<CodecUnit> = Vec::new();
    let mut public: Vec<CodecUnit> = Vec::new();
    let mut i: usize = 0;
    while i < len
        invariant
            i <= len,
            cache.wf(catalog@),
            spec_generation_error(catalog@, i as int) is None,
            internal@.len() == spec_internal_ids(catalog@, i as int).len(),
            forall|k: int|
                0 <= k < internal@.len() ==> spec_unit_ok(
                    catalog@,
                    spec_internal_ids(catalog@, i as int)[k],
                    #[trigger] internal@[k],
                    false,
                ),
            public@.len() == spec_public_ids(catalog@, i as int).len(),
            forall|k: int|
                0 <= k < public@.len() ==> spec_unit_ok(
                    catalog@,
                    spec_public_ids(catalog@, i as int)[k],
                    #[trigger] public@[k],
                    true,
                ),
        decreases len - i,
    {
        let id: u32 = i as u32;
        match validate_type(catalog, id) {
            Some(e) => {
                proof {
                    lemma_generation_error_persists(catalog@, i as int + 1, len as int);
                }
                return Err(e);
            },
            None => {},
        }
        let d: &TypeDescriptor = match catalog.get(id) {
            Some(d) => d,
            None => {
                return Err(CodecError::MalformedTypeGraph);
            },
        };
        match d {
            TypeDescriptor::Integer { .. } | TypeDescriptor::Float { .. }
                | TypeDescriptor::Pointer { .. } | TypeDescriptor::Array { .. } => {
                let ghost ids_before: Seq<int> = spec_internal_ids(catalog@, i as int);
                match build_unit(catalog, &mut cache, id, false, None) {
                    Ok(u) => {
                        internal.push(u);
                        proof {
                            assert(spec_internal_ids(catalog@, i as int + 1) == ids_before.push(
                                i as int,
                            ));
                        }
                    },
                    Err(e) => {
                        return Err(e);
                    },
                }
            },
            TypeDescriptor::Struct { name, size: _, members: _ } => {
                let ghost ids_before: Seq<int> = spec_internal_ids(catalog@, i as int);
                let ghost pub_before: Seq<int> = spec_public_ids(catalog@, i as int);
                let alias: String = name.clone();
                match build_unit(catalog, &mut cache, id, false, None) {
                    Ok(u) => {
                        internal.push(u);
                    },
                    Err(e) => {
                        return Err(e);
                    },
                }
                match build_unit(catalog, &mut cache, id, true, Some(alias)) {
                    Ok(u) => {
                        public.push(u);
                        proof {
                            assert(spec_internal_ids(catalog@, i as int + 1) == ids_before.push(
                                i as int,
                            ));
                            assert(spec_public_ids(catalog@, i as int + 1) == pub_before.push(
                                i as int,
                            ));
                        }
                    },
                    Err(e) => {
                        return Err(e);
                    },
                }
            },
            TypeDescriptor::Enumeration { name, size: _, variants: _ } => {
                let ghost ids_before: Seq<int> = spec_internal_ids(catalog@, i as int);
                let ghost pub_before: Seq<int> = spec_public_ids(catalog@, i as int);
                let alias: String = name.clone();
                match build_unit(catalog, &mut cache, id, false, None) {
                    Ok(u) => {
                        internal.push(u);
                    },
                    Err(e) => {
                        return Err(e);
                    },
                }
                match build_unit(catalog, &mut cache, id, true, Some(alias)) {
                    Ok(u) => {
                        public.push(u);
                        proof {
                            assert(spec_internal_ids(catalog@, i as int + 1) == ids_before.push(
                                i as int,
                            ));
                            assert(spec_public_ids(catalog@, i as int + 1) == pub_before.push(
                                i as int,
                            ));
                        }
                    },
                    Err(e) => {
                        return Err(e);
                    },
                }
            },
            TypeDescriptor::Qualifier { kind: _, target: _ } => {},
            TypeDescriptor::Other => {},
        }
        i = i + 1;
    }
    Ok(Bundle { internal, public })
}

} // verus!
