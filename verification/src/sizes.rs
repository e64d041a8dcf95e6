//! The byte size of a type, and the per-run cache that memoizes it.
//!
//! Sizes are defined against the catalog alone: qualifier chains are
//! unwrapped, arrays multiply their element size, and every size must fit the
//! address space — a layout too large for `usize` cannot describe real memory
//! and counts as a malformed graph.

use std::collections::HashMap;

use vstd::prelude::*;

use crate::error::CodecError;
use crate::types::{TypeCatalog, TypeDescriptor};

verus! {

broadcast use vstd::std_specs::hash::group_hash_axioms;

/// The byte size of an integer of `bits` bits: bits rounded up to whole bytes.
pub open spec fn spec_int_size(bits: u32) -> nat {
    ((bits + 7) / 8) as nat
}

/// Steps enough to measure any acyclic type, as for qualifier resolution.
pub open spec fn size_fuel(types: Seq<TypeDescriptor>) -> nat {
    if types.len() < usize::MAX {
        types.len() + 1
    } else {
        usize::MAX as nat
    }
}

/// The declared byte size of type `id`, unwrapping at most `fuel` links:
/// `None` on a dangling id, a cycle, or a size beyond the address space.
///
/// Pointers measure 8 bytes whatever they point at, matching their codec.
pub open spec fn spec_size_steps(types: Seq<TypeDescriptor>, id: int, fuel: nat) -> Option<nat>
    decreases fuel,
{
    if fuel == 0 {
        None
    } else if !(0 <= id < types.len()) {
        None
    } else {
        match types[id] {
            TypeDescriptor::Integer { bits, encoding: _ } => Some(spec_int_size(bits)),
            TypeDescriptor::Float { size } => Some(size as nat),
            TypeDescriptor::Pointer { pointee: _ } => Some(8),
            TypeDescriptor::Array { element, count } => {
                match spec_size_steps(types, element as int, (fuel - 1) as nat) {
                    None => None,
                    Some(es) => {
                        if count * es > usize::MAX {
                            None
                        } else {
                            Some((count * es) as nat)
                        }
                    },
                }
            },
            TypeDescriptor::Struct { name: _, size, members: _ } => Some(size as nat),
            TypeDescriptor::Enumeration { name: _, size, variants: _ } => Some(size as nat),
            TypeDescriptor::Qualifier { kind: _, target } => spec_size_steps(
                types,
                target as int,
                (fuel - 1) as nat,
            ),
            TypeDescriptor::Other => Some(0),
        }
    }
}

/// The declared byte size of type `id`, or `None` for a malformed graph.
pub open spec fn spec_size(types: Seq<TypeDescriptor>, id: int) -> Option<nat> {
    spec_size_steps(types, id, size_fuel(types))
}

/// How an executable size computation must mirror its specification.
pub open spec fn size_result_matches(r: Result<usize, CodecError>, s: Option<nat>) -> bool {
    match s {
        Some(n) => r == Ok::<usize, CodecError>(n as usize) && n <= usize::MAX,
        None => r == Err::<usize, CodecError>(CodecError::MalformedTypeGraph),
    }
}

/// Every size the specification yields fits in `usize`.
pub proof fn lemma_size_fits(types: Seq<TypeDescriptor>, id: int, fuel: nat)
    requires
        spec_size_steps(types, id, fuel) is Some,
    ensures
        spec_size_steps(types, id, fuel).unwrap() <= usize::MAX,
    decreases fuel,
{
    if fuel > 0 && 0 <= id < types.len() {
        match types[id] {
            TypeDescriptor::Qualifier { kind: _, target } => {
                lemma_size_fits(types, target as int, (fuel - 1) as nat);
            },
            _ => {},
        }
    }
}

/// A size that some step budget already computed never changes under a
/// larger budget.
pub proof fn lemma_size_fuel_mono(types: Seq<TypeDescriptor>, id: int, f1: nat, f2: nat)
    requires
        f1 <= f2,
        spec_size_steps(types, id, f1) is Some,
    ensures
        spec_size_steps(types, id, f2) == spec_size_steps(types, id, f1),
    decreases f1,
{
    if f1 > 0 && 0 <= id < types.len() {
        match types[id] {
            TypeDescriptor::Array { element, count: _ } => {
                lemma_size_fuel_mono(types, element as int, (f1 - 1) as nat, (f2 - 1) as nat);
            },
            TypeDescriptor::Qualifier { kind: _, target } => {
                lemma_size_fuel_mono(types, target as int, (f1 - 1) as nat, (f2 - 1) as nat);
            },
            _ => {},
        }
    }
}

/// A type and its qualifier-resolved target have the same size.
pub proof fn lemma_size_at_resolved(types: Seq<TypeDescriptor>, id: int, rfuel: nat)
    requires
        crate::resolve::spec_resolve_steps(types, id, rfuel) is Some,
        spec_size(types, id) is Some,
    ensures
        spec_size(types, crate::resolve::spec_resolve_steps(types, id, rfuel).unwrap())
            == spec_size(types, id),
    decreases rfuel,
{
    match types[id] {
        TypeDescriptor::Qualifier { kind: _, target } => {
            lemma_size_fuel_mono(
                types,
                target as int,
                (size_fuel(types) - 1) as nat,
                size_fuel(types),
            );
            lemma_size_at_resolved(types, target as int, (rfuel - 1) as nat);
        },
        _ => {},
    }
}

/// Computes the byte size of `ty_id`, unwrapping at most `fuel` links.
fn size_of_steps(catalog: &TypeCatalog, ty_id: u32, fuel: usize) -> (r: Result<usize, CodecError>)
    ensures
        size_result_matches(r, spec_size_steps(catalog@, ty_id as int, fuel as nat)),
    decreases fuel,
{
    if fuel == 0 {
        return Err(CodecError::MalformedTypeGraph);
    }
    match catalog.get(ty_id) {
        None => Err(CodecError::MalformedTypeGraph),
        Some(d) => {
            match d {
                TypeDescriptor::Integer { bits, encoding: _ } => {
                    let whole: u32 = *bits / 8;
                    let extra: u32 = if *bits % 8 != 0 {
                        1
                    } else {
                        0
                    };
                    Ok((whole + extra) as usize)
                },
                TypeDescriptor::Float { size } => Ok(*size as usize),
                TypeDescriptor::Pointer { pointee: _ } => Ok(8),
                TypeDescriptor::Array { element, count } => {
                    match size_of_steps(catalog, *element, fuel - 1) {
                        Err(e) => Err(e),
                        Ok(es) => {
                            match (*count as usize).checked_mul(es) {
                                Some(total) => Ok(total),
                                None => Err(CodecError::MalformedTypeGraph),
                            }
                        },
                    }
                },
                TypeDescriptor::Struct { name: _, size, members: _ } => Ok(*size as usize),
                TypeDescriptor::Enumeration { name: _, size, variants: _ } => Ok(*size as usize),
                TypeDescriptor::Qualifier { kind: _, target } => size_of_steps(
                    catalog,
                    *target,
                    fuel - 1,
                ),
                TypeDescriptor::Other => Ok(0),
            }
        },
    }
}

/// The step budget that [`spec_size`] uses, as an executable value.
fn exec_size_fuel(catalog: &TypeCatalog) -> (fuel: usize)
    ensures
        fuel as nat == size_fuel(catalog@),
{
    let n: usize = catalog.len();
    if n < usize::MAX {
        n + 1
    } else {
        usize::MAX
    }
}

/// The authoritative byte size of `ty_id`: qualifier-aware, and
/// `MalformedTypeGraph` on a dangling id, a cycle, or a size beyond the
/// address space.
pub fn size_of(catalog: &TypeCatalog, ty_id: u32) -> (r: Result<usize, CodecError>)
    ensures
        size_result_matches(r, spec_size(catalog@, ty_id as int)),
{
    let fuel: usize = exec_size_fuel(catalog);
    size_of_steps(catalog, ty_id, fuel)
}

/// Memoizes the byte sizes of type ids against one catalog for the length of
/// one generation run.
pub struct SizeResolveCache {
    cache: HashMap<u32, usize>,
}

impl SizeResolveCache {
    /// The sizes stored so far.
    pub closed spec fn entries(self) -> Map<u32, usize> {
        self.cache@
    }

    /// Every stored size agrees with the authoritative size function over
    /// `types`.
    pub open spec fn wf(self, types: Seq<TypeDescriptor>) -> bool {
        forall|k: u32| #[trigger]
            self.entries().contains_key(k) ==> spec_size(types, k as int) == Some(
                self.entries()[k] as nat,
            )
    }

    /// An empty cache, valid for any catalog.
    pub fn new() -> (c: SizeResolveCache)
        ensures
            c.entries() == Map::<u32, usize>::empty(),
    {
        SizeResolveCache { cache: HashMap::new() }
    }

    /// The byte size of `ty_id`: answered from the cache when present, else
    /// computed once against the catalog and stored.
    pub fn resolve(&mut self, catalog: &TypeCatalog, ty_id: u32) -> (r: Result<usize, CodecError>)
        requires
            old(self).wf(catalog@),
        ensures
            final(self).wf(catalog@),
            size_result_matches(r, spec_size(catalog@, ty_id as int)),
    {
        match self.cache.get(&ty_id) {
            Some(v) => {
                proof {
                    assert(old(self).entries().contains_key(ty_id));
                    assert(spec_size(catalog@, ty_id as int) == Some(
                        old(self).entries()[ty_id] as nat,
                    ));
                    lemma_size_fits(catalog@, ty_id as int, size_fuel(catalog@));
                }
                Ok(*v)
            },
            None => {
                match size_of(catalog, ty_id) {
                    Ok(n) => {
                        self.cache.insert(ty_id, n);
                        proof {
                            assert forall|k: u32| #[trigger]
                                self.entries().contains_key(k) implies spec_size(
                                catalog@,
                                k as int,
                            ) == Some(self.entries()[k] as nat) by {
                                if k != ty_id {
                                    assert(old(self).entries().contains_key(k));
                                }
                            }
                        }
                        Ok(n)
                    },
                    Err(e) => Err(e),
                }
            },
        }
    }
}

} // verus!
