//! Qualifier-chain resolution: following typedef/const/volatile/restrict
//! links to the first concrete descriptor, with cycle detection.

use vstd::prelude::*;

use crate::error::CodecError;
use crate::types::{TypeCatalog, TypeDescriptor};

verus! {

/// Steps enough to unwrap any acyclic qualifier chain: one more than the
/// number of descriptors, so running out of steps proves that some id
/// repeated.
pub open spec fn resolve_fuel(types: Seq<TypeDescriptor>) -> nat {
    types.len() + 1
}

/// Follows qualifier links from `id` for at most `fuel` steps: `Some(rid)`
/// names the first non-qualifier descriptor reached, `None` means a dangling
/// id or too many steps.
pub open spec fn spec_resolve_steps(types: Seq<TypeDescriptor>, id: int, fuel: nat) -> Option<
    int,
>
    decreases fuel,
{
    if fuel == 0 {
        None
    } else if !(0 <= id < types.len()) {
        None
    } else {
        match types[id] {
            TypeDescriptor::Qualifier { kind: _, target } => spec_resolve_steps(
                types,
                target as int,
                (fuel - 1) as nat,
            ),
            _ => Some(id),
        }
    }
}

/// The underlying concrete type of `id`: `Some(rid)` with `types[rid]` not a
/// qualifier, or `None` if the chain dangles or cycles.
pub open spec fn spec_resolve(types: Seq<TypeDescriptor>, id: int) -> Option<int> {
    spec_resolve_steps(types, id, resolve_fuel(types))
}

/// A successful resolution lands on a valid, non-qualifier descriptor.
pub proof fn lemma_resolve_concrete(types: Seq<TypeDescriptor>, id: int, fuel: nat)
    requires
        spec_resolve_steps(types, id, fuel) is Some,
    ensures
        0 <= spec_resolve_steps(types, id, fuel).unwrap() < types.len(),
        !(types[spec_resolve_steps(types, id, fuel).unwrap()] is Qualifier),
    decreases fuel,
{
    if 0 <= id < types.len() {
        match types[id] {
            TypeDescriptor::Qualifier { kind: _, target } => {
                lemma_resolve_concrete(types, target as int, (fuel - 1) as nat);
            },
            _ => {},
        }
    }
}

/// Follows `Qualifier` links from `ty_id` to the first concrete descriptor.
///
/// Fails with `MalformedTypeGraph` on a dangling id or a qualifier cycle
/// instead of recursing unboundedly: the step budget exceeds the number of
/// descriptors, so exhausting it proves that some id repeated.
#[verifier::loop_isolation(false)]
pub fn resolve_qualifiers(catalog: &TypeCatalog, ty_id: u32) -> (r: Result<u32, CodecError>)
    ensures
        match r {
            Ok(rid) => spec_resolve(catalog@, ty_id as int) == Some(rid as int),
            Err(e) => spec_resolve(catalog@, ty_id as int) is None && e
                == CodecError::MalformedTypeGraph,
        },
{
    // One unwrapping step is done before the loop, so that the loop's step
    // budget is exactly the number of descriptors and never overflows.
    let mut cur: u32;
    match catalog.get(ty_id) {
        None => {
            return Err(CodecError::MalformedTypeGraph);
        },
        Some(d) => {
            match d {
                TypeDescriptor::Qualifier { kind: _, target } => {
                    cur = *target;
                },
                _ => {
                    return Ok(ty_id);
                },
            }
        },
    }
    let mut fuel: usize = catalog.len();
    loop
        invariant
            spec_resolve_steps(catalog@, cur as int, fuel as nat) == spec_resolve(
                catalog@,
                ty_id as int,
            ),
        decreases fuel,
    {
        if fuel == 0 {
            return Err(CodecError::MalformedTypeGraph);
        }
        match catalog.get(cur) {
            None => {
                return Err(CodecError::MalformedTypeGraph);
            },
            Some(d) => {
                match d {
                    TypeDescriptor::Qualifier { kind: _, target } => {
                        cur = *target;
                        fuel = fuel - 1;
                    },
                    _ => {
                        return Ok(cur);
                    },
                }
            },
        }
    }
}

} // verus!
