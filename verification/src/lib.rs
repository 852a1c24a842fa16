//! Storage core of an entity-component engine: many instances of one
//! runtime-described component schema are packed into a single contiguous,
//! growable byte arena, with per-slot liveness tracking and declarative
//! field initialization.
//!
//! A compiled application ships a header holding asset metadata and an
//! ordered list of component schemas; each schema is converted 1:1 into an
//! empty [`ComponentVec`] at startup.
use vstd::prelude::*;

mod assets;
mod codec;
mod component;
mod layout;
mod value;

pub use assets::{CacheDirective, DynamicAssets, LoadDirective, StaticAssetHeader, StaticAssetId};
pub use codec::{bits_int, int_bits, int_bits_valid};
pub use component::{
    decode_field, field_bytes_wf, field_offset, packed_end, slot_field_slice, ComponentIndex,
    ComponentMetadata, ComponentRef, ComponentType, ComponentVec, FieldType, SchemaError,
    COMPONENTS_VEC_GROWTH_RATE,
};
pub use layout::{is_pow2, spec_round_up, valid_layout_pair};
pub use value::AnyValue;

use core::hash::BuildHasherDefault;
use fxhash::FxHasher;
use std::collections::HashMap;

verus! {

/// The deserialized form of a compiled application's binary header: asset
/// metadata keyed by asset identifier, and the ordered component schemas.
pub struct CompiledApplicationHeader {
    pub static_asset_headers: HashMap<
        StaticAssetId,
        StaticAssetHeader,
        BuildHasherDefault<FxHasher>,
    >,
    pub components: Vec<ComponentType>,
}

/// The 64-bit value stored big-endian in an 8-byte sequence.
pub open spec fn spec_u64_from_be_bytes(s: Seq<u8>) -> u64
    recommends
        s.len() == 8,
{
    ((s[0] as u64) << 56) | ((s[1] as u64) << 48) | ((s[2] as u64) << 40) | ((s[3] as u64) << 32)
        | ((s[4] as u64) << 24) | ((s[5] as u64) << 16) | ((s[6] as u64) << 8) | (s[7] as u64)
}

/// Reads the 8-byte big-endian length prefix that precedes a compiled
/// application's serialized header.
pub fn header_size_from_prefix(prefix: &[u8]) -> (n: u64)
    requires
        prefix@.len() == 8,
    ensures
        n == spec_u64_from_be_bytes(prefix@),
{
    ((prefix[0] as u64) << 56) | ((prefix[1] as u64) << 48) | ((prefix[2] as u64) << 40) | ((
    prefix[3] as u64) << 32) | ((prefix[4] as u64) << 24) | ((prefix[5] as u64) << 16) | ((
    prefix[6] as u64) << 8) | (prefix[7] as u64)
}

/// Converts each schema of a compiled application header, in order, into
/// an empty component store; fails on the first schema that is not well
/// formed.
pub fn build_component_stores(components: Vec<ComponentType>) -> (r: Result<
    Vec<ComponentVec>,
    SchemaError,
>)
    ensures
        (r is Ok) <==> (forall|i: int|
            0 <= i < components@.len() ==> (#[trigger] components@[i]).schema_wf()),
        r matches Ok(stores) ==> {
            &&& stores@.len() == components@.len()
            &&& forall|i: int|
                0 <= i < components@.len() ==> {
                    &&& (#[trigger] stores@[i]).wf()
                    &&& stores@[i].spec_component_type() == components@[i]
                    &&& stores@[i].spec_component_count() == 0
                    &&& stores@[i].spec_bytes_capacity() == 0
                }
        },
        r matches Err(e) ==> exists|i: int|
            0 <= i < components@.len() && !(#[trigger] components@[i]).schema_wf(),
{
    let ghost orig = components@;
    let mut rest = components;
    let mut stores: Vec<ComponentVec> = Vec::new();
    #[verifier::loop_isolation(false)]
    while rest.len() > 0
        invariant
            stores@.len() + rest@.len() == orig.len(),
            rest@ == orig.subrange(stores@.len() as int, orig.len() as int),
            forall|i: int|
                0 <= i < stores@.len() ==> {
                    &&& (#[trigger] stores@[i]).wf()
                    &&& stores@[i].spec_component_type() == orig[i]
                    &&& stores@[i].spec_component_count() == 0
                    &&& stores@[i].spec_bytes_capacity() == 0
                },
            forall|i: int| 0 <= i < stores@.len() ==> (#[trigger] orig[i]).schema_wf(),
        decreases rest@.len(),
    {
        let ghost done = stores@.len() as int;
        let ct = rest.remove(0);
        proof {
            assert(ct == orig[done]);
            assert(rest@ =~= orig.subrange(done + 1, orig.len() as int));
        }
        match ComponentVec::from(ct) {
            Ok(cv) => {
                stores.push(cv);
            },
            Err(e) => {
                proof {
                    assert(0 <= done < orig.len());
                    assert(!orig[done].schema_wf());
                    assert(!(forall|i: int|
                        0 <= i < orig.len() ==> (#[trigger] orig[i]).schema_wf()));
                }
                return Err(e);
            },
        }
    }
    proof {
        assert(rest@.len() == 0);
        assert(stores@.len() == orig.len());
        assert(forall|i: int| 0 <= i < orig.len() ==> (#[trigger] orig[i]).schema_wf());
    }
    Ok(stores)
}

} // verus!
