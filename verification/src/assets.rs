//! Asset metadata shipped in a compiled application header: directives for
//! when an asset is loaded and how long it stays cached, plus its index.
//! The storage core never interprets these; they are carried for the asset
//! subsystem.
use vstd::prelude::*;

use crate::value::AnyValue;
use core::hash::BuildHasherDefault;
use core::time::Duration;
use fxhash::FxHasher;
use std::collections::HashMap;

verus! {

/// Relies on fxhash::FxHasher as an opaque hasher state; no hashing is
/// performed by this crate's own logic.
#[verifier::external_type_specification]
#[verifier::external_body]
pub struct ExFxHasher(FxHasher);

/// Relies on core::hash::BuildHasherDefault as an opaque hasher factory;
/// it only selects which hasher the header's maps use.
#[verifier::external_type_specification]
#[verifier::external_body]
#[verifier::reject_recursive_types(H)]
pub struct ExBuildHasherDefault<H>(BuildHasherDefault<H>);

#[derive(PartialEq, Eq, Hash, Debug, Clone, Copy)]
pub enum LoadDirective {
    /// Loads the asset at startup
    Immediate,
    /// Loads the asset when it is needed
    WhenNeeded,
}

#[derive(PartialEq, Eq, Hash, Debug, Clone, Copy)]
pub enum CacheDirective {
    /// Never caches the asset
    DontCache,
    /// Caches the asset until this amount of time has passed since the last access
    Cache(Duration),
    /// Caches the asset until the application terminates
    CacheForever,
}

pub struct StaticAssetHeader {
    pub load_directive: LoadDirective,
    pub cache_directive: CacheDirective,
    pub index: u64,
}

#[derive(PartialEq, Eq, PartialOrd, Ord, Hash, Debug, Clone, Copy)]
pub struct StaticAssetId(pub u32);

pub struct DynamicAssets {
    pub assets: HashMap<String, AnyValue, BuildHasherDefault<FxHasher>>,
}

} // verus!
