//! A local, filesystem-backed key/value cache with per-item time-to-live
//! expiry. Values live as JSON documents under
//! `{root}/{instance}/{namespace}/{name}-cache.json`, each beside a
//! metadata sidecar `{name}-cache-metadata.json` recording creation time
//! and TTL. Reads are lazy about expiry and self-healing: an expired,
//! orphaned or corrupt entry resolves to a miss and its files are removed.
//!
//! This crate is the cache's core, verified: path derivation, the metadata
//! codec, the expiry rule, and the decisions `store` and `get` take. The
//! filesystem caller reports what the disk shows, receives a plan, and
//! carries it out; `laws` proves what the cache guarantees over a disk
//! modelled as a map from paths to file contents.

use vstd::prelude::*;

pub mod laws;
pub mod metadata;
pub mod service;

verus! {

/// Sample record of the kind a caller would cache: a single text field.
#[derive(Debug, PartialEq)]
pub struct Demo {
    pub login: String,
}

} // verus!
