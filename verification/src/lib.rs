//! Resolves a manifest's externally declared package dependencies against a
//! remote package registry and renders a deterministic lock document
//! recording the resolved identities.
//!
//! The pipeline is strictly sequential: `manifest` parses the dependency
//! declarations, `collect` merges the two declaration groups into one
//! mapping, `registry` builds the batched lookup request and decodes the
//! registry's response, and `lock` renders the resolved records into the
//! canonical lock document.  `resolver` ties the stages together; the HTTP
//! call itself is the caller's, handed in as an opaque outcome.
use vstd::prelude::*;

pub mod bytes;
pub mod collect;
pub mod lock;
pub mod manifest;
pub mod registry;
pub mod resolver;

verus! {

} // verus!
