//! The dependency resolution pipeline: manifest text in, canonical lock
//! bytes out.  Strictly sequential: parse the declarations, merge them into
//! one mapping, build the batched registry request, interpret the registry's
//! outcome, and render the lock document.  The registry call itself is a
//! caller-supplied outcome: the pipeline only decides what every outcome
//! means.
use crate::collect::{collect, collect_spec, lemma_collect_empty};
use crate::lock::{record_order, render_lock, render_lock_spec};
use crate::manifest::{
    decls_view, kw_movey, or_empty, parse_manifest, parse_manifest_spec, structure_spec,
    DependencyDeclaration, ManifestError, ResolverView,
};
use crate::registry::{
    build_request, covers, decode_response, decode_response_spec, records_view,
    render_request_spec, response_covers, RecordView, ResolveError, ResolvedDependency,
};
use vstd::prelude::*;

verus! {

/// The pipeline's state: the merged name-to-scheme mapping parsed from the
/// manifest, and the records the registry resolved for it.
pub struct MovePackageResolver {
    pub deps_map: Vec<DependencyDeclaration>,
    pub deps_resolved: Vec<ResolvedDependency>,
}

impl MovePackageResolver {
    /// A fresh pipeline with nothing parsed and nothing resolved.
    pub fn new() -> (r: MovePackageResolver)
        ensures
            r.deps_map@.len() == 0,
            r.deps_resolved@.len() == 0,
    {
        MovePackageResolver { deps_map: Vec::new(), deps_resolved: Vec::new() }
    }

    /// Parses the manifest text and stores the merged mapping of both
    /// declaration groups.  Exactly the manifests `parse_manifest_spec`
    /// accepts succeed; on failure the error is the one the spec names and
    /// the pipeline state is unchanged.
    pub fn parse_deps_from_toml(&mut self, toml_content: &[u8]) -> (r: Result<(), ManifestError>)
        ensures
            final(self).deps_resolved == old(self).deps_resolved,
            match r {
                Ok(()) => parse_manifest_spec(toml_content@) is Ok && decls_view(
                    final(self).deps_map@,
                ) == collect_spec(parse_manifest_spec(toml_content@)->Ok_0),
                Err(e) => parse_manifest_spec(toml_content@) == Err::<
                    ResolverView,
                    ManifestError,
                >(e) && final(self).deps_map == old(self).deps_map,
            },
    {
        match parse_manifest(toml_content) {
            Ok(d) => {
                self.deps_map = collect(&d);
                Ok(())
            },
            Err(e) => Err(e),
        }
    }

    /// Builds the batched resolution request for the current mapping: the
    /// JSON document `{"schemes":[...]}` with the scheme values only.
    pub fn build_resolution_request(&self) -> (r: Vec<u8>)
        ensures
            r@ == render_request_spec(decls_view(self.deps_map@)),
    {
        build_request(&self.deps_map)
    }

    /// Interprets one registry outcome and stores the resolved records.
    /// `None` stands for a transport failure; `Some` carries the response
    /// body, whatever its shape.  Success means the body decoded into
    /// records and every plain scheme of the mapping was answered under its
    /// identifier; every other
    /// outcome is the single opaque resolution error, with the state
    /// unchanged.
    pub fn resolve_movey_deps(&mut self, response: Option<&[u8]>) -> (r: Result<(), ResolveError>)
        ensures
            final(self).deps_map == old(self).deps_map,
            match r {
                Ok(()) => response is Some && decode_response_spec(response->Some_0@) == Some(
                    records_view(final(self).deps_resolved@),
                ) && covers(
                    records_view(final(self).deps_resolved@),
                    decls_view(old(self).deps_map@),
                ),
                Err(e) => e == ResolveError::Unexpected && final(self).deps_resolved == old(
                    self,
                ).deps_resolved && (match response {
                    None => true,
                    Some(b) => match decode_response_spec(b@) {
                        None => true,
                        Some(rs) => !covers(rs, decls_view(old(self).deps_map@)),
                    },
                }),
            },
    {
        match response {
            None => Err(ResolveError::Unexpected),
            Some(body) => match decode_response(body) {
                Err(e) => Err(e),
                Ok(records) => {
                    if response_covers(&records, &self.deps_map) {
                        self.deps_resolved = records;
                        Ok(())
                    } else {
                        Err(ResolveError::Unexpected)
                    }
                },
            },
        }
    }

    /// Renders the canonical lock document for the resolved records: the
    /// records in the lock writer's total order, one `[[package]]` block
    /// each, scheme omitted.
    pub fn generate_lock_toml_content(&self) -> (r: Vec<u8>)
        ensures
            r@ == render_lock_spec(records_view(self.deps_resolved@)),
    {
        render_lock(&self.deps_resolved)
    }
}

/// A structurally valid manifest that declares any resolver other than the
/// supported one is refused outright with `UnsupportedResolver` — parsing
/// fails before any request is built, so no registry call is attempted.
pub proof fn lemma_foreign_resolver_refused(text: Seq<u8>)
    requires
        structure_spec(text) is Ok,
        structure_spec(text)->Ok_0.resolver is Some,
        structure_spec(text)->Ok_0.resolver->Some_0 != kw_movey(),
    ensures
        parse_manifest_spec(text) == Err::<ResolverView, ManifestError>(
            ManifestError::UnsupportedResolver,
        ),
{
}

/// A manifest with zero dependency declarations merges to the empty mapping,
/// and the lock writer renders the empty record set as a document with zero
/// package entries.
pub proof fn lemma_empty_manifest_empty_lock(m: ResolverView)
    requires
        or_empty(m.packages).len() == 0,
        or_empty(m.onchain).len() == 0,
    ensures
        collect_spec(m).len() == 0,
        render_lock_spec(Seq::<RecordView>::empty()) == Seq::<u8>::empty(),
{
    broadcast use vstd::seq_lib::group_to_multiset_ensures;

    lemma_collect_empty(m);
    crate::lock::lemma_record_order_total();
    Seq::<RecordView>::empty().lemma_sort_by_ensures(record_order());
    let s = Seq::<RecordView>::empty().sort_by(record_order());
    assert(s.to_multiset() =~= Seq::<RecordView>::empty().to_multiset());
    assert(Seq::<RecordView>::empty().len() == Seq::<RecordView>::empty().to_multiset().len());
    assert(s.len() == s.to_multiset().len());
    assert(s.len() == 0);
}

} // verus!
