//! The resource resolver: maps a type identity to a live endpoint descriptor
//! through a discovery cache that is built once per client session and read
//! unchanged by every run.

use crate::manifest::{Gvk, GvkView};
use crate::text::str_eq;
use vstd::prelude::*;

verus! {

/// Scope of a resource type: addressed cluster-wide or within a namespace.
#[derive(Clone, Copy, PartialEq, Eq, Structural, Debug)]
pub enum Scope {
    Cluster,
    Namespaced,
}

/// A resolved, addressable API surface for one resource type: its scope and
/// the plural name under which its endpoint is addressed.
pub struct ResourceEndpoint {
    pub scope: Scope,
    pub plural: String,
}

/// Ghost image of a resource endpoint.
pub struct EndpointView {
    pub scope: Scope,
    pub plural: Seq<char>,
}

impl View for ResourceEndpoint {
    type V = EndpointView;

    open spec fn view(&self) -> EndpointView {
        EndpointView { scope: self.scope, plural: self.plural@ }
    }
}

/// One discovery record: a type identity and the endpoint it resolves to.
pub struct CacheEntry {
    pub gvk: Gvk,
    pub endpoint: ResourceEndpoint,
}

/// Ghost image of a discovery record.
pub struct CacheEntryView {
    pub gvk: GvkView,
    pub endpoint: EndpointView,
}

impl View for CacheEntry {
    type V = CacheEntryView;

    open spec fn view(&self) -> CacheEntryView {
        CacheEntryView { gvk: self.gvk@, endpoint: self.endpoint@ }
    }
}

impl DeepView for CacheEntry {
    type V = CacheEntryView;

    open spec fn deep_view(&self) -> CacheEntryView {
        self.view()
    }
}

/// The discovery cache: the records discovered once at client construction.
/// Runs share it read-only; resolution never rebuilds it.
pub struct DiscoveryCache {
    pub entries: Vec<CacheEntry>,
}

impl View for DiscoveryCache {
    type V = Seq<CacheEntryView>;

    open spec fn view(&self) -> Seq<CacheEntryView> {
        self.entries.deep_view()
    }
}

/// The entry's identity equals the asked-for identity.
pub open spec fn gvk_matches(e: CacheEntryView, g: GvkView) -> bool {
    e.gvk.group == g.group && e.gvk.version == g.version && e.gvk.kind == g.kind
}

/// The endpoint of the first record matching `g`, or `None` when no record
/// matches.
pub open spec fn resolve_spec(entries: Seq<CacheEntryView>, g: GvkView) -> Option<EndpointView>
    decreases entries.len(),
{
    if entries.len() == 0 {
        None
    } else if gvk_matches(entries[0], g) {
        Some(entries[0].endpoint)
    } else {
        resolve_spec(entries.drop_first(), g)
    }
}

/// Resolution succeeds exactly when the cache holds a matching record: a
/// present identity yields an endpoint, an absent one yields `None` — a skip,
/// never a failure.
pub proof fn lemma_resolution_hit_iff_cached(entries: Seq<CacheEntryView>, g: GvkView)
    ensures
        resolve_spec(entries, g) is Some <==> exists|i: int|
            0 <= i < entries.len() && gvk_matches(#[trigger] entries[i], g),
    decreases entries.len(),
{
    if entries.len() == 0 {
    } else if gvk_matches(entries[0], g) {
    } else {
        lemma_resolution_hit_iff_cached(entries.drop_first(), g);
        if resolve_spec(entries, g) is Some {
            let i = choose|i: int|
                0 <= i < entries.drop_first().len() && gvk_matches(
                    #[trigger] entries.drop_first()[i],
                    g,
                );
            assert(entries[i + 1] == entries.drop_first()[i]);
        }
        if exists|i: int| 0 <= i < entries.len() && gvk_matches(#[trigger] entries[i], g) {
            let i = choose|i: int| 0 <= i < entries.len() && gvk_matches(#[trigger] entries[i], g);
            assert(i != 0);
            assert(entries.drop_first()[i - 1] == entries[i]);
        }
    }
}

/// Resolution reads only its arguments: the same cache and identity give the
/// same answer on every call, with no re-query of discovery.
pub proof fn lemma_resolution_repeatable(
    c1: Seq<CacheEntryView>,
    c2: Seq<CacheEntryView>,
    g1: GvkView,
    g2: GvkView,
)
    requires
        c1 == c2,
        g1 == g2,
    ensures
        resolve_spec(c1, g1) == resolve_spec(c2, g2),
{
}

impl DiscoveryCache {
    /// Looks the identity up in the cache. Returns the first matching
    /// record's endpoint, or `None` — a non-fatal miss — when the cache holds
    /// no record for it.
    pub fn resolve(&self, gvk: &Gvk) -> (r: Option<ResourceEndpoint>)
        ensures
            match r {
                Some(ep) => resolve_spec(self@, gvk@) == Some(ep@),
                None => resolve_spec(self@, gvk@) is None,
            },
    {
        let n = self.entries.len();
        let mut i: usize = 0;
        proof {
            assert(self@.skip(0) =~= self@);
        }
        while i < n
            invariant
                i <= n,
                n == self.entries.len(),
                self@.len() == n,
                resolve_spec(self@, gvk@) == resolve_spec(self@.skip(i as int), gvk@),
            decreases n - i,
        {
            let e = &self.entries[i];
            proof {
                assert(self@.skip(i as int)[0] == self@[i as int]);
                assert(self@[i as int] == e@);
            }
            let hit = str_eq(e.gvk.group.as_str(), gvk.group.as_str()) && str_eq(
                e.gvk.version.as_str(),
                gvk.version.as_str(),
            ) && str_eq(e.gvk.kind.as_str(), gvk.kind.as_str());
            if hit {
                assert(gvk_matches(self@[i as int], gvk@));
                let ep = ResourceEndpoint {
                    scope: e.endpoint.scope,
                    plural: e.endpoint.plural.clone(),
                };
                assert(ep@ == self@[i as int].endpoint);
                return Some(ep);
            }
            proof {
                assert(!gvk_matches(self@[i as int], gvk@));
                assert(self@.skip(i as int).drop_first() =~= self@.skip(i + 1));
            }
            i = i + 1;
        }
        proof {
            assert(self@.skip(i as int).len() == 0);
        }
        None
    }
}

} // verus!
