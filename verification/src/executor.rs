//! The apply executor's endpoint policy: which endpoint one conflict-aware
//! apply operation must target, given the resolved scope and the document's
//! namespace, and the per-document plan a file's documents give rise to.

use crate::manifest::{
    block_has_identity, doc_of_block, document_blocks, load_error_spec, load_manifests, DocView,
    LoadError, ManifestDocument,
};
use crate::resolver::{resolve_spec, CacheEntryView, DiscoveryCache, EndpointView,
    ResourceEndpoint, Scope};
use vstd::prelude::*;

verus! {

/// Where one apply operation is addressed: the cluster-wide endpoint, an
/// explicit namespace's endpoint, or the caller's configured default
/// namespace.
pub enum ApplyTarget {
    Cluster,
    Namespaced(String),
    DefaultNamespaced,
}

/// Ghost image of an apply target.
pub enum TargetView {
    Cluster,
    Namespaced(Seq<char>),
    DefaultNamespaced,
}

impl View for ApplyTarget {
    type V = TargetView;

    open spec fn view(&self) -> TargetView {
        match self {
            ApplyTarget::Cluster => TargetView::Cluster,
            ApplyTarget::Namespaced(n) => TargetView::Namespaced(n@),
            ApplyTarget::DefaultNamespaced => TargetView::DefaultNamespaced,
        }
    }
}

/// The endpoint selection policy. A cluster-scoped type is addressed
/// cluster-wide whatever namespace the document carries (`all` forces the
/// cluster-wide endpoint as well); a namespace-scoped type is addressed in
/// the document's namespace when it has one, else in the default namespace.
pub open spec fn select_target_spec(scope: Scope, ns: Option<Seq<char>>, all: bool) -> TargetView {
    if scope is Cluster || all {
        TargetView::Cluster
    } else {
        match ns {
            Some(n) => TargetView::Namespaced(n),
            None => TargetView::DefaultNamespaced,
        }
    }
}

/// Cluster-scoped types always go to the cluster-wide endpoint, even when the
/// document names a namespace; namespace-scoped types go to the document's
/// namespace when present, and to the configured default otherwise.
pub proof fn lemma_endpoint_selection_policy(ns: Option<Seq<char>>, all: bool)
    ensures
        select_target_spec(Scope::Cluster, ns, all) == TargetView::Cluster,
        (ns is Some && !all) ==> select_target_spec(Scope::Namespaced, ns, all)
            == TargetView::Namespaced(ns->0),
        (ns is None && !all) ==> select_target_spec(Scope::Namespaced, ns, all)
            == TargetView::DefaultNamespaced,
{
}

/// Chooses the endpoint one apply operation must target.
pub fn select_target(scope: Scope, namespace: &Option<String>, all: bool) -> (t: ApplyTarget)
    ensures
        t@ == select_target_spec(scope, namespace.deep_view(), all),
{
    match scope {
        Scope::Cluster => ApplyTarget::Cluster,
        Scope::Namespaced => {
            if all {
                ApplyTarget::Cluster
            } else {
                match namespace {
                    Some(n) => ApplyTarget::Namespaced(n.clone()),
                    None => ApplyTarget::DefaultNamespaced,
                }
            }
        },
    }
}

/// What one document's apply step is: skipped (its type identity is unknown
/// to discovery — a non-fatal miss) or applied at a resolved endpoint.
pub enum DocAction {
    Skip,
    Apply(ResourceEndpoint, ApplyTarget),
}

/// Ghost image of a document's action.
pub enum ActionView {
    Skip,
    Apply(EndpointView, TargetView),
}

impl View for DocAction {
    type V = ActionView;

    open spec fn view(&self) -> ActionView {
        match self {
            DocAction::Skip => ActionView::Skip,
            DocAction::Apply(ep, t) => ActionView::Apply(ep@, t@),
        }
    }
}

/// One document together with its planned action.
pub struct DocPlan {
    pub doc: ManifestDocument,
    pub action: DocAction,
}

/// Ghost image of a document plan.
pub struct DocPlanView {
    pub doc: DocView,
    pub action: ActionView,
}

impl View for DocPlan {
    type V = DocPlanView;

    open spec fn view(&self) -> DocPlanView {
        DocPlanView { doc: self.doc@, action: self.action@ }
    }
}

impl DeepView for DocPlan {
    type V = DocPlanView;

    open spec fn deep_view(&self) -> DocPlanView {
        self.view()
    }
}

/// The action a document gets: a resolution miss is skipped, a resolved
/// document is applied at the endpoint the policy selects.
pub open spec fn action_spec(cache: Seq<CacheEntryView>, d: DocView) -> ActionView {
    match resolve_spec(cache, d.gvk) {
        None => ActionView::Skip,
        Some(ep) => ActionView::Apply(ep, select_target_spec(ep.scope, d.namespace, false)),
    }
}

/// The plan one well-formed file gives rise to: each of its documents with
/// that document's action.
pub open spec fn file_actions_spec(cache: Seq<CacheEntryView>, blocks: Seq<Seq<char>>) -> Seq<
    DocPlanView,
> {
    Seq::new(
        blocks.len(),
        |k: int| DocPlanView { doc: doc_of_block(blocks[k]), action: action_spec(cache, doc_of_block(blocks[k])) },
    )
}

/// Plans one file: loads its documents, resolves each against the cache, and
/// selects each resolved document's endpoint. A load failure fails the whole
/// file and plans nothing of it.
pub fn plan_file(content: &str, cache: &DiscoveryCache) -> (r: Result<Vec<DocPlan>, LoadError>)
    ensures
        match r {
            Ok(plans) => {
                &&& forall|k: int|
                    0 <= k < document_blocks(content@).len() ==> block_has_identity(
                        #[trigger] document_blocks(content@)[k],
                    )
                &&& plans.deep_view() == file_actions_spec(cache@, document_blocks(content@))
            },
            Err(e) => load_error_spec(document_blocks(content@), e),
        },
{
    let ghost blocks = document_blocks(content@);
    match load_manifests(content) {
        Err(e) => Err(e),
        Ok(docs) => {
            let ghost dv = docs.deep_view();
            let mut rest = docs;
            let mut plans: Vec<DocPlan> = Vec::new();
            proof {
                assert(rest.deep_view() =~= dv.skip(0));
            }
            while rest.len() > 0
                invariant
                    dv.len() == blocks.len(),
                    plans.len() + rest.len() == dv.len(),
                    rest.deep_view() == dv.skip(plans.len() as int),
                    blocks == document_blocks(content@),
                    forall|k: int| 0 <= k < blocks.len() ==> (#[trigger] dv[k]) == doc_of_block(
                        blocks[k],
                    ),
                    forall|k: int| 0 <= k < plans.len() ==> (#[trigger] plans.deep_view()[k])
                        == (DocPlanView { doc: dv[k], action: action_spec(cache@, dv[k]) }),
                decreases rest.len(),
            {
                let ghost pv = plans.deep_view();
                let ghost i = plans@.len() as int;
                let d = rest.remove(0);
                proof {
                    assert(rest.deep_view() =~= dv.skip(i).remove(0));
                    assert(dv.skip(i).remove(0) =~= dv.skip(i + 1));
                    assert(d@ == dv.skip(i)[0]);
                    assert(d@ == dv[i]);
                }
                let action = match cache.resolve(&d.gvk) {
                    None => DocAction::Skip,
                    Some(ep) => {
                        let t = select_target(ep.scope, &d.namespace, false);
                        DocAction::Apply(ep, t)
                    },
                };
                proof {
                    assert(d.namespace.deep_view() == d@.namespace);
                    assert(action@ == action_spec(cache@, d@));
                }
                let plan = DocPlan { doc: d, action };
                plans.push(plan);
                proof {
                    assert(plans.deep_view() =~= pv.push(plan@));
                }
            }
            proof {
                assert(plans.deep_view() =~= file_actions_spec(cache@, blocks));
            }
            Ok(plans)
        },
    }
}

} // verus!
