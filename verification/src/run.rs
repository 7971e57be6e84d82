//! One reconciliation run, as pure planning: order the discovered paths, keep
//! the eligible ones, and plan each file's documents in sequence until the
//! first fatal load failure. What a run decides is a function of the tree's
//! contents and the discovery cache alone.

use crate::executor::{file_actions_spec, plan_file, DocPlan, DocPlanView};
use crate::filter::{eligible, should_be_applied, FilterConfig};
use crate::manifest::{block_has_identity, document_blocks, load_error_spec, LoadError};
use crate::resolver::{CacheEntryView, DiscoveryCache};
use crate::scanner::{lemma_sorted_arrangement_unique, sort_paths};
use crate::text::{lemma_lex_leq_total_ordering, lex_leq, str_eq};
use vstd::prelude::*;

verus! {

/// The eligibility predicate one configuration induces.
pub open spec fn eligible_pred(ih: bool, exts: Seq<Seq<char>>) -> spec_fn(Seq<char>) -> bool {
    |p: Seq<char>| eligible(p, ih, exts)
}

/// The order one run processes files in: the eligible paths, sorted.
pub open spec fn scan_order(paths: Seq<Seq<char>>, ih: bool, exts: Seq<Seq<char>>) -> Seq<
    Seq<char>,
> {
    paths.filter(eligible_pred(ih, exts)).sort_by(lex_leq())
}

/// The scan order is lexicographically sorted and holds exactly the eligible
/// paths. Being a function of the discovered paths and the configuration
/// alone, it is identical across any two runs over an unchanged tree; by
/// [`lemma_sorted_arrangement_unique`] it is the only sorted arrangement of
/// those paths.
pub proof fn lemma_scan_order_sorted(paths: Seq<Seq<char>>, ih: bool, exts: Seq<Seq<char>>)
    ensures
        vstd::relations::sorted_by(scan_order(paths, ih, exts), lex_leq()),
        scan_order(paths, ih, exts).to_multiset() == paths.filter(
            eligible_pred(ih, exts),
        ).to_multiset(),
{
    lemma_lex_leq_total_ordering();
    paths.filter(eligible_pred(ih, exts)).lemma_sort_by_ensures(lex_leq());
}

/// Keeps the eligible paths and arranges them in scan order.
pub fn plan_paths(paths: &Vec<String>, config: &FilterConfig) -> (r: Vec<String>)
    ensures
        r.deep_view() == scan_order(
            paths.deep_view(),
            config.ignore_hidden_directories,
            config.supported_extensions.deep_view(),
        ),
{
    let ghost pv = paths.deep_view();
    let ghost pred = eligible_pred(
        config.ignore_hidden_directories,
        config.supported_extensions.deep_view(),
    );
    let mut kept: Vec<String> = Vec::new();
    let mut i: usize = 0;
    proof {
        reveal(Seq::filter);
        assert(pv.take(0) =~= Seq::<Seq<char>>::empty());
        assert(kept.deep_view() =~= pv.take(0).filter(pred));
    }
    while i < paths.len()
        invariant
            i <= paths.len(),
            pv == paths.deep_view(),
            pv.len() == paths.len(),
            pred == eligible_pred(
                config.ignore_hidden_directories,
                config.supported_extensions.deep_view(),
            ),
            kept.deep_view() == pv.take(i as int).filter(pred),
        decreases paths.len() - i,
    {
        let ghost kv = kept.deep_view();
        let keep = should_be_applied(paths[i].as_str(), config);
        proof {
            reveal(Seq::filter);
            assert(pv.take(i + 1).drop_last() =~= pv.take(i as int));
            assert(pv.take(i + 1).last() == pv[i as int]);
            assert(keep == pred(pv[i as int]));
        }
        if keep {
            let p = paths[i].clone();
            kept.push(p);
            proof {
                assert(kept.deep_view() =~= kv.push(pv[i as int]));
                assert(pv.take(i + 1).filter(pred) == kv.push(pv[i as int]));
            }
        } else {
            proof {
                assert(pv.take(i + 1).filter(pred) == kv);
            }
        }
        i = i + 1;
    }
    proof {
        assert(pv.take(i as int) =~= pv);
    }
    let r = sort_paths(&kept);
    proof {
        lemma_lex_leq_total_ordering();
        let f = pv.filter(pred);
        f.lemma_sort_by_ensures(lex_leq());
        assert(r.deep_view().to_multiset() == f.sort_by(lex_leq()).to_multiset());
        lemma_sorted_arrangement_unique(r.deep_view(), f.sort_by(lex_leq()));
    }
    r
}

/// One discovered file: its path and its full content.
pub struct ScanFile {
    pub path: String,
    pub content: String,
}

/// Ghost image of a discovered file.
pub struct ScanFileView {
    pub path: Seq<char>,
    pub content: Seq<char>,
}

impl View for ScanFile {
    type V = ScanFileView;

    open spec fn view(&self) -> ScanFileView {
        ScanFileView { path: self.path@, content: self.content@ }
    }
}

impl DeepView for ScanFile {
    type V = ScanFileView;

    open spec fn deep_view(&self) -> ScanFileView {
        self.view()
    }
}

/// The paths the files were discovered under.
pub open spec fn paths_of(files: Seq<ScanFileView>) -> Seq<Seq<char>> {
    files.map_values(|f: ScanFileView| f.path)
}

/// The content the run reads for `p`: the first file under that path, or
/// nothing when the tree holds none.
pub open spec fn lookup_spec(files: Seq<ScanFileView>, p: Seq<char>) -> Seq<char>
    decreases files.len(),
{
    if files.len() == 0 {
        Seq::empty()
    } else if files[0].path == p {
        files[0].content
    } else {
        lookup_spec(files.drop_first(), p)
    }
}

/// Every document of the file under `p` loads with type identity.
pub open spec fn good_file(files: Seq<ScanFileView>, p: Seq<char>) -> bool {
    let blocks = document_blocks(lookup_spec(files, p));
    forall|k: int| 0 <= k < blocks.len() ==> block_has_identity(#[trigger] blocks[k])
}

/// The first position in the scan order whose file fails to load, or -1 when
/// every file loads.
pub open spec fn first_bad_from(files: Seq<ScanFileView>, order: Seq<Seq<char>>, k: int) -> int
    decreases order.len() - k,
{
    if k < 0 || k >= order.len() {
        -1
    } else if !good_file(files, order[k]) {
        k
    } else {
        first_bad_from(files, order, k + 1)
    }
}

/// One file's part of a run plan.
pub struct FilePlan {
    pub path: String,
    pub actions: Vec<DocPlan>,
}

/// Ghost image of a file plan.
pub struct FilePlanView {
    pub path: Seq<char>,
    pub actions: Seq<DocPlanView>,
}

impl View for FilePlan {
    type V = FilePlanView;

    open spec fn view(&self) -> FilePlanView {
        FilePlanView { path: self.path@, actions: self.actions.deep_view() }
    }
}

impl DeepView for FilePlan {
    type V = FilePlanView;

    open spec fn deep_view(&self) -> FilePlanView {
        self.view()
    }
}

/// Why a run stopped: the file it stopped at and the load failure.
pub struct RunFailure {
    pub path: String,
    pub error: LoadError,
}

/// A run's decisions: the files planned in scan order, and the failure that
/// stopped the run early, if one did. Applies for files after a failure are
/// never planned.
pub struct RunPlan {
    pub files: Vec<FilePlan>,
    pub failure: Option<RunFailure>,
}

/// What one file's plan must be.
pub open spec fn file_plan_spec(
    cache: Seq<CacheEntryView>,
    files: Seq<ScanFileView>,
    p: Seq<char>,
) -> FilePlanView {
    FilePlanView { path: p, actions: file_actions_spec(cache, document_blocks(lookup_spec(files, p))) }
}

/// Finds the first file stored under `path`.
fn lookup_content<'a>(files: &'a Vec<ScanFile>, path: &str) -> (r: Option<&'a String>)
    ensures
        match r {
            Some(c) => c@ == lookup_spec(files.deep_view(), path@),
            None => forall|j: int|
                0 <= j < files.deep_view().len() ==> (#[trigger] files.deep_view()[j]).path
                    != path@,
        },
{
    let ghost fv = files.deep_view();
    let n = files.len();
    let mut i: usize = 0;
    proof {
        assert(fv.skip(0) =~= fv);
    }
    while i < n
        invariant
            i <= n,
            n == files.len(),
            fv == files.deep_view(),
            fv.len() == n,
            lookup_spec(fv, path@) == lookup_spec(fv.skip(i as int), path@),
            forall|j: int| 0 <= j < i ==> (#[trigger] fv[j]).path != path@,
        decreases n - i,
    {
        proof {
            assert(fv.skip(i as int)[0] == fv[i as int]);
        }
        if str_eq(files[i].path.as_str(), path) {
            return Some(&files[i].content);
        }
        proof {
            assert(fv.skip(i as int).drop_first() =~= fv.skip(i + 1));
        }
        i = i + 1;
    }
    None
}

/// With no file under `p`, the run reads nothing for it.
proof fn lemma_lookup_miss(files: Seq<ScanFileView>, p: Seq<char>)
    requires
        forall|j: int| 0 <= j < files.len() ==> (#[trigger] files[j]).path != p,
    ensures
        lookup_spec(files, p) == Seq::<char>::empty(),
    decreases files.len(),
{
    if files.len() > 0 {
        assert(files[0].path != p);
        assert forall|j: int|
            0 <= j < files.drop_first().len() implies (#[trigger] files.drop_first()[j]).path
            != p by {
            assert(files.drop_first()[j] == files[j + 1]);
        }
        lemma_lookup_miss(files.drop_first(), p);
    }
}

/// Plans one run over the discovered files: the eligible paths in scan order,
/// each file's documents resolved and targeted, stopping at the first file
/// that fails to load. Nothing after the failure is planned.
pub fn plan_run(files: &Vec<ScanFile>, config: &FilterConfig, cache: &DiscoveryCache) -> (r:
    RunPlan)
    ensures
        ({
            let fv = files.deep_view();
            let order = scan_order(
                paths_of(fv),
                config.ignore_hidden_directories,
                config.supported_extensions.deep_view(),
            );
            let bad = first_bad_from(fv, order, 0);
            &&& r.files.deep_view().len() == (if bad == -1 {
                order.len() as int
            } else {
                bad
            })
            &&& forall|k: int|
                0 <= k < r.files.deep_view().len() ==> (#[trigger] r.files.deep_view()[k])
                    == file_plan_spec(cache@, fv, order[k])
            &&& match r.failure {
                None => bad == -1,
                Some(f) => bad >= 0 && f.path@ == order[bad] && load_error_spec(
                    document_blocks(lookup_spec(fv, order[bad])),
                    f.error,
                ),
            }
        }),
{
    let ghost fv = files.deep_view();
    let mut paths: Vec<String> = Vec::new();
    let mut i: usize = 0;
    proof {
        assert(paths.deep_view() =~= paths_of(fv).take(0));
    }
    while i < files.len()
        invariant
            i <= files.len(),
            fv == files.deep_view(),
            fv.len() == files.len(),
            paths.deep_view() == paths_of(fv).take(i as int),
        decreases files.len() - i,
    {
        let ghost before = paths.deep_view();
        let p = files[i].path.clone();
        paths.push(p);
        proof {
            assert(paths.deep_view() =~= before.push(fv[i as int].path));
            assert(paths_of(fv).take(i + 1) =~= before.push(fv[i as int].path));
        }
        i = i + 1;
    }
    proof {
        assert(paths_of(fv).take(i as int) =~= paths_of(fv));
    }
    let order = plan_paths(&paths, config);
    let ghost ov = order.deep_view();
    let mut plans: Vec<FilePlan> = Vec::new();
    let mut k: usize = 0;
    while k < order.len()
        invariant
            k <= order.len(),
            fv == files.deep_view(),
            ov == order.deep_view(),
            ov.len() == order.len(),
            ov == scan_order(
                paths_of(fv),
                config.ignore_hidden_directories,
                config.supported_extensions.deep_view(),
            ),
            plans.len() == k,
            forall|j: int| 0 <= j < k ==> (#[trigger] plans.deep_view()[j]) == file_plan_spec(
                cache@,
                fv,
                ov[j],
            ),
            first_bad_from(fv, ov, 0) == first_bad_from(fv, ov, k as int),
        decreases order.len() - k,
    {
        let ghost before = plans.deep_view();
        let path = &order[k];
        match lookup_content(files, path.as_str()) {
            None => {
                proof {
                    lemma_lookup_miss(fv, ov[k as int]);
                    assert(crate::manifest::find_sep_from(lookup_spec(fv, ov[k as int]), 0) == -1);
                    assert(document_blocks(lookup_spec(fv, ov[k as int])) =~= Seq::<
                        Seq<char>,
                    >::empty());
                    assert(good_file(fv, ov[k as int]));
                }
                let fp = FilePlan { path: path.clone(), actions: Vec::new() };
                proof {
                    assert(fp@.actions =~= file_plan_spec(cache@, fv, ov[k as int]).actions);
                    assert(fp@ == file_plan_spec(cache@, fv, ov[k as int]));
                }
                plans.push(fp);
                proof {
                    assert(plans.deep_view() =~= before.push(
                        file_plan_spec(cache@, fv, ov[k as int]),
                    ));
                }
            },
            Some(content) => {
                let ghost c = lookup_spec(fv, ov[k as int]);
                match plan_file(content.as_str(), cache) {
                    Ok(actions) => {
                        proof {
                            assert(good_file(fv, ov[k as int]));
                        }
                        let fp = FilePlan { path: path.clone(), actions };
                        proof {
                            assert(fp@ == file_plan_spec(cache@, fv, ov[k as int]));
                        }
                        plans.push(fp);
                        proof {
                            assert(plans.deep_view() =~= before.push(
                                file_plan_spec(cache@, fv, ov[k as int]),
                            ));
                        }
                    },
                    Err(e) => {
                        proof {
                            assert(!good_file(fv, ov[k as int])) by {
                                let blocks = document_blocks(c);
                                assert(load_error_spec(blocks, e));
                                let b = choose|b: int|
                                    #![trigger blocks[b]]
                                    {
                                        &&& 0 <= b < blocks.len()
                                        &&& forall|j: int|
                                            0 <= j < b ==> block_has_identity(
                                                #[trigger] blocks[j],
                                            )
                                        &&& match e {
                                            LoadError::Unparseable { doc_index } => doc_index == b
                                                && !crate::manifest::block_decodes(blocks[b]),
                                            LoadError::MissingTypeMeta { doc_index } => doc_index
                                                == b && crate::manifest::block_decodes(blocks[b])
                                                && !block_has_identity(blocks[b]),
                                        }
                                    };
                                assert(!block_has_identity(blocks[b]));
                            }
                            assert(first_bad_from(fv, ov, k as int) == k);
                        }
                        return RunPlan {
                            files: plans,
                            failure: Some(RunFailure { path: path.clone(), error: e }),
                        };
                    },
                }
            },
        }
        proof {
            assert(first_bad_from(fv, ov, k as int) == first_bad_from(fv, ov, k + 1));
        }
        k = k + 1;
    }
    proof {
        assert(first_bad_from(fv, ov, k as int) == -1);
    }
    RunPlan { files: plans, failure: None }
}

} // verus!
