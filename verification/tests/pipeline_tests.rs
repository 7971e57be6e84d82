use kapplier::executor::{ApplyTarget, DocAction};
use kapplier::filter::FilterConfig;
use kapplier::manifest::{Gvk, LoadError};
use kapplier::resolver::{CacheEntry, DiscoveryCache, ResourceEndpoint, Scope};
use kapplier::run::{plan_paths, plan_run, RunPlan, ScanFile};

fn config() -> FilterConfig {
    FilterConfig {
        ignore_hidden_directories: true,
        supported_extensions: vec![String::from("yml"), String::from("yaml")],
    }
}

fn cache() -> DiscoveryCache {
    DiscoveryCache {
        entries: vec![
            CacheEntry {
                gvk: Gvk { group: String::new(), version: "v1".into(), kind: "ConfigMap".into() },
                endpoint: ResourceEndpoint {
                    scope: Scope::Namespaced,
                    plural: "configmaps".into(),
                },
            },
            CacheEntry {
                gvk: Gvk { group: String::new(), version: "v1".into(), kind: "Namespace".into() },
                endpoint: ResourceEndpoint { scope: Scope::Cluster, plural: "namespaces".into() },
            },
        ],
    }
}

fn file(path: &str, content: &str) -> ScanFile {
    ScanFile { path: path.into(), content: content.into() }
}

fn apply_count(plan: &RunPlan) -> usize {
    plan.files
        .iter()
        .map(|f| {
            f.actions
                .iter()
                .filter(|a| matches!(a.action, DocAction::Apply(_, _)))
                .count()
        })
        .sum()
}

#[test]
fn eligible_paths_come_out_sorted() {
    let paths = vec![
        String::from("repo/c.yaml"),
        String::from("repo/.git/a.yaml"),
        String::from("repo/b.txt"),
        String::from("repo/a.yaml"),
    ];
    let order = plan_paths(&paths, &config());
    assert_eq!(order, vec![String::from("repo/a.yaml"), String::from("repo/c.yaml")]);
}

#[test]
fn one_apply_for_the_yaml_file_only() {
    // A tree holding one valid namespaced document and one ignored file.
    let files = vec![
        file(
            "repo/a.yaml",
            "apiVersion: v1\nkind: ConfigMap\nmetadata:\n  name: a\n  namespace: default\n",
        ),
        file("repo/b.txt", "not a manifest"),
    ];
    let plan = plan_run(&files, &config(), &cache());
    assert!(plan.failure.is_none());
    assert_eq!(plan.files.len(), 1);
    assert_eq!(plan.files[0].path, "repo/a.yaml");
    assert_eq!(apply_count(&plan), 1);
}

#[test]
fn hidden_directory_file_is_never_applied() {
    // Hidden-directory exclusion on: nothing of .git is even planned.
    let files = vec![file(
        ".git/config.yaml",
        "apiVersion: v1\nkind: ConfigMap\nmetadata:\n  name: a\n",
    )];
    let plan = plan_run(&files, &config(), &cache());
    assert!(plan.failure.is_none());
    assert!(plan.files.is_empty());
    assert_eq!(apply_count(&plan), 0);
}

#[test]
fn unknown_kind_is_skipped_and_the_run_succeeds() {
    // Two documents: the first of an unknown kind, the second valid.
    let files = vec![file(
        "repo/two.yaml",
        "apiVersion: acme.example/v1\nkind: Widget\nmetadata:\n  name: w\n---\napiVersion: v1\nkind: ConfigMap\nmetadata:\n  name: c\n  namespace: default\n",
    )];
    let plan = plan_run(&files, &config(), &cache());
    assert!(plan.failure.is_none());
    assert_eq!(plan.files.len(), 1);
    assert_eq!(plan.files[0].actions.len(), 2);
    assert!(matches!(plan.files[0].actions[0].action, DocAction::Skip));
    assert!(matches!(plan.files[0].actions[1].action, DocAction::Apply(_, _)));
    assert_eq!(apply_count(&plan), 1);
}

#[test]
fn missing_identity_fails_the_run_with_no_applies() {
    let files = vec![file("repo/bad.yaml", "foo: bar\n")];
    let plan = plan_run(&files, &config(), &cache());
    match &plan.failure {
        Some(f) => {
            assert_eq!(f.path, "repo/bad.yaml");
            assert!(matches!(f.error, LoadError::MissingTypeMeta { doc_index: 0 }));
        },
        None => panic!("the run must be reported as failed"),
    }
    assert!(plan.files.is_empty());
    assert_eq!(apply_count(&plan), 0);
}

#[test]
fn failure_stops_later_files_but_keeps_earlier_plans() {
    let files = vec![
        file(
            "repo/a.yaml",
            "apiVersion: v1\nkind: ConfigMap\nmetadata:\n  name: a\n",
        ),
        file("repo/m.yaml", "kind: [broken\n"),
        file(
            "repo/z.yaml",
            "apiVersion: v1\nkind: ConfigMap\nmetadata:\n  name: z\n",
        ),
    ];
    let plan = plan_run(&files, &config(), &cache());
    match &plan.failure {
        Some(f) => assert_eq!(f.path, "repo/m.yaml"),
        None => panic!("the malformed file must fail the run"),
    }
    assert_eq!(plan.files.len(), 1);
    assert_eq!(plan.files[0].path, "repo/a.yaml");
}

#[test]
fn cluster_scoped_document_targets_the_cluster_endpoint() {
    // The document names a namespace, but the type is cluster-scoped.
    let files = vec![file(
        "repo/ns.yaml",
        "apiVersion: v1\nkind: Namespace\nmetadata:\n  name: team\n  namespace: ignored\n",
    )];
    let plan = plan_run(&files, &config(), &cache());
    assert!(plan.failure.is_none());
    match &plan.files[0].actions[0].action {
        DocAction::Apply(ep, target) => {
            assert_eq!(ep.scope, Scope::Cluster);
            assert_eq!(ep.plural, "namespaces");
            assert!(matches!(target, ApplyTarget::Cluster));
        },
        DocAction::Skip => panic!("the namespace kind is cached and must resolve"),
    }
}

#[test]
fn parsed_fields_reach_the_plan() {
    // The decoded document, not the raw text, feeds the plan: its name and
    // namespace are read out of the YAML.
    let files = vec![file(
        "repo/a.yaml",
        "apiVersion: v1\nkind: ConfigMap\nmetadata:\n  name: fromyaml\n  namespace: ns1\n",
    )];
    let plan = plan_run(&files, &config(), &cache());
    let doc = &plan.files[0].actions[0].doc;
    assert_eq!(doc.name, "fromyaml");
    assert_eq!(doc.namespace, Some(String::from("ns1")));
    assert_eq!(doc.gvk.kind, "ConfigMap");
}
