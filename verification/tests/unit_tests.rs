use kapplier::executor::{select_target, ApplyTarget};
use kapplier::manifest::{load_manifests, split_documents, LoadError};
use kapplier::metrics::MetricsRecorder;
use kapplier::resolver::{CacheEntry, DiscoveryCache, ResourceEndpoint, Scope};
use kapplier::manifest::Gvk;
use kapplier::scanner::sort_paths;
use kapplier::text::{str_eq, str_le};
use kapplier::trigger::{event_demands_scan, ChangeEventKind, ChangePoller, TriggerKind};

fn gvk(group: &str, version: &str, kind: &str) -> Gvk {
    Gvk { group: group.into(), version: version.into(), kind: kind.into() }
}

fn cache_with(entries: Vec<CacheEntry>) -> DiscoveryCache {
    DiscoveryCache { entries }
}

#[test]
fn string_comparison_orders_lexicographically() {
    assert!(str_le("a.yaml", "b.yaml"));
    assert!(!str_le("b.yaml", "a.yaml"));
    assert!(str_le("abc", "abc"));
    assert!(str_le("ab", "abc"));
    assert!(!str_le("abc", "ab"));
    assert!(str_eq("same", "same"));
    assert!(!str_eq("same", "sama"));
}

#[test]
fn sort_paths_orders_and_keeps_everything() {
    let input = vec![
        String::from("repo/b.yaml"),
        String::from("repo/a/x.yaml"),
        String::from("repo/a.yaml"),
        String::from("repo/b.yaml"),
    ];
    let sorted = sort_paths(&input);
    assert_eq!(
        sorted,
        vec![
            String::from("repo/a.yaml"),
            String::from("repo/a/x.yaml"),
            String::from("repo/b.yaml"),
            String::from("repo/b.yaml"),
        ]
    );
}

#[test]
fn sort_paths_is_deterministic_across_runs() {
    let tree = vec![
        String::from("repo/z.yaml"),
        String::from("repo/m.yaml"),
        String::from("repo/a.yaml"),
    ];
    let first = sort_paths(&tree);
    let second = sort_paths(&tree);
    assert_eq!(first, second);
    for w in first.windows(2) {
        assert!(w[0] <= w[1]);
    }
}

#[test]
fn split_keeps_separated_blocks() {
    let content = "a: 1\n---\nb: 2\n";
    let blocks = split_documents(content);
    assert_eq!(blocks, vec![String::from("a: 1"), String::from("b: 2\n")]);
}

#[test]
fn split_drops_blank_blocks_and_leading_separator() {
    let content = "---\na: 1\n---\n\n---\nb: 2";
    let blocks = split_documents(content);
    assert_eq!(blocks, vec![String::from("a: 1"), String::from("b: 2")]);
}

#[test]
fn split_without_separator_is_one_block() {
    let blocks = split_documents("only: doc");
    assert_eq!(blocks, vec![String::from("only: doc")]);
    let none = split_documents("   \n\t\n");
    assert!(none.is_empty());
    let empty = split_documents("");
    assert!(empty.is_empty());
}

#[test]
fn trailing_separator_leaves_no_extra_block() {
    let blocks = split_documents("a: 1\n---");
    assert_eq!(blocks, vec![String::from("a: 1")]);
    let more = split_documents("a: 1\n---\n");
    assert_eq!(more, vec![String::from("a: 1")]);
}

#[test]
fn dashes_inside_a_line_do_not_separate() {
    let blocks = split_documents("a: x---y\nb: --- not a line\n");
    assert_eq!(blocks.len(), 1);
}

#[test]
fn load_yields_one_document_per_block() {
    let content = "apiVersion: v1\nkind: ConfigMap\nmetadata:\n  name: one\n---\napiVersion: apps/v1\nkind: Deployment\nmetadata:\n  name: two\n  namespace: prod\n";
    let docs = load_manifests(content).expect("both documents carry identity");
    assert_eq!(docs.len(), 2);
    assert_eq!(docs[0].gvk.group, "");
    assert_eq!(docs[0].gvk.version, "v1");
    assert_eq!(docs[0].gvk.kind, "ConfigMap");
    assert_eq!(docs[0].name, "one");
    assert_eq!(docs[0].namespace, None);
    assert_eq!(docs[1].gvk.group, "apps");
    assert_eq!(docs[1].gvk.version, "v1");
    assert_eq!(docs[1].gvk.kind, "Deployment");
    assert_eq!(docs[1].name, "two");
    assert_eq!(docs[1].namespace, Some(String::from("prod")));
}

#[test]
fn load_fails_whole_file_on_missing_identity() {
    let content = "apiVersion: v1\nkind: ConfigMap\nmetadata:\n  name: ok\n---\nfoo: bar\n";
    match load_manifests(content) {
        Err(LoadError::MissingTypeMeta { doc_index }) => assert_eq!(doc_index, 1),
        other => panic!("expected a missing-identity failure, got {:?}", other.is_ok()),
    }
}

#[test]
fn load_fails_whole_file_on_unparseable_block() {
    let content = "apiVersion: v1\nkind: ConfigMap\nmetadata: [unclosed\n";
    match load_manifests(content) {
        Err(LoadError::Unparseable { doc_index }) => assert_eq!(doc_index, 0),
        other => panic!("expected a parse failure, got {:?}", other.is_ok()),
    }
}

#[test]
fn load_uses_generate_name_when_name_is_absent() {
    let content = "apiVersion: v1\nkind: ConfigMap\nmetadata:\n  generateName: stem-\n";
    let docs = load_manifests(content).expect("identity is present");
    assert_eq!(docs.len(), 1);
    assert_eq!(docs[0].name, "stem-");
}

#[test]
fn resolver_hit_returns_endpoint_and_miss_returns_none() {
    let cache = cache_with(vec![
        CacheEntry {
            gvk: gvk("", "v1", "ConfigMap"),
            endpoint: ResourceEndpoint { scope: Scope::Namespaced, plural: "configmaps".into() },
        },
        CacheEntry {
            gvk: gvk("", "v1", "Namespace"),
            endpoint: ResourceEndpoint { scope: Scope::Cluster, plural: "namespaces".into() },
        },
    ]);
    let hit = cache.resolve(&gvk("", "v1", "ConfigMap")).expect("cached identity resolves");
    assert_eq!(hit.scope, Scope::Namespaced);
    assert_eq!(hit.plural, "configmaps");
    // Repeated calls answer the same, with no re-query of anything.
    let again = cache.resolve(&gvk("", "v1", "ConfigMap")).unwrap();
    assert_eq!(again.scope, hit.scope);
    assert_eq!(again.plural, hit.plural);
    // An absent identity is a skip, not a failure.
    assert!(cache.resolve(&gvk("acme.example", "v1", "Widget")).is_none());
}

#[test]
fn target_selection_follows_scope_and_namespace() {
    let ns = Some(String::from("prod"));
    // Cluster-scoped: cluster-wide even when the document has a namespace.
    assert!(matches!(select_target(Scope::Cluster, &ns, false), ApplyTarget::Cluster));
    // Namespace-scoped with a namespace: that namespace.
    match select_target(Scope::Namespaced, &ns, false) {
        ApplyTarget::Namespaced(n) => assert_eq!(n, "prod"),
        _ => panic!("expected the document's namespace"),
    }
    // Namespace-scoped without a namespace: the configured default.
    assert!(matches!(
        select_target(Scope::Namespaced, &None, false),
        ApplyTarget::DefaultNamespaced
    ));
    // The all flag forces the cluster-wide endpoint.
    assert!(matches!(select_target(Scope::Namespaced, &ns, true), ApplyTarget::Cluster));
}

#[test]
fn recorder_counts_and_updates_latency_per_label() {
    let mut rec = MetricsRecorder::new();
    rec.record("repo/a.yaml", true, 120);
    rec.record("repo/a.yaml", true, 80);
    rec.record("repo/a.yaml", false, 200);
    rec.record("repo/b.yaml", true, 10);
    let samples = rec.samples();
    assert_eq!(samples.len(), 3);
    assert_eq!(samples[0].path, "repo/a.yaml");
    assert!(samples[0].success);
    assert_eq!(samples[0].count, 2);
    assert_eq!(samples[0].last_latency_ms, 80);
    assert!(!samples[1].success);
    assert_eq!(samples[1].count, 1);
    assert_eq!(samples[2].path, "repo/b.yaml");
}

#[test]
fn poller_fires_only_on_change() {
    let mut poller = ChangePoller::new();
    assert!(!poller.observe(String::from("rev-1")));
    assert!(!poller.observe(String::from("rev-1")));
    assert!(poller.observe(String::from("rev-2")));
    assert!(!poller.observe(String::from("rev-2")));
}

#[test]
fn access_and_other_events_are_filtered() {
    assert!(!event_demands_scan(ChangeEventKind::Access));
    assert!(!event_demands_scan(ChangeEventKind::Other));
    assert!(event_demands_scan(ChangeEventKind::Create));
    assert!(event_demands_scan(ChangeEventKind::Modify));
    assert!(event_demands_scan(ChangeEventKind::Remove));
}

#[test]
fn trigger_labels_name_each_driver() {
    assert_eq!(TriggerKind::Full.label(), "full");
    assert_eq!(TriggerKind::Quick.label(), "quick");
    assert_eq!(TriggerKind::Webhook.label(), "webhook");
}
