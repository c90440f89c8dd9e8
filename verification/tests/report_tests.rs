use about_features::classify::classify;
use about_features::classify::classify_features;
use about_features::model::ClassifyError;
use about_features::model::FeatureDecl;
use about_features::model::Graph;
use about_features::model::Node;
use about_features::model::Package;
use about_features::model::FeatureSet;
use about_features::model::ReportEntry;
use about_features::model::UsageSet;
use about_features::render::serialize_report;

fn decl(name: &str, targets: &[&str]) -> FeatureDecl {
    FeatureDecl {
        name: name.to_string(),
        targets: targets.iter().map(|t| t.to_string()).collect(),
    }
}

fn package(id: &str, name: &str, version: &str, features: Vec<FeatureDecl>) -> Package {
    Package {
        id: id.to_string(),
        name: name.to_string(),
        version: version.to_string(),
        features,
        source_root: None,
    }
}

fn names(items: &[&str]) -> Vec<String> {
    items.iter().map(|s| s.to_string()).collect()
}

#[test]
fn single_package_unused_and_dangling() {
    // One package declaring {a: [], b: ["a"]} with only b activated.
    let pkg = package(
        "demo-id",
        "demo",
        "1.0.0",
        vec![decl("a", &[]), decl("b", &["a"])],
    );
    let node = Node {
        id: "demo-id".to_string(),
        activated: names(&["b"]),
    };
    let empty: Vec<String> = Vec::new();
    let fs = classify_features(&pkg, &node, true, &empty);
    assert_eq!(fs.enabled, names(&["b"]));
    assert_eq!(fs.unused, names(&["a"]));
    // a activates nothing and is referenced nowhere: dangling.
    assert_eq!(fs.dangling, names(&["a"]));

    // If a is referenced in source, it is no longer dangling.
    let used = names(&["a"]);
    let fs2 = classify_features(&pkg, &node, true, &used);
    assert_eq!(fs2.enabled, names(&["b"]));
    assert_eq!(fs2.unused, names(&["a"]));
    assert_eq!(fs2.dangling, Vec::<String>::new());
}

#[test]
fn non_member_has_no_dangling() {
    let pkg = package("dep-id", "dep", "0.3.2", vec![decl("extra", &[])]);
    let node = Node {
        id: "dep-id".to_string(),
        activated: Vec::new(),
    };
    let empty: Vec<String> = Vec::new();
    let fs = classify_features(&pkg, &node, false, &empty);
    assert_eq!(fs.enabled, Vec::<String>::new());
    assert_eq!(fs.unused, names(&["extra"]));
    assert_eq!(fs.dangling, Vec::<String>::new());
}

#[test]
fn partition_of_declared_names() {
    // enabled and unused are disjoint and together cover the declared set.
    let pkg = package(
        "p-id",
        "p",
        "2.0.0",
        vec![decl("x", &[]), decl("y", &["x"]), decl("z", &[])],
    );
    let node = Node {
        id: "p-id".to_string(),
        activated: names(&["y", "x"]),
    };
    let empty: Vec<String> = Vec::new();
    let fs = classify_features(&pkg, &node, true, &empty);
    assert_eq!(fs.enabled, names(&["x", "y"]));
    assert_eq!(fs.unused, names(&["z"]));
    for n in &fs.enabled {
        assert!(!fs.unused.contains(n));
    }
    let mut all = fs.enabled.clone();
    all.extend(fs.unused.iter().cloned());
    all.sort();
    assert_eq!(all, names(&["x", "y", "z"]));
    for n in &fs.dangling {
        assert!(fs.unused.contains(n));
    }
}

#[test]
fn workspace_member_usage_excludes_dangling() {
    // Member crate-a declares test-feature with no targets; its source
    // mentions the pattern, so the feature is unused but not dangling.
    let source = "#[cfg(feature = \"test-feature\")]\nfn guarded() {}\n";
    let used = about_features::scanner::scan_source(source);
    assert_eq!(used, names(&["test-feature"]));

    let graph = Graph {
        packages: vec![
            package("a-id", "crate-a", "0.1.0", vec![decl("test-feature", &[])]),
            package("b-id", "crate-b", "0.1.0", vec![]),
        ],
        nodes: vec![
            Node { id: "a-id".to_string(), activated: Vec::new() },
            Node { id: "b-id".to_string(), activated: Vec::new() },
        ],
        member_ids: names(&["a-id", "b-id"]),
    };
    let usages = vec![UsageSet { package_id: "a-id".to_string(), used }];
    let report = classify(&graph, &usages).unwrap();
    assert_eq!(report.len(), 2);
    assert_eq!(report[0].key, "crate-a");
    assert_eq!(report[0].features.unused, names(&["test-feature"]));
    assert_eq!(report[0].features.dangling, Vec::<String>::new());
    assert_eq!(report[1].key, "crate-b");
}

#[test]
fn version_collision_keys() {
    // Two resolved versions of the same package name: one bare key, one
    // version-qualified key, never an overwrite.
    let graph = Graph {
        packages: vec![
            package("ra-new", "regex-automata", "0.4.9", vec![]),
            package("ra-old", "regex-automata", "0.1.10", vec![]),
        ],
        nodes: vec![
            Node { id: "ra-new".to_string(), activated: Vec::new() },
            Node { id: "ra-old".to_string(), activated: Vec::new() },
        ],
        member_ids: Vec::new(),
    };
    let usages: Vec<UsageSet> = Vec::new();
    let report = classify(&graph, &usages).unwrap();
    assert_eq!(report.len(), 2);
    // Visitation is sorted by version, so 0.1.10 claims the bare key.
    assert_eq!(report[0].key, "regex-automata");
    assert_eq!(report[1].key, "regex-automata@0.4.9");
    let text = serialize_report(&report);
    assert!(text.contains("regex-automata@0.4.9"));
}

#[test]
fn inconsistent_graph_is_an_error() {
    let graph = Graph {
        packages: vec![package("real", "real", "1.0.0", vec![])],
        nodes: vec![Node { id: "ghostly".to_string(), activated: Vec::new() }],
        member_ids: Vec::new(),
    };
    let usages: Vec<UsageSet> = Vec::new();
    let r = classify(&graph, &usages);
    assert!(matches!(r, Err(ClassifyError::InconsistentGraph)));
}

#[test]
fn serializer_exact_output() {
    let pkg = package(
        "demo-id",
        "demo",
        "1.0.0",
        vec![decl("a", &[]), decl("b", &["a"])],
    );
    let node = Node {
        id: "demo-id".to_string(),
        activated: names(&["b"]),
    };
    let graph = Graph {
        packages: vec![pkg],
        nodes: vec![node],
        member_ids: names(&["demo-id"]),
    };
    let usages: Vec<UsageSet> = Vec::new();
    let report = classify(&graph, &usages).unwrap();
    let text = serialize_report(&report);
    let expected = "[demo]\n\
                    enabled = [\n    \"b\",\n]\n\
                    unused = [\n    \"a\",\n]\n\
                    dangling = [\n    \"a\",\n]\n";
    assert_eq!(text, expected);
}

#[test]
fn serializer_quotes_and_escapes_keys() {
    let entries = vec![
        ReportEntry {
            key: "plain-key_1".to_string(),
            features: FeatureSet { enabled: Vec::new(), unused: Vec::new(), dangling: Vec::new() },
        },
        ReportEntry {
            key: "odd\"key@1.0".to_string(),
            features: FeatureSet { enabled: Vec::new(), unused: Vec::new(), dangling: Vec::new() },
        },
    ];
    let text = serialize_report(&entries);
    let expected = "[plain-key_1]\n\
                    enabled = []\nunused = []\ndangling = []\n\
                    \n\
                    [\"odd\\\"key@1.0\"]\n\
                    enabled = []\nunused = []\ndangling = []\n";
    assert_eq!(text, expected);
}

#[test]
fn empty_graph_empty_report() {
    let graph = Graph { packages: Vec::new(), nodes: Vec::new(), member_ids: Vec::new() };
    let usages: Vec<UsageSet> = Vec::new();
    let report = classify(&graph, &usages).unwrap();
    assert!(report.is_empty());
    assert_eq!(serialize_report(&report), "");
}

#[test]
fn runs_are_deterministic() {
    let graph = Graph {
        packages: vec![
            package("x-id", "xpkg", "1.2.3", vec![decl("f1", &[]), decl("f2", &["f1"])]),
            package("y-id", "ypkg", "0.0.1", vec![decl("g", &[])]),
        ],
        nodes: vec![
            Node { id: "y-id".to_string(), activated: names(&["g"]) },
            Node { id: "x-id".to_string(), activated: names(&["f2"]) },
        ],
        member_ids: names(&["x-id"]),
    };
    let usages = vec![UsageSet { package_id: "x-id".to_string(), used: names(&["f1"]) }];
    let first = serialize_report(&classify(&graph, &usages).unwrap());
    let second = serialize_report(&classify(&graph, &usages).unwrap());
    assert_eq!(first, second);
    assert!(first.starts_with("[xpkg]\n"));
}

#[test]
fn duplicate_name_and_version_keeps_keys_unique() {
    // Three resolved packages sharing name and version (distinct ids, as
    // with one package from two sources): later entries reuse the
    // version-qualified key by replacement, so keys stay unique.
    let graph = Graph {
        packages: vec![
            package("dup-1", "dup", "1.0.0", vec![]),
            package("dup-2", "dup", "1.0.0", vec![]),
            package("dup-3", "dup", "1.0.0", vec![]),
        ],
        nodes: vec![
            Node { id: "dup-1".to_string(), activated: Vec::new() },
            Node { id: "dup-2".to_string(), activated: Vec::new() },
            Node { id: "dup-3".to_string(), activated: Vec::new() },
        ],
        member_ids: Vec::new(),
    };
    let usages: Vec<UsageSet> = Vec::new();
    let report = classify(&graph, &usages).unwrap();
    assert_eq!(report.len(), 2);
    assert_eq!(report[0].key, "dup");
    assert_eq!(report[1].key, "dup@1.0.0");
}
