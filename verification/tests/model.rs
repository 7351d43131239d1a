use takopack::{transitive_crate_deps, FeatureGraph, FeatureNode};

fn graph() -> FeatureGraph {
    let mut g = FeatureGraph::new();
    g.insert(
        "default".to_string(),
        FeatureNode {
            feature_deps: vec!["f1".to_string()],
            crate_deps: vec![],
        },
    );
    g.insert(
        "f1".to_string(),
        FeatureNode {
            feature_deps: vec!["f2".to_string()],
            crate_deps: vec!["alpha".to_string(), "beta".to_string()],
        },
    );
    g.insert(
        "f2".to_string(),
        FeatureNode {
            feature_deps: vec!["f1".to_string()], // cycle
            crate_deps: vec!["alpha".to_string()],
        },
    );
    g
}

#[test]
fn collects_transitive_deps_and_breaks_cycles() {
    let g = graph();
    let deps = transitive_crate_deps(&g, "default");
    assert_eq!(deps, vec!["alpha".to_string(), "beta".to_string()]);
}

#[test]
fn unknown_feature_yields_empty() {
    let g = graph();
    assert!(transitive_crate_deps(&g, "nope").is_empty());
}

#[test]
fn graph_get_gives_back_what_insert_stored() {
    let mut g = FeatureGraph::new();
    assert!(g.is_empty());
    let prev = g.insert(
        "std".to_string(),
        FeatureNode {
            feature_deps: vec![],
            crate_deps: vec!["libc".to_string()],
        },
    );
    assert!(prev.is_none());
    let prev = g.insert(
        "std".to_string(),
        FeatureNode {
            feature_deps: vec!["alloc".to_string()],
            crate_deps: vec![],
        },
    );
    assert_eq!(prev.map(|n| n.crate_deps), Some(vec!["libc".to_string()]));
    assert_eq!(g.len(), 1);
    assert_eq!(
        g.get("std").map(|n| n.feature_deps.clone()),
        Some(vec!["alloc".to_string()])
    );
    assert!(g.get("alloc").is_none());
    assert!(g.contains_key("std"));
    assert!(!g.contains_key("alloc"));
}

#[test]
fn graph_entries_come_in_key_order() {
    let mut g = FeatureGraph::default();
    for key in ["serde", "", "default", "alloc"] {
        g.insert(key.to_string(), FeatureNode::default());
    }
    let keys: Vec<&str> = g.entries().iter().map(|(k, _)| k.as_str()).collect();
    assert_eq!(keys, vec!["", "alloc", "default", "serde"]);
}

#[test]
fn deps_are_sorted_and_deduplicated() {
    let mut g = FeatureGraph::new();
    g.insert(
        "default".to_string(),
        FeatureNode {
            feature_deps: vec!["a".to_string(), "b".to_string(), "missing".to_string()],
            crate_deps: vec!["zeta".to_string(), "eta".to_string()],
        },
    );
    g.insert(
        "a".to_string(),
        FeatureNode {
            feature_deps: vec![],
            crate_deps: vec!["eta".to_string(), "Alpha".to_string()],
        },
    );
    g.insert(
        "b".to_string(),
        FeatureNode {
            feature_deps: vec!["a".to_string()],
            crate_deps: vec!["beta".to_string()],
        },
    );
    let deps = transitive_crate_deps(&g, "default");
    assert_eq!(deps, vec!["Alpha", "beta", "eta", "zeta"]);
}

#[test]
fn feature_deps_include_child_deps() {
    let g = graph();
    let parent = transitive_crate_deps(&g, "f2");
    let child = transitive_crate_deps(&g, "f1");
    for d in &child {
        assert!(parent.contains(d));
    }
    assert_eq!(transitive_crate_deps(&g, "f2"), vec!["alpha", "beta"]);
}

#[test]
fn feature_with_only_own_deps() {
    let mut g = FeatureGraph::new();
    g.insert(
        "".to_string(),
        FeatureNode {
            feature_deps: vec![],
            crate_deps: vec!["core".to_string()],
        },
    );
    assert_eq!(transitive_crate_deps(&g, ""), vec!["core"]);
}

#[test]
fn transitive_deps_unfold_into_own_and_children() {
    let g = graph();
    for feature in ["default", "f1", "f2"] {
        let node = g.get(feature).unwrap();
        let mut expected: Vec<String> = node.crate_deps.clone();
        for child in &node.feature_deps {
            expected.extend(transitive_crate_deps(&g, child));
        }
        expected.sort();
        expected.dedup();
        assert_eq!(transitive_crate_deps(&g, feature), expected);
    }
}
