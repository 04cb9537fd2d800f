use orbweaver::graph::EcosystemGraph;
use orbweaver::model::{DependencyRef, ManifestKind, Repository};

fn repo(id: &str, resolved: Vec<&str>) -> Repository {
    Repository {
        id: id.to_string(),
        name: id.to_string(),
        path: id.to_string(),
        description: None,
        primary_language: None,
        manifests: vec![ManifestKind::Cargo],
        license: None,
        readme_present: false,
        is_git_repo: false,
        default_branch: None,
        last_commit_at: None,
        commit_count: None,
        contributor_count: None,
        dependencies: resolved
            .into_iter()
            .map(|t| DependencyRef {
                name: format!("{t}-crate"),
                version_req: None,
                manifest: ManifestKind::Cargo,
                is_path_dependency: true,
                path_hint: None,
                resolved_repo: Some(t.to_string()),
            })
            .collect(),
    }
}

fn sample() -> Vec<Repository> {
    vec![repo("a", vec!["core", "util"]), repo("b", vec!["core", "gone"]), repo("core", vec![]), repo("util", vec!["core"])]
}

#[test]
fn graph_has_a_node_per_repository_and_an_edge_per_resolved_dependency() {
    let g = EcosystemGraph::from_repositories(&sample());
    assert_eq!(g.node_count(), 4);
    // "gone" is not a discovered repository, so it makes no edge.
    assert_eq!(g.edge_count(), 4);
}

#[test]
fn most_depended_on_ranks_by_count_then_id() {
    let g = EcosystemGraph::from_repositories(&sample());
    assert_eq!(g.most_depended_on(10), vec![("core".to_string(), 3), ("util".to_string(), 1)]);
    assert_eq!(g.most_depended_on(1), vec![("core".to_string(), 3)]);
    assert!(g.most_depended_on(0).is_empty());
}

#[test]
fn export_lists_each_repository_once_and_every_edge() {
    let g = EcosystemGraph::from_repositories(&sample());
    let export = g.to_export();
    let nodes: Vec<_> = export.nodes.iter().map(|n| n.id.as_str()).collect();
    assert_eq!(nodes, vec!["a", "b", "core", "util"]);
    let edges: Vec<_> = export
        .edges
        .iter()
        .map(|e| (e.from.as_str(), e.to.as_str(), e.relationship.as_str(), e.dependency_name.as_str()))
        .collect();
    assert_eq!(
        edges,
        vec![
            ("a", "core", "depends_on", "core-crate"),
            ("a", "util", "depends_on", "util-crate"),
            ("b", "core", "depends_on", "core-crate"),
            ("util", "core", "depends_on", "core-crate"),
        ]
    );
}
