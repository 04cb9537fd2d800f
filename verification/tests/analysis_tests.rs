use orbweaver::analysis::shared_dependency_candidates;
use orbweaver::model::{DependencyRef, ManifestKind, Repository};

fn repo(id: &str, manifests: Vec<ManifestKind>, deps: Vec<(&str, ManifestKind)>) -> Repository {
    Repository {
        id: id.to_string(),
        name: id.to_string(),
        path: id.to_string(),
        description: None,
        primary_language: None,
        manifests,
        license: None,
        readme_present: false,
        is_git_repo: false,
        default_branch: None,
        last_commit_at: None,
        commit_count: None,
        contributor_count: None,
        dependencies: deps
            .into_iter()
            .map(|(name, manifest)| DependencyRef {
                name: name.to_string(),
                version_req: None,
                manifest,
                is_path_dependency: false,
                path_hint: None,
                resolved_repo: None,
            })
            .collect(),
    }
}

/// The ubiquity cap for every ecosystem size a set of repositories can
/// yield, for a fraction of its repositories.
fn caps(repos: &[Repository], fraction: f64) -> Vec<usize> {
    let most = repos.iter().map(|r| r.manifests.len()).sum::<usize>().max(repos.len());
    (0..=most).map(|t| (t as f64 * fraction) as usize).collect()
}

#[test]
fn excludes_singletons_and_ubiquitous_dependencies() {
    let mut repos = vec![
        repo("a", vec![ManifestKind::Cargo], vec![("rare", ManifestKind::Cargo), ("everywhere", ManifestKind::Cargo)]),
        repo("b", vec![ManifestKind::Cargo], vec![("rare", ManifestKind::Cargo), ("everywhere", ManifestKind::Cargo)]),
        repo("c", vec![ManifestKind::Cargo], vec![("only-here", ManifestKind::Cargo), ("everywhere", ManifestKind::Cargo)]),
    ];
    for name in ["d", "e", "f", "g", "h", "i", "j"] {
        repos.push(repo(name, vec![ManifestKind::Cargo], vec![("everywhere", ManifestKind::Cargo)]));
    }

    let candidates = shared_dependency_candidates(&repos, 2, &caps(&repos, 0.2));
    let names: Vec<_> = candidates.iter().map(|c| c.dependency_name.as_str()).collect();

    assert!(names.contains(&"rare"));
    assert!(!names.contains(&"only-here"));
    assert!(!names.contains(&"everywhere"));
}

#[test]
fn internal_resolved_dependencies_are_never_candidates() {
    let mut a = repo("a", vec![ManifestKind::Cargo], vec![]);
    a.dependencies.push(DependencyRef {
        name: "b".to_string(),
        version_req: None,
        manifest: ManifestKind::Cargo,
        is_path_dependency: true,
        path_hint: None,
        resolved_repo: Some("b".to_string()),
    });
    let mut c = repo("c", vec![ManifestKind::Cargo], vec![]);
    c.dependencies.push(DependencyRef {
        name: "b".to_string(),
        version_req: None,
        manifest: ManifestKind::Cargo,
        is_path_dependency: true,
        path_hint: None,
        resolved_repo: Some("b".to_string()),
    });
    let b = repo("b", vec![ManifestKind::Cargo], vec![]);

    let repos = [a, b, c];
    let candidates = shared_dependency_candidates(&repos, 2, &caps(&repos, 1.0));
    assert!(candidates.is_empty());
}

#[test]
fn ecosystem_denominator_is_scoped_to_manifest_kind() {
    let mut repos = vec![
        repo("web-a", vec![ManifestKind::Npm], vec![("react", ManifestKind::Npm)]),
        repo("web-b", vec![ManifestKind::Npm], vec![("react", ManifestKind::Npm)]),
    ];
    for i in 0..20 {
        repos.push(repo(&format!("rust-{i}"), vec![ManifestKind::Cargo], vec![]));
    }

    let candidates = shared_dependency_candidates(&repos, 2, &caps(&repos, 0.2));
    let react = candidates
        .iter()
        .find(|c| c.dependency_name == "react")
        .expect("react should survive the min_repos floor despite 100% npm ubiquity");
    assert_eq!(react.ecosystem_total, 2);
}

#[test]
fn candidates_come_by_repository_count_then_name_with_sorted_repositories() {
    let repos = vec![
        repo("z", vec![ManifestKind::Cargo], vec![("git2", ManifestKind::Cargo), ("clap", ManifestKind::Cargo)]),
        repo("y", vec![ManifestKind::Cargo], vec![("git2", ManifestKind::Cargo), ("clap", ManifestKind::Cargo)]),
        repo("x", vec![ManifestKind::Cargo], vec![("git2", ManifestKind::Cargo), ("anyhow", ManifestKind::Cargo)]),
        repo("w", vec![ManifestKind::Cargo], vec![("anyhow", ManifestKind::Cargo)]),
    ];
    let candidates = shared_dependency_candidates(&repos, 2, &caps(&repos, 1.0));
    let summary: Vec<_> = candidates
        .iter()
        .map(|c| (c.dependency_name.as_str(), c.repositories.clone(), c.ecosystem_total))
        .collect();
    assert_eq!(
        summary,
        vec![
            ("git2", vec!["x".to_string(), "y".to_string(), "z".to_string()], 4),
            ("anyhow", vec!["w".to_string(), "x".to_string()], 4),
            ("clap", vec!["y".to_string(), "z".to_string()], 4),
        ]
    );
}

#[test]
fn a_repository_declaring_a_dependency_twice_counts_once() {
    let repos = vec![
        repo("a", vec![ManifestKind::Cargo], vec![("serde", ManifestKind::Cargo), ("serde", ManifestKind::Cargo)]),
        repo("b", vec![ManifestKind::Cargo], vec![("serde", ManifestKind::Cargo)]),
    ];
    let candidates = shared_dependency_candidates(&repos, 2, &caps(&repos, 1.0));
    assert_eq!(candidates.len(), 1);
    assert_eq!(candidates[0].repositories, vec!["a".to_string(), "b".to_string()]);
}
