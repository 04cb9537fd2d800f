use orbweaver::model::{DependencyRef, ManifestKind, Repository};
use orbweaver::resolve::resolve_internal_dependencies;

fn bare_repo(id: &str, path: &str) -> Repository {
    Repository {
        id: id.to_string(),
        name: id.to_string(),
        path: path.to_string(),
        description: None,
        primary_language: None,
        manifests: vec![],
        license: None,
        readme_present: false,
        is_git_repo: false,
        default_branch: None,
        last_commit_at: None,
        commit_count: None,
        contributor_count: None,
        dependencies: vec![],
    }
}

fn dep(name: &str, manifest: ManifestKind, path_hint: Option<&str>) -> DependencyRef {
    DependencyRef {
        name: name.to_string(),
        version_req: None,
        manifest,
        is_path_dependency: path_hint.is_some(),
        path_hint: path_hint.map(String::from),
        resolved_repo: None,
    }
}

#[test]
fn resolves_path_dependency_over_name_match_and_ignores_self_references() {
    let mut a = bare_repo("a", "/root/a");
    a.dependencies.push(dep("b-crate", ManifestKind::Cargo, Some("../b")));
    // A dependency on itself by name must never resolve to itself.
    a.dependencies.push(dep("a", ManifestKind::Cargo, None));
    let b = bare_repo("b", "/root/b");

    let mut repos = vec![a, b];
    let mut evidence = Vec::new();
    let canon = vec![Some("/root/a".to_string()), Some("/root/b".to_string())];
    let hints = vec![vec![Some("/root/b".to_string()), None], vec![]];
    resolve_internal_dependencies(&mut repos, &mut evidence, &canon, &hints);

    let a = &repos[0];
    assert_eq!(a.dependencies[0].resolved_repo.as_deref(), Some("b"));
    assert_eq!(a.dependencies[1].resolved_repo, None);
    assert_eq!(evidence.len(), 1);
    assert_eq!(evidence[0].derived_claim, "a depends_on b (dependency `b-crate` resolved via path match)");
}

#[test]
fn resolves_by_case_insensitive_name_match_when_no_path_hint() {
    let mut c = bare_repo("c", "/root/c");
    c.dependencies.push(dep("D", ManifestKind::Npm, None));
    let d = bare_repo("d", "/root/d");

    let mut repos = vec![c, d];
    let mut evidence = Vec::new();
    let canon = vec![Some("/root/c".to_string()), Some("/root/d".to_string())];
    let hints = vec![vec![None], vec![]];
    resolve_internal_dependencies(&mut repos, &mut evidence, &canon, &hints);

    assert_eq!(repos[0].dependencies[0].resolved_repo.as_deref(), Some("d"));
    assert_eq!(evidence[0].derived_claim, "c depends_on d (dependency `D` resolved via name match)");
}

#[test]
fn a_path_hint_that_leads_nowhere_falls_back_to_the_name() {
    let mut a = bare_repo("a", "/root/a");
    a.dependencies.push(dep("b", ManifestKind::Cargo, Some("../missing")));
    let b = bare_repo("b", "/root/b");
    let mut repos = vec![a, b];
    let mut evidence = Vec::new();
    let canon = vec![Some("/root/a".to_string()), Some("/root/b".to_string())];
    let hints = vec![vec![None], vec![]];
    resolve_internal_dependencies(&mut repos, &mut evidence, &canon, &hints);
    assert_eq!(repos[0].dependencies[0].resolved_repo.as_deref(), Some("b"));
    assert!(evidence[0].derived_claim.ends_with("resolved via name match)"));
}
