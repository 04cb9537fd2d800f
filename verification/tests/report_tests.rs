use orbweaver::model::{Capability, CapabilityKind, Repository};
use orbweaver::report::{language_breakdown, listing_order, scan_summary};

fn repo(id: &str, language: Option<&str>, git: bool, commits: Option<u64>) -> Repository {
    Repository {
        id: id.to_string(),
        name: id.to_string(),
        path: id.to_string(),
        description: None,
        primary_language: language.map(|l| l.to_string()),
        manifests: Vec::new(),
        license: None,
        readme_present: false,
        is_git_repo: git,
        default_branch: None,
        last_commit_at: None,
        commit_count: commits,
        contributor_count: None,
        dependencies: Vec::new(),
    }
}

fn capability(repository: &str, name: &str, kind: CapabilityKind) -> Capability {
    Capability {
        id: format!("{repository}:{name}"),
        repository: repository.to_string(),
        name: name.to_string(),
        kind,
        description: None,
        evidence_sources: 1,
    }
}

fn keys(pairs: &[(&str, &str)]) -> Vec<(String, String)> {
    pairs.iter().map(|(r, n)| (r.to_string(), n.to_string())).collect()
}

#[test]
fn listing_sorts_by_repository_then_name() {
    let k = keys(&[("web", "serve"), ("api", "run"), ("web", "build"), ("api", "check")]);
    assert_eq!(listing_order(&k, None), vec![3, 1, 2, 0]);
}

#[test]
fn listing_keeps_the_order_of_equal_keys() {
    let k = keys(&[("b", "x"), ("a", "y"), ("b", "x"), ("a", "y")]);
    assert_eq!(listing_order(&k, None), vec![1, 3, 0, 2]);
}

#[test]
fn listing_narrowed_to_one_repository() {
    let k = keys(&[("web", "serve"), ("api", "run"), ("web", "build")]);
    assert_eq!(listing_order(&k, Some("web")), vec![2, 0]);
    assert_eq!(listing_order(&k, Some("absent")), Vec::<usize>::new());
}

#[test]
fn listing_of_nothing_is_empty() {
    assert_eq!(listing_order(&Vec::new(), None), Vec::<usize>::new());
}

#[test]
fn languages_are_counted_in_name_order_with_unknown_for_none() {
    let repos = vec![
        repo("a", Some("Rust"), false, None),
        repo("b", None, false, None),
        repo("c", Some("Go"), false, None),
        repo("d", Some("Rust"), false, None),
    ];
    assert_eq!(
        language_breakdown(&repos),
        vec![("Go".to_string(), 1), ("Rust".to_string(), 2), ("unknown".to_string(), 1)]
    );
}

#[test]
fn summary_counts_repositories_commits_and_capability_kinds() {
    let repos = vec![
        repo("a", Some("Rust"), true, Some(10)),
        repo("b", Some("Rust"), true, Some(5)),
        repo("c", None, false, None),
    ];
    let caps = vec![
        capability("a", "a", CapabilityKind::Cli),
        capability("b", "b:library", CapabilityKind::Library),
        capability("a", "tool", CapabilityKind::Cli),
    ];
    let s = scan_summary(&repos, &caps);
    assert_eq!(s.repositories, 3);
    assert_eq!(s.git_tracked, 2);
    assert_eq!(s.total_commits, 15);
    assert_eq!(s.cli_capabilities, 2);
    assert_eq!(s.library_capabilities, 1);
    assert_eq!(s.languages, vec![("Rust".to_string(), 2), ("unknown".to_string(), 1)]);
}

#[test]
fn summary_of_an_empty_snapshot_is_all_zero() {
    let s = scan_summary(&[], &[]);
    assert_eq!(s.repositories, 0);
    assert_eq!(s.git_tracked, 0);
    assert_eq!(s.total_commits, 0);
    assert_eq!(s.cli_capabilities, 0);
    assert_eq!(s.library_capabilities, 0);
    assert!(s.languages.is_empty());
}
