use orbweaver::discover::{skips_entry, skips_source_entry, sorted_paths};
use orbweaver::ingest::{ingest_repository, summarize_history, CommitFacts, GitInfo, ScanConfig};
use orbweaver::model::{ManifestKind, SourceType};
use orbweaver::storage::{capability_kind_name, default_db_path, parse_capability_kind, parse_source_type, source_type_name};
use orbweaver::model::CapabilityKind;

#[test]
fn ingests_manifests_readme_and_history_into_one_record() {
    let texts = vec![
        Some("[package]\nname = \"widget\"\n\n[dependencies]\nserde = \"1\"\n".to_string()),
        None,
        Some("[project]\nname = \"widget-py\"\ndescription = \"python side\"\ndependencies = [\"rich\"]\n".to_string()),
        Some("module example.com/widget\n".to_string()),
    ];
    let git = GitInfo {
        default_branch: Some("main".to_string()),
        last_commit_at: Some(0),
        commit_count: Some(12),
        contributor_count: Some(2),
    };
    let (repo, evidence) = ingest_repository("/src/widget", Some("widget-dir"), &texts, true, true, Some(git));
    assert_eq!(repo.id, "widget-dir");
    assert_eq!(repo.name, "widget");
    assert_eq!(repo.description.as_deref(), Some("python side"));
    assert_eq!(repo.manifests, vec![ManifestKind::Cargo, ManifestKind::PyprojectPoetry, ManifestKind::Go]);
    assert_eq!(repo.primary_language.as_deref(), Some("Rust"));
    assert_eq!(repo.dependencies.len(), 2);
    assert_eq!(repo.default_branch.as_deref(), Some("main"));
    assert_eq!(repo.commit_count, Some(12));
    assert_eq!(evidence.len(), 5);
    assert_eq!(evidence[0].source, "/src/widget/Cargo.toml");
    assert_eq!(evidence[0].derived_claim, "Cargo.toml declares 1 dependencies");
    assert_eq!(evidence[2].derived_claim, "go.mod declares 0 dependencies");
    assert_eq!(evidence[3].source_type, SourceType::Readme);
    assert_eq!(evidence[4].source_type, SourceType::GitHistory);
    assert_eq!(
        evidence[4].derived_claim,
        "12 commits by 2 contributor(s), last commit 1970-01-01T00:00:00+00:00"
    );
}

#[test]
fn a_directory_without_manifests_keeps_its_name() {
    let texts = vec![None, Some("{ broken".to_string()), None, None];
    let (repo, evidence) = ingest_repository("/src/x", None, &texts, false, false, None);
    assert_eq!(repo.id, "unknown");
    assert_eq!(repo.name, "unknown");
    assert!(repo.manifests.is_empty());
    assert_eq!(repo.primary_language, None);
    assert!(evidence.is_empty());
}

#[test]
fn history_counts_commits_distinct_authors_and_latest_time() {
    let commits = vec![
        CommitFacts { author: Some("a@x".to_string()), seconds: 100 },
        CommitFacts { author: Some("b@x".to_string()), seconds: 300 },
        CommitFacts { author: Some("a@x".to_string()), seconds: 200 },
        CommitFacts { author: None, seconds: i64::MAX },
    ];
    let info = summarize_history(Some("main".to_string()), true, &commits);
    assert_eq!(info.commit_count, Some(4));
    assert_eq!(info.contributor_count, Some(2));
    assert_eq!(info.last_commit_at, Some(300));
    let empty = summarize_history(Some("main".to_string()), false, &commits);
    assert_eq!(empty.commit_count, None);
    assert_eq!(empty.default_branch.as_deref(), Some("main"));
}

#[test]
fn discovery_skips_hidden_and_noise_directories_and_sorts() {
    assert!(skips_entry(".cache"));
    assert!(skips_entry("node_modules"));
    assert!(skips_entry("Downloads"));
    assert!(!skips_entry("widget"));
    assert!(skips_source_entry("target"));
    assert!(skips_source_entry(".git"));
    assert!(!skips_source_entry("src"));
    let sorted = sorted_paths(&vec!["/r/b".to_string(), "/r/a".to_string(), "/r/c".to_string()]);
    assert_eq!(sorted, vec!["/r/a".to_string(), "/r/b".to_string(), "/r/c".to_string()]);
}

#[test]
fn storage_paths_and_enum_texts() {
    assert_eq!(default_db_path(Some("/home/u")), "/home/u/.local/share/orbweaver/orbweaver.db");
    assert_eq!(default_db_path(None), "./.local/share/orbweaver/orbweaver.db");
    assert_eq!(parse_source_type("Readme"), SourceType::Readme);
    assert_eq!(parse_source_type("anything"), SourceType::Manifest);
    assert_eq!(source_type_name(SourceType::GitHistory), "GitHistory");
    assert_eq!(parse_capability_kind("Cli"), CapabilityKind::Cli);
    assert_eq!(parse_capability_kind("cli"), CapabilityKind::Library);
    let config = ScanConfig::default();
    assert_eq!(config.root, ".");
    assert_eq!(config.max_commits, 20000);
}

#[test]
fn stored_kinds_read_back_unchanged() {
    for t in [SourceType::Manifest, SourceType::GitHistory, SourceType::Readme, SourceType::Filesystem] {
        assert_eq!(parse_source_type(source_type_name(t)), t);
    }
    for k in [CapabilityKind::Cli, CapabilityKind::Library] {
        assert_eq!(parse_capability_kind(capability_kind_name(k)), k);
    }
}
