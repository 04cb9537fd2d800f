use orbweaver::capabilities::{
    cargo_binaries, contains_package_main, declared_binaries, extract, go_binaries, npm_binaries, python_scripts,
};
use orbweaver::model::{CapabilityKind, ManifestKind, Repository};

fn repo(name: &str, manifests: Vec<ManifestKind>) -> Repository {
    Repository {
        id: name.to_string(),
        name: name.to_string(),
        path: format!("/src/{name}"),
        description: None,
        primary_language: None,
        manifests,
        license: None,
        readme_present: false,
        is_git_repo: false,
        default_branch: None,
        last_commit_at: None,
        commit_count: None,
        contributor_count: None,
        dependencies: Vec::new(),
    }
}

fn declared(r: &Repository, cargo: Vec<String>, npm: Vec<String>, python: Vec<String>, go: Vec<String>) -> Vec<String> {
    declared_binaries(&r.manifests, &cargo, &npm, &python, &go)
}

#[test]
fn cargo_repo_with_src_main_is_a_cli_capability() {
    let mut r = repo("widget", vec![ManifestKind::Cargo]);
    r.description = Some("does things".to_string());
    let bins = cargo_binaries("[package]\nname = \"widget\"\ndescription = \"does things\"", "widget", true);
    let names = declared(&r, bins, vec![], vec![], vec![]);
    let (caps, evidence) = extract(&r, &names);
    assert_eq!(caps.len(), 1);
    assert_eq!(caps[0].kind, CapabilityKind::Cli);
    assert_eq!(caps[0].name, "widget");
    // entry point + description = 2 independent sources.
    assert_eq!(caps[0].evidence_sources, 2);
    assert_eq!(evidence.len(), 1);
    assert_eq!(evidence[0].derived_claim, "widget exposes a CLI capability named `widget`");
}

#[test]
fn cargo_library_with_no_bin_gets_weaker_library_capability() {
    let r = repo("corelib", vec![ManifestKind::Cargo]);
    let bins = cargo_binaries("[package]\nname = \"corelib\"", "corelib", false);
    let names = declared(&r, bins, vec![], vec![], vec![]);
    let (caps, evidence) = extract(&r, &names);
    assert_eq!(caps.len(), 1);
    assert_eq!(caps[0].kind, CapabilityKind::Library);
    assert_eq!(caps[0].id, "corelib:library");
    assert_eq!(caps[0].evidence_sources, 1);
    assert_eq!(evidence[0].raw_reference, "no bin/script entry point found");
}

#[test]
fn repo_with_no_manifests_has_no_capabilities() {
    let r = repo("mystery", vec![]);
    let names = declared(&r, vec![], vec![], vec![], vec![]);
    let (caps, evidence) = extract(&r, &names);
    assert!(caps.is_empty());
    assert!(evidence.is_empty());
}

#[test]
fn npm_object_bin_field_yields_one_capability_per_entry() {
    let r = repo("cli-suite", vec![ManifestKind::Npm]);
    let bins = npm_binaries(r#"{"name":"cli-suite","bin":{"foo":"./bin/foo.js","bar":"./bin/bar.js"}}"#);
    let names = declared(&r, vec![], bins, vec![], vec![]);
    let (caps, _) = extract(&r, &names);
    assert_eq!(caps.len(), 2);
    assert_eq!(caps[0].name, "bar");
    assert_eq!(caps[1].name, "foo");
}

#[test]
fn go_cmd_directory_with_package_main_is_detected() {
    let r = repo("widget", vec![ManifestKind::Go]);
    let tool_main = contains_package_main("package main\n\nfunc main() {}\n");
    let bins = go_binaries(Some("widget"), false, &vec![("tool".to_string(), tool_main)]);
    let names = declared(&r, vec![], vec![], vec![], bins);
    let (caps, _) = extract(&r, &names);
    assert_eq!(caps.len(), 1);
    assert_eq!(caps[0].name, "tool");
    assert_eq!(caps[0].kind, CapabilityKind::Cli);
}

#[test]
fn cargo_bin_sections_and_npm_string_bin() {
    let bins = cargo_binaries("[package]\nname = \"w\"\n[[bin]]\nname = \"w-cli\"\n[[bin]]\npath = \"x.rs\"\n", "w", true);
    assert_eq!(bins, vec!["w-cli".to_string()]);
    assert_eq!(cargo_binaries("not toml [", "w", true), Vec::<String>::new());
    assert_eq!(npm_binaries(r#"{"name":"tool","bin":"./cli.js"}"#), vec!["tool".to_string()]);
    assert_eq!(npm_binaries(r#"{"name":"tool"}"#), Vec::<String>::new());
}

#[test]
fn python_scripts_prefer_pep621_then_poetry() {
    let pep = "[project]\nname = \"p\"\n[project.scripts]\nrun = \"p:main\"\n[tool.poetry.scripts]\nother = \"p:o\"\n";
    assert_eq!(python_scripts(pep), vec!["run".to_string()]);
    let poetry = "[tool.poetry]\nname = \"p\"\n[tool.poetry.scripts]\nother = \"p:o\"\n";
    assert_eq!(python_scripts(poetry), vec!["other".to_string()]);
}

#[test]
fn package_main_must_be_a_whole_trimmed_line() {
    assert!(contains_package_main("// x\n  package main  \r\n"));
    assert!(!contains_package_main("package mainly\n"));
    assert!(!contains_package_main("package lib\n"));
}

#[test]
fn readme_and_description_add_evidence_sources() {
    let mut r = repo("tool", vec![ManifestKind::Cargo]);
    r.description = Some("d".to_string());
    r.readme_present = true;
    let names = declared(&r, vec!["tool".to_string(), "tool".to_string()], vec![], vec![], vec![]);
    assert_eq!(names, vec!["tool".to_string()]);
    let (caps, _) = extract(&r, &names);
    assert_eq!(caps[0].evidence_sources, 3);
}
