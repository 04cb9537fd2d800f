use orbweaver::rust_scan::find_matching_brace;
use orbweaver::interfaces;
use orbweaver::model::{ManifestKind, Repository, SourceFile};
use orbweaver::schemas;
use std::collections::BTreeSet;

fn repo(manifests: Vec<ManifestKind>) -> Repository {
    Repository {
        id: "widget".to_string(),
        name: "widget".to_string(),
        path: "/src/widget".to_string(),
        description: None,
        primary_language: None,
        manifests,
        license: None,
        readme_present: false,
        is_git_repo: false,
        default_branch: None,
        last_commit_at: None,
        commit_count: None,
        contributor_count: None,
        dependencies: vec![],
    }
}

fn file(content: &str) -> Vec<SourceFile> {
    vec![SourceFile { path: "/src/widget/src/main.rs".to_string(), content: content.to_string() }]
}

#[test]
fn extracts_variants_with_doc_comments_from_realistic_enum() {
    let src = r#"
use clap::Subcommand;

#[derive(Subcommand)]
enum Command {
    /// Discover repositories and persist a snapshot.
    Scan {
        #[arg(long, default_value = ".")]
        root: PathBuf,
        json: bool,
    },
    /// Show the most recent snapshot.
    Status,
    ListSnapshots,
}

fn main() {}
"#;
    let (ifaces, evidence) = interfaces::extract(&repo(vec![ManifestKind::Cargo]), &file(src));
    let names: BTreeSet<_> = ifaces.iter().map(|i| i.name.clone()).collect();
    assert_eq!(
        names,
        BTreeSet::from(["scan".to_string(), "status".to_string(), "list-snapshots".to_string()])
    );
    let scan = ifaces.iter().find(|i| i.name == "scan").unwrap();
    assert_eq!(scan.description.as_deref(), Some("Discover repositories and persist a snapshot."));
    assert_eq!(scan.id, "widget:scan");
    assert_eq!(evidence.len(), 3);
    assert_eq!(evidence[0].extractor, "cli_interface_extractor");
    assert_eq!(evidence[0].raw_reference, "enum Command variant Scan");
    assert_eq!(
        evidence[0].derived_claim,
        "widget exposes CLI subcommand `scan` (heuristic: found in #[derive(Subcommand)] enum Command; not verified against runtime --help)"
    );
}

#[test]
fn ignores_enums_without_subcommand_derive() {
    let src = "#[derive(Debug)]\nenum Color { Red, Green, Blue }\nfn main() {}\n";
    let (ifaces, _) = interfaces::extract(&repo(vec![ManifestKind::Cargo]), &file(src));
    assert!(ifaces.is_empty());
}

#[test]
fn non_cargo_repo_yields_nothing() {
    let src = "#[derive(Subcommand)]\nenum Command { Scan }\n";
    let (ifaces, evidence) = interfaces::extract(&repo(vec![ManifestKind::Npm]), &file(src));
    assert!(ifaces.is_empty());
    assert!(evidence.is_empty());
}

#[test]
fn does_not_extract_subcommand_enums_declared_only_inside_test_modules() {
    let src = r####"
#[derive(Subcommand)]
enum Command {
    /// The real, user-facing subcommand.
    Scan,
}

fn main() {}

#[cfg(test)]
mod tests {
    use super::*;

    #[test]
    fn something() {
        let fixture = r###"
#[derive(Subcommand)]
enum Command {
    Scan,
    ListSnapshots,
}
"###;
        assert!(fixture.contains("ListSnapshots"));
    }
}
"####;
    let (ifaces, _) = interfaces::extract(&repo(vec![ManifestKind::Cargo]), &file(src));
    let names: BTreeSet<_> = ifaces.iter().map(|i| i.name.clone()).collect();
    assert_eq!(names, BTreeSet::from(["scan".to_string()]));
}

#[test]
fn a_subcommand_name_found_twice_is_reported_once() {
    let files = vec![
        SourceFile { path: "a.rs".to_string(), content: "#[derive(Subcommand)]\nenum A { Scan, Status }\n".to_string() },
        SourceFile { path: "b.rs".to_string(), content: "#[derive(Subcommand)]\nenum B { Scan }\n".to_string() },
    ];
    let (ifaces, evidence) = interfaces::extract(&repo(vec![ManifestKind::Cargo]), &files);
    let names: Vec<_> = ifaces.iter().map(|i| i.name.as_str()).collect();
    assert_eq!(names, vec!["scan", "status"]);
    assert_eq!(evidence[0].source, "a.rs");
}

#[test]
fn extracts_fields_and_struct_doc_from_realistic_struct() {
    let src = r#"
/// A single tracked repository, discovered under the scan root.
#[derive(Debug, Clone, Serialize, Deserialize)]
pub struct Repository {
    pub id: String,
    /// Human-readable name, defaulting to the directory name.
    pub name: String,
    pub tags: Vec<String>,
    dependencies: Vec<DependencyRef>,
}

fn main() {}
"#;
    let (found, evidence) = schemas::extract(&repo(vec![ManifestKind::Cargo]), &file(src));
    assert_eq!(found.len(), 1);
    let schema = &found[0];
    assert_eq!(schema.name, "Repository");
    assert_eq!(schema.description.as_deref(), Some("A single tracked repository, discovered under the scan root."));
    let names: Vec<_> = schema.fields.iter().map(|f| f.name.as_str()).collect();
    assert_eq!(names, vec!["id", "name", "tags", "dependencies"]);
    let name_field = schema.fields.iter().find(|f| f.name == "name").unwrap();
    assert_eq!(name_field.type_repr, "String");
    let deps_field = schema.fields.iter().find(|f| f.name == "dependencies").unwrap();
    assert_eq!(deps_field.type_repr, "Vec<DependencyRef>");
    assert_eq!(evidence.len(), 1);
    assert_eq!(
        evidence[0].derived_claim,
        "widget declares schema `Repository` with 4 field(s) (heuristic: found in #[derive(Serialize/Deserialize)] struct; not verified against actual serialized output)"
    );
}

#[test]
fn ignores_structs_without_serde_derive() {
    let src = "#[derive(Debug, Clone)]\npub struct Internal { x: u32 }\nfn main() {}\n";
    let (found, _) = schemas::extract(&repo(vec![ManifestKind::Cargo]), &file(src));
    assert!(found.is_empty());
}

#[test]
fn does_not_extract_schemas_declared_only_inside_test_modules() {
    let src = r####"
#[derive(Serialize, Deserialize)]
pub struct Real {
    pub id: String,
}

#[cfg(test)]
mod tests {
    #[test]
    fn something() {
        let fixture = r###"
#[derive(Serialize, Deserialize)]
pub struct Fake {
    pub id: String,
}
"###;
        assert!(fixture.contains("Fake"));
    }
}
"####;
    let (found, _) = schemas::extract(&repo(vec![ManifestKind::Cargo]), &file(src));
    let names: Vec<_> = found.iter().map(|s| s.name.as_str()).collect();
    assert_eq!(names, vec!["Real"]);
}

#[test]
fn tuple_structs_are_not_schemas() {
    let src = "#[derive(Serialize)]\npub struct Id(String);\n#[derive(Serialize)]\npub struct Empty {}\n";
    let (found, evidence) = schemas::extract(&repo(vec![ManifestKind::Cargo]), &file(src));
    assert!(found.is_empty());
    assert!(evidence.is_empty());
}

#[test]
fn heuristic_findings_are_recorded_as_probabilistic() {
    let src = r#"
#[derive(Subcommand)]
enum Command {
    Run,
}

#[derive(Serialize, Deserialize)]
struct Config {
    name: String,
}
"#;
    let r = repo(vec![ManifestKind::Cargo]);
    let (_, interface_claims) = interfaces::extract(&r, &file(src));
    let (_, schema_claims) = schemas::extract(&r, &file(src));
    assert_eq!(interface_claims.len(), 1);
    assert_eq!(schema_claims.len(), 1);
    for claim in interface_claims.iter().chain(schema_claims.iter()) {
        assert_eq!(claim.confidence, orbweaver::model::Confidence::ProbabilisticInference(700));
    }
}

#[test]
fn matching_brace_scans_from_any_start() {
    assert_eq!(find_matching_brace(&['{', '{', '}'], 0), None);
    assert_eq!(find_matching_brace(&['{', '"', '}'], 0), None);
    assert_eq!(find_matching_brace(&[], 0), None);
    assert_eq!(find_matching_brace(&['{', 'a', '}'], 0), Some(2));
    assert_eq!(find_matching_brace(&['{', 'a', '}'], 5), None);
}

#[test]
fn checked_extraction_reads_splittable_files_and_skips_non_cargo_repos() {
    let good = "#[derive(Subcommand)]\nenum Command { Run, Say(r#\"{,}\"#) }\n";
    let none = interfaces::extract_checked(&repo(vec![ManifestKind::Npm]), &file(good)).unwrap();
    assert!(none.0.is_empty() && none.1.is_empty());
    let (ifaces, _) = interfaces::extract_checked(&repo(vec![ManifestKind::Cargo]), &file(good)).unwrap();
    assert_eq!(ifaces.len(), 2);
    let (schemas_found, _) = schemas::extract_checked(&repo(vec![ManifestKind::Cargo]), &file(good)).unwrap();
    assert!(schemas_found.is_empty());
}

#[test]
fn split_chunks_rejoin_to_the_body() {
    let body = " A, B(x, y), C { d: \"e,f\" },\n ";
    let chunks = orbweaver::rust_scan::split_top_level(body);
    assert_eq!(chunks, vec![" A".to_string(), " B(x, y)".to_string(), " C { d: \"e,f\" }".to_string()]);
    assert_eq!(chunks.join(",") + ",\n ", body);
    let tight = "a,b";
    assert_eq!(orbweaver::rust_scan::split_top_level(tight).join(","), tight);
}
