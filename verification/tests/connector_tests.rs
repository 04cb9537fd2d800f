use orbweaver::connectors::{release_choice, ReleaseView};
use orbweaver::connectors::candidate_binary_names;
use orbweaver::interfaces::to_kebab_case;

#[test]
fn candidate_names_put_orb_hints_first() {
    let names = candidate_binary_names("kaptaind", &["kaptaind-daemon".to_string()]);
    assert_eq!(names, vec!["kaptaind-daemon", "kaptaind", "kaptaind-cli"]);
}

#[test]
fn candidate_names_fall_back_to_repo_name_pattern_with_no_orb_hints() {
    let names = candidate_binary_names("padagonia", &[]);
    assert_eq!(names, vec!["padagonia", "padagonia-cli"]);
}

#[test]
fn kebab_case_matches_clap_defaults() {
    assert_eq!(to_kebab_case("Scan"), "scan");
    assert_eq!(to_kebab_case("Snapshots"), "snapshots");
    assert_eq!(to_kebab_case("MaxUbiquity"), "max-ubiquity");
    assert_eq!(to_kebab_case("HTTPServer"), "http-server");
}

use orbweaver::connectors::{
    asset_kind, default_cache_dir, default_install_dir, download_release_asset, release_download_args, run_captured,
    select_release_asset, target_triple, AssetKind, OrbInstall, OrbTool, default_true, default_version,
};
use orbweaver::process::{tail, ProcessOutput};

#[test]
fn target_triples_for_supported_platforms() {
    assert_eq!(target_triple("linux", "x86_64"), Some("x86_64-unknown-linux-gnu"));
    assert_eq!(target_triple("macos", "aarch64"), Some("aarch64-apple-darwin"));
    assert_eq!(target_triple("freebsd", "x86_64"), None);
}

#[test]
fn release_asset_selection_skips_checksums_and_signatures() {
    let names = vec![
        "tool-x86_64-unknown-linux-gnu.tar.gz.sha256".to_string(),
        "tool-aarch64-apple-darwin.tar.gz".to_string(),
        "tool-x86_64-unknown-linux-gnu.tar.gz".to_string(),
    ];
    assert_eq!(select_release_asset(&names, "x86_64-unknown-linux-gnu"), Some(2));
    assert_eq!(select_release_asset(&names, "x86_64-pc-windows-msvc"), None);
}

#[test]
fn release_download_arguments_and_outcomes() {
    let args = release_download_args("elci-group", "tool", "v1", "tool.tgz", "/tmp/d");
    assert_eq!(args, vec!["release", "download", "v1", "--repo", "elci-group/tool", "--pattern", "tool.tgz", "--dir", "/tmp/d", "--clobber"]);
    assert_eq!(
        download_release_asset("/tmp/d", "tool.tgz", Some(ProcessOutput { success: true, text: String::new() })),
        Ok("/tmp/d/tool.tgz".to_string())
    );
    assert_eq!(
        download_release_asset("/tmp/d", "tool.tgz", Some(ProcessOutput { success: false, text: "  nope \n".to_string() })),
        Err("`gh release download` failed: nope".to_string())
    );
    assert_eq!(download_release_asset("/tmp/d", "tool.tgz", None), Err("`gh release download` timed out".to_string()));
}

#[test]
fn captured_runs_report_timeouts_and_failures() {
    assert_eq!(run_captured("git", 120, None), Err("`git` did not finish within 120s".to_string()));
    assert_eq!(run_captured("git", 120, Some(ProcessOutput { success: true, text: "x".to_string() })), Ok(()));
    assert_eq!(
        run_captured("tar", 60, Some(ProcessOutput { success: false, text: "bad archive".to_string() })),
        Err("`tar` failed:\nbad archive".to_string())
    );
}

#[test]
fn tail_keeps_the_last_characters() {
    assert_eq!(tail("hello", 10), "hello");
    assert_eq!(tail("hello", 3), "llo");
    assert_eq!(tail("aéb", 3), "aéb");
    assert_eq!(tail("aé", 1), "é");
    assert_eq!(tail("aéb", 2), "éb");
}

#[test]
fn asset_kinds_and_install_locations() {
    assert_eq!(asset_kind("t.tar.gz"), AssetKind::TarGz);
    assert_eq!(asset_kind("t.tgz"), AssetKind::TarGz);
    assert_eq!(asset_kind("t.zip"), AssetKind::Zip);
    assert_eq!(asset_kind("t-x86_64"), AssetKind::Raw);
    assert_eq!(default_cache_dir("/home/u"), "/home/u/.local/share/orbweaver/sources");
    assert_eq!(default_install_dir("/home/u"), "/home/u/.local/bin");
}

#[test]
fn orb_defaults_are_conservative() {
    assert_eq!(default_version(), 1);
    assert!(default_true());
    let tool = OrbTool::default();
    assert!(tool.binaries.is_empty());
    let install = OrbInstall::default();
    assert!(!install.installable);
    assert!(install.prefer_release_binary);
}

#[test]
fn release_choice_takes_the_first_fitting_asset_with_the_tag() {
    let view = ReleaseView {
        tag_name: "v1.2.0".to_string(),
        asset_names: vec![
            "tool-x86_64-unknown-linux-gnu.tar.gz.sha256".to_string(),
            "tool-aarch64-apple-darwin.tar.gz".to_string(),
            "tool-x86_64-unknown-linux-gnu.tar.gz".to_string(),
            "tool-x86_64-unknown-linux-gnu.zip".to_string(),
        ],
    };
    assert_eq!(
        release_choice(&view, "x86_64-unknown-linux-gnu"),
        Some(("v1.2.0".to_string(), "tool-x86_64-unknown-linux-gnu.tar.gz".to_string()))
    );
    assert_eq!(release_choice(&view, "x86_64-pc-windows-msvc"), None);
}
