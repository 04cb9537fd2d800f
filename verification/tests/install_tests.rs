use orbweaver::connectors::{missing_cargo_toml_error, source_checkout_dir};

#[test]
fn refuses_to_clone_a_non_ssh_remote() {
    let err = source_checkout_dir("widget", "https://github.com/elci-group/widget.git", "/tmp/cache", None).unwrap_err();
    assert!(err.contains("SSH"));
}

#[test]
fn refuses_unsafe_repo_names() {
    let err = source_checkout_dir("../../etc", "git@github.com:elci-group/widget.git", "/tmp/cache", None).unwrap_err();
    assert!(err.contains("unsafe"));
}

#[test]
fn builds_in_place_when_a_local_repo_path_is_already_known() {
    // With a local path given, nothing is cloned, so neither the remote
    // nor the name is checked; the missing Cargo.toml is what fails.
    let tmp = tempfile::tempdir().unwrap();
    let local = tmp.path().to_str().unwrap();
    let dir = source_checkout_dir("../../etc", "https://not-ssh-at-all", "/unused-cache-dir", Some(local)).unwrap();
    assert_eq!(dir, local);
    assert!(!std::path::Path::new(&dir).join("Cargo.toml").exists());
    let err = missing_cargo_toml_error("../../etc");
    assert!(err.contains("Cargo.toml"), "expected a Cargo.toml error, got: {err}");
}

#[test]
fn clones_into_the_cache_under_the_repository_name() {
    let dir = source_checkout_dir("widget", "git@github.com:elci-group/widget.git", "/tmp/cache", None).unwrap();
    assert_eq!(dir, "/tmp/cache/widget");
}
