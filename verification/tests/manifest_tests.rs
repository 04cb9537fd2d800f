use orbweaver::gomod::parse_go_mod;
use orbweaver::manifests::{parse_cargo_toml, parse_package_json, parse_pyproject_toml, pep508_package_name};
use orbweaver::model::ManifestKind;

#[test]
fn cargo_manifest_facts_and_dependency_shapes() {
    let text = r#"
[package]
name = "widget"
description = "does things"
license = "MIT"

[dependencies]
serde = "1"
core = { path = "../core", version = "0.2" }
odd = 5

[dev-dependencies]
tempfile = "3"
"#;
    let facts = parse_cargo_toml(text).unwrap();
    assert_eq!(facts.name.as_deref(), Some("widget"));
    assert_eq!(facts.description.as_deref(), Some("does things"));
    assert_eq!(facts.license.as_deref(), Some("MIT"));
    let names: Vec<_> = facts.dependencies.iter().map(|d| d.name.as_str()).collect();
    assert_eq!(names, vec!["core", "serde", "tempfile"]);
    let core = &facts.dependencies[0];
    assert!(core.is_path_dependency);
    assert_eq!(core.path_hint.as_deref(), Some("../core"));
    assert_eq!(core.version_req.as_deref(), Some("0.2"));
    assert_eq!(core.manifest, ManifestKind::Cargo);
    assert!(parse_cargo_toml("[package\nname=").is_none());
}

#[test]
fn package_json_path_style_versions() {
    let text = r#"{"name":"web","dependencies":{"local":"file:../lib","ws":"workspace:*","react":"^18"},"devDependencies":{"link":"link:../x","n":1}}"#;
    let facts = parse_package_json(text).unwrap();
    assert_eq!(facts.name.as_deref(), Some("web"));
    let deps: Vec<_> = facts
        .dependencies
        .iter()
        .map(|d| (d.name.as_str(), d.is_path_dependency, d.path_hint.as_deref()))
        .collect();
    assert_eq!(
        deps,
        vec![("local", true, Some("../lib")), ("react", false, None), ("ws", true, None), ("link", true, None)]
    );
    assert!(parse_package_json("{not json").is_none());
}

#[test]
fn pyproject_pep621_and_poetry() {
    let pep = r#"
[project]
name = "tool"
description = "a tool"
license = { text = "Apache-2.0" }
dependencies = ["requests>=2.0,<3", "rich"]
"#;
    let facts = parse_pyproject_toml(pep).unwrap();
    assert_eq!(facts.license.as_deref(), Some("Apache-2.0"));
    let deps: Vec<_> = facts.dependencies.iter().map(|d| (d.name.as_str(), d.manifest)).collect();
    assert_eq!(deps, vec![("requests", ManifestKind::PyprojectPep621), ("rich", ManifestKind::PyprojectPep621)]);

    let poetry = r#"
[tool.poetry]
name = "poet"
[tool.poetry.dependencies]
python = "^3.11"
click = "^8"
lib = { path = "../lib" }
"#;
    let facts = parse_pyproject_toml(poetry).unwrap();
    assert_eq!(facts.name.as_deref(), Some("poet"));
    let deps: Vec<_> = facts.dependencies.iter().map(|d| (d.name.as_str(), d.is_path_dependency)).collect();
    assert_eq!(deps, vec![("click", false), ("lib", true)]);

    assert!(parse_pyproject_toml("[build-system]\nrequires = []\n").is_none());
}

#[test]
fn pep508_names_stop_at_the_version_specifier() {
    assert_eq!(pep508_package_name("requests>=2.0,<3"), "requests");
    assert_eq!(pep508_package_name("zope.interface[extra]"), "zope.interface");
    assert_eq!(pep508_package_name("my_pkg-2 ; python_version<'3.8'"), "my_pkg-2");
    assert_eq!(pep508_package_name(">=1"), "");
}

#[test]
fn go_mod_modules_requires_and_local_replaces() {
    let text = "module github.com/elci-group/widget // the module\r\n\ngo 1.22\n\nrequire (\n\tgithub.com/a/b v1.2.3\n\tgithub.com/c/d v0.1.0 // indirect\n)\n\nrequire github.com/e/f v2.0.0\n\nreplace github.com/a/b => ../b\nreplace github.com/x/y v1 => ./y\nreplace github.com/e/f => github.com/e/g v2.0.1\n";
    let facts = parse_go_mod(text).unwrap();
    assert_eq!(facts.name.as_deref(), Some("widget"));
    assert_eq!(facts.description, None);
    let deps: Vec<_> = facts
        .dependencies
        .iter()
        .map(|d| (d.name.as_str(), d.version_req.as_deref(), d.is_path_dependency, d.path_hint.as_deref()))
        .collect();
    assert_eq!(
        deps,
        vec![
            ("github.com/a/b", Some("v1.2.3"), true, Some("../b")),
            ("github.com/c/d", Some("v0.1.0"), false, None),
            ("github.com/e/f", Some("v2.0.0"), false, None),
            ("github.com/x/y", None, true, Some("./y")),
        ]
    );
}
