//! Deterministic manifest reading: every function here reads exactly what
//! is written in the manifest, with no inference about what a dependency
//! "really" means. Matching dependencies against other repositories
//! happens in `resolve`.

use vstd::prelude::*;
use crate::model::{DependencyRef, ManifestKind, dep_view, deps_view};
use crate::text::{
    chars_of, starts_with, range_starts_with, string_from_range, string_from_chars, is_alphanumeric,
    unicode_alphanumeric, opt_chars, str_eq, copy_string,
};
use crate::document::{
    DocValue, toml_document, json_document, parse_toml, parse_json, entries_get, doc_get, opt_get, doc_str, opt_str,
    get_str, doc_table, entry, get, get_opt, str_value,
};

verus! {

/// What a manifest declares: package name, description, license, and
/// dependencies, section by section, each section in the key order of the
/// parsed table (the parsers keep tables sorted by key).
pub struct ManifestFacts {
    pub name: Option<String>,
    pub description: Option<String>,
    pub license: Option<String>,
    pub dependencies: Vec<DependencyRef>,
}

impl ManifestFacts {
    pub open spec fn view(&self) -> (
        Option<Seq<char>>,
        Option<Seq<char>>,
        Option<Seq<char>>,
        Seq<(Seq<char>, Option<Seq<char>>, ManifestKind, bool, Option<Seq<char>>, Option<Seq<char>>)>,
    ) {
        (opt_chars(self.name), opt_chars(self.description), opt_chars(self.license), deps_view(self.dependencies@))
    }
}

pub open spec fn facts_view(r: Option<ManifestFacts>) -> Option<
    (
        Option<Seq<char>>,
        Option<Seq<char>>,
        Option<Seq<char>>,
        Seq<(Seq<char>, Option<Seq<char>>, ManifestKind, bool, Option<Seq<char>>, Option<Seq<char>>)>,
    ),
> {
    match r {
        Some(f) => Some(f.view()),
        None => None,
    }
}

/// A dependency written as `name = "version"` or `name = { version, path, .. }`
/// in a Cargo or Poetry table; any other shape declares nothing.
pub open spec fn table_dep(kind: ManifestKind, name: Seq<char>, spec: DocValue) -> Option<
    (Seq<char>, Option<Seq<char>>, ManifestKind, bool, Option<Seq<char>>, Option<Seq<char>>),
> {
    match spec {
        DocValue::Str(v) => Some((name, Some(v@), kind, false, None, None)),
        DocValue::Table(t) => {
            let hint = opt_str(entries_get(t@, "path"@));
            Some((name, opt_str(entries_get(t@, "version"@)), kind, hint is Some, hint, None))
        },
        _ => None,
    }
}

/// The dependencies of a Cargo-style table, in entry order.
pub open spec fn table_deps(kind: ManifestKind, es: Seq<(String, DocValue)>) -> Seq<
    (Seq<char>, Option<Seq<char>>, ManifestKind, bool, Option<Seq<char>>, Option<Seq<char>>),
>
    decreases es.len(),
{
    if es.len() == 0 {
        seq![]
    } else {
        (match table_dep(kind, es[0].0@, es[0].1) {
            Some(d) => seq![d],
            None => seq![],
        }) + table_deps(kind, es.drop_first())
    }
}

/// The Cargo dependencies of one `[section]` table of the document, if it
/// is a table.
pub open spec fn cargo_section(doc: DocValue, section: Seq<char>) -> Seq<
    (Seq<char>, Option<Seq<char>>, ManifestKind, bool, Option<Seq<char>>, Option<Seq<char>>),
> {
    match doc_table(doc_get(doc, section)) {
        Some(es) => table_deps(ManifestKind::Cargo, es),
        None => seq![],
    }
}

/// What a parsed `Cargo.toml` declares.
pub open spec fn cargo_facts(doc: DocValue) -> (
    Option<Seq<char>>,
    Option<Seq<char>>,
    Option<Seq<char>>,
    Seq<(Seq<char>, Option<Seq<char>>, ManifestKind, bool, Option<Seq<char>>, Option<Seq<char>>)>,
) {
    let package = doc_get(doc, "package"@);
    (
        get_str(package, "name"@),
        get_str(package, "description"@),
        get_str(package, "license"@),
        cargo_section(doc, "dependencies"@) + cargo_section(doc, "dev-dependencies"@) + cargo_section(
            doc,
            "build-dependencies"@,
        ),
    )
}

/// The string under `key` of an optional table, copied out.
fn str_at(v: Option<&DocValue>, key: &str) -> (r: Option<String>)
    ensures
        opt_chars(r) == get_str(
            match v {
                Some(y) => Some(*y),
                None => None,
            },
            key@,
        ),
{
    str_value(get_opt(v, key))
}

fn make_dep(
    name: String,
    version_req: Option<String>,
    manifest: ManifestKind,
    is_path_dependency: bool,
    path_hint: Option<String>,
) -> (d: DependencyRef)
    ensures
        dep_view(d) == (name@, opt_chars(version_req), manifest, is_path_dependency, opt_chars(path_hint), None::<Seq<char>>),
{
    DependencyRef { name, version_req, manifest, is_path_dependency, path_hint, resolved_repo: None }
}

/// The dependency a Cargo- or Poetry-style table entry declares.
fn dep_from_entry(kind: ManifestKind, name: &String, spec: &DocValue) -> (r: Option<DependencyRef>)
    ensures
        match r {
            Some(d) => table_dep(kind, name@, *spec) == Some(dep_view(d)),
            None => table_dep(kind, name@, *spec) is None,
        },
{
    match spec {
        DocValue::Str(v) => Some(make_dep(copy_string(name), Some(copy_string(v)), kind, false, None)),
        DocValue::Table(t) => {
            let path_hint = str_value(entry(t, "path"));
            let version_req = str_value(entry(t, "version"));
            let is_path = path_hint.is_some();
            Some(make_dep(copy_string(name), version_req, kind, is_path, path_hint))
        },
        _ => None,
    }
}

/// Appends the dependencies a table declares.
fn push_table_deps(kind: ManifestKind, table: &Vec<(String, DocValue)>, out: &mut Vec<DependencyRef>)
    ensures
        deps_view(final(out)@) == deps_view(old(out)@) + table_deps(kind, table@),
{
    let ghost d0 = deps_view(out@);
    assert(table@.skip(0) =~= table@);
    let mut k: usize = 0;
    while k < table.len()
        invariant
            k <= table@.len(),
            d0 + table_deps(kind, table@) == deps_view(out@) + table_deps(kind, table@.skip(k as int)),
        decreases table@.len() - k,
    {
        let ghost rest = table@.skip(k as int);
        assert(rest[0] == table@[k as int]);
        assert(rest.drop_first() =~= table@.skip(k + 1));
        let ghost before = deps_view(out@);
        match dep_from_entry(kind, &table[k].0, &table[k].1) {
            Some(d) => {
                out.push(d);
                assert(deps_view(out@) =~= before.push(dep_view(d)));
                assert(before + (seq![dep_view(d)] + table_deps(kind, table@.skip(k + 1))) =~= before.push(dep_view(d))
                    + table_deps(kind, table@.skip(k + 1)));
            },
            None => {
                assert(Seq::empty() + table_deps(kind, table@.skip(k + 1)) =~= table_deps(kind, table@.skip(k + 1)));
            },
        }
        k = k + 1;
    }
    assert(table@.skip(k as int) =~= Seq::<(String, DocValue)>::empty());
    assert(deps_view(out@) + Seq::empty() =~= deps_view(out@));
}

/// The dependencies of a Cargo `[dependencies]`-style table, in entry
/// order; entries that are neither a version string nor a table are
/// skipped.
pub fn cargo_deps_from_table(table: &Vec<(String, DocValue)>) -> (r: Vec<DependencyRef>)
    ensures
        deps_view(r@) == table_deps(ManifestKind::Cargo, table@),
{
    let mut out: Vec<DependencyRef> = Vec::new();
    push_table_deps(ManifestKind::Cargo, table, &mut out);
    assert(deps_view(out@) =~= Seq::empty() + table_deps(ManifestKind::Cargo, table@));
    out
}

/// What a parsed `Cargo.toml` declares.
pub fn cargo_facts_from(doc: &DocValue) -> (r: ManifestFacts)
    ensures
        r.view() == cargo_facts(*doc),
{
    let package = get(doc, "package");
    let name = str_at(package, "name");
    let description = str_at(package, "description");
    let license = str_at(package, "license");
    let mut dependencies: Vec<DependencyRef> = Vec::new();
    assert(deps_view(dependencies@) =~= Seq::empty());
    let sections: [&str; 3] = ["dependencies", "dev-dependencies", "build-dependencies"];
    let mut s: usize = 0;
    while s < 3
        invariant
            s <= 3,
            sections@ == seq!["dependencies", "dev-dependencies", "build-dependencies"],
            deps_view(dependencies@) == (if s == 0 {
                Seq::empty()
            } else if s == 1 {
                cargo_section(*doc, "dependencies"@)
            } else if s == 2 {
                cargo_section(*doc, "dependencies"@) + cargo_section(*doc, "dev-dependencies"@)
            } else {
                cargo_facts(*doc).3
            }),
        decreases 3 - s,
    {
        let ghost before = deps_view(dependencies@);
        match get(doc, sections[s]) {
            Some(DocValue::Table(t)) => {
                push_table_deps(ManifestKind::Cargo, t, &mut dependencies);
            },
            _ => {},
        }
        assert(deps_view(dependencies@) == before + cargo_section(*doc, sections@[s as int]@));
        if s == 0 {
            assert(before + cargo_section(*doc, "dependencies"@) =~= cargo_section(*doc, "dependencies"@));
        }
        s = s + 1;
    }
    ManifestFacts { name, description, license, dependencies }
}

/// Reads a `Cargo.toml`'s text: `None` when it is not valid TOML.
pub fn parse_cargo_toml(content: &str) -> (r: Option<ManifestFacts>)
    ensures
        facts_view(r) == match toml_document(content@) {
            Some(doc) => Some(cargo_facts(doc)),
            None => None,
        },
{
    match parse_toml(content) {
        Some(doc) => Some(cargo_facts_from(&doc)),
        None => None,
    }
}

/// A `package.json` dependency: only string versions count; `file:`
/// versions are path dependencies with the rest as hint, `workspace:` and
/// `link:` versions path dependencies without one.
pub open spec fn npm_dep(name: Seq<char>, v: DocValue) -> Option<
    (Seq<char>, Option<Seq<char>>, ManifestKind, bool, Option<Seq<char>>, Option<Seq<char>>),
> {
    match v {
        DocValue::Str(version) => {
            let vs = version@;
            if starts_with(vs, "file:"@) {
                Some((name, Some(vs), ManifestKind::Npm, true, Some(vs.skip("file:"@.len() as int)), None))
            } else if starts_with(vs, "workspace:"@) || starts_with(vs, "link:"@) {
                Some((name, Some(vs), ManifestKind::Npm, true, None, None))
            } else {
                Some((name, Some(vs), ManifestKind::Npm, false, None, None))
            }
        },
        _ => None,
    }
}

pub open spec fn npm_deps(es: Seq<(String, DocValue)>) -> Seq<
    (Seq<char>, Option<Seq<char>>, ManifestKind, bool, Option<Seq<char>>, Option<Seq<char>>),
>
    decreases es.len(),
{
    if es.len() == 0 {
        seq![]
    } else {
        (match npm_dep(es[0].0@, es[0].1) {
            Some(d) => seq![d],
            None => seq![],
        }) + npm_deps(es.drop_first())
    }
}

pub open spec fn npm_section(doc: DocValue, section: Seq<char>) -> Seq<
    (Seq<char>, Option<Seq<char>>, ManifestKind, bool, Option<Seq<char>>, Option<Seq<char>>),
> {
    match doc_table(doc_get(doc, section)) {
        Some(es) => npm_deps(es),
        None => seq![],
    }
}

/// What a parsed `package.json` declares.
pub open spec fn npm_facts(doc: DocValue) -> (
    Option<Seq<char>>,
    Option<Seq<char>>,
    Option<Seq<char>>,
    Seq<(Seq<char>, Option<Seq<char>>, ManifestKind, bool, Option<Seq<char>>, Option<Seq<char>>)>,
) {
    (
        get_str(Some(doc), "name"@),
        get_str(Some(doc), "description"@),
        get_str(Some(doc), "license"@),
        npm_section(doc, "dependencies"@) + npm_section(doc, "devDependencies"@),
    )
}

fn npm_dep_from_entry(name: &String, v: &DocValue) -> (r: Option<DependencyRef>)
    ensures
        match r {
            Some(d) => npm_dep(name@, *v) == Some(dep_view(d)),
            None => npm_dep(name@, *v) is None,
        },
{
    match v {
        DocValue::Str(version) => {
            let cs = chars_of(version.as_str());
            let n = cs.len();
            let file = chars_of("file:");
            let workspace = chars_of("workspace:");
            let link = chars_of("link:");
            assert(cs@.subrange(0, n as int) =~= cs@);
            if range_starts_with(&cs, 0, n, &file) {
                proof {
                    reveal_strlit("file:");
                }
                let rest = string_from_range(&cs, 5, n);
                assert(cs@.subrange(5, n as int) =~= version@.skip("file:"@.len() as int));
                Some(make_dep(copy_string(name), Some(copy_string(version)), ManifestKind::Npm, true, Some(rest)))
            } else if range_starts_with(&cs, 0, n, &workspace) || range_starts_with(&cs, 0, n, &link) {
                Some(make_dep(copy_string(name), Some(copy_string(version)), ManifestKind::Npm, true, None))
            } else {
                Some(make_dep(copy_string(name), Some(copy_string(version)), ManifestKind::Npm, false, None))
            }
        },
        _ => None,
    }
}

fn push_npm_deps(table: &Vec<(String, DocValue)>, out: &mut Vec<DependencyRef>)
    ensures
        deps_view(final(out)@) == deps_view(old(out)@) + npm_deps(table@),
{
    let ghost d0 = deps_view(out@);
    assert(table@.skip(0) =~= table@);
    let mut k: usize = 0;
    while k < table.len()
        invariant
            k <= table@.len(),
            d0 + npm_deps(table@) == deps_view(out@) + npm_deps(table@.skip(k as int)),
        decreases table@.len() - k,
    {
        let ghost rest = table@.skip(k as int);
        assert(rest[0] == table@[k as int]);
        assert(rest.drop_first() =~= table@.skip(k + 1));
        let ghost before = deps_view(out@);
        match npm_dep_from_entry(&table[k].0, &table[k].1) {
            Some(d) => {
                out.push(d);
                assert(deps_view(out@) =~= before.push(dep_view(d)));
                assert(before + (seq![dep_view(d)] + npm_deps(table@.skip(k + 1))) =~= before.push(dep_view(d))
                    + npm_deps(table@.skip(k + 1)));
            },
            None => {
                assert(Seq::empty() + npm_deps(table@.skip(k + 1)) =~= npm_deps(table@.skip(k + 1)));
            },
        }
        k = k + 1;
    }
    assert(table@.skip(k as int) =~= Seq::<(String, DocValue)>::empty());
    assert(deps_view(out@) + Seq::empty() =~= deps_view(out@));
}

/// What a parsed `package.json` declares.
pub fn npm_facts_from(doc: &DocValue) -> (r: ManifestFacts)
    ensures
        r.view() == npm_facts(*doc),
{
    let name = str_at(Some(doc), "name");
    let description = str_at(Some(doc), "description");
    let license = str_at(Some(doc), "license");
    let mut dependencies: Vec<DependencyRef> = Vec::new();
    match get(doc, "dependencies") {
        Some(DocValue::Table(t)) => push_npm_deps(t, &mut dependencies),
        _ => {},
    }
    assert(deps_view(dependencies@) =~= npm_section(*doc, "dependencies"@));
    match get(doc, "devDependencies") {
        Some(DocValue::Table(t)) => push_npm_deps(t, &mut dependencies),
        _ => {},
    }
    assert(deps_view(dependencies@) =~= npm_section(*doc, "dependencies"@) + npm_section(*doc, "devDependencies"@));
    ManifestFacts { name, description, license, dependencies }
}

/// Reads a `package.json`'s text: `None` when it is not valid JSON.
pub fn parse_package_json(content: &str) -> (r: Option<ManifestFacts>)
    ensures
        facts_view(r) == match json_document(content@) {
            Some(doc) => Some(npm_facts(doc)),
            None => None,
        },
{
    match parse_json(content) {
        Some(doc) => Some(npm_facts_from(&doc)),
        None => None,
    }
}

/// A character of a PEP 508 package name: alphanumeric, `-`, `_` or `.`.
pub open spec fn is_pep508_char(c: char) -> bool {
    unicode_alphanumeric(c) || c == '-' || c == '_' || c == '.'
}

pub open spec fn pep508_len(x: Seq<char>) -> nat
    decreases x.len(),
{
    if x.len() > 0 && is_pep508_char(x[0]) {
        1 + pep508_len(x.drop_first())
    } else {
        0
    }
}

/// The package name at the start of a PEP 508 requirement.
pub open spec fn pep508_name(x: Seq<char>) -> Seq<char> {
    x.take(pep508_len(x) as int)
}

proof fn lemma_pep508_len_bound(x: Seq<char>)
    ensures
        pep508_len(x) <= x.len(),
    decreases x.len(),
{
    if x.len() > 0 && is_pep508_char(x[0]) {
        lemma_pep508_len_bound(x.drop_first());
    }
}

/// The package name of a PEP 508 requirement string, e.g.
/// `"requests>=2.0,<3"` -> `"requests"`.
pub fn pep508_package_name(spec: &str) -> (r: String)
    ensures
        r@ == pep508_name(spec@),
{
    let cs = chars_of(spec);
    let n = cs.len();
    let mut e: usize = 0;
    assert(spec@.skip(0) =~= spec@);
    while e < n && (is_alphanumeric(cs[e]) || cs[e] == '-' || cs[e] == '_' || cs[e] == '.')
        invariant
            e <= n,
            n == cs@.len(),
            cs@ == spec@,
            pep508_len(spec@) == e + pep508_len(spec@.skip(e as int)),
        decreases n - e,
    {
        assert(spec@.skip(e as int).drop_first() =~= spec@.skip(e + 1));
        e = e + 1;
    }
    proof {
        lemma_pep508_len_bound(spec@);
    }
    assert(cs@.subrange(0, e as int) =~= pep508_name(spec@));
    string_from_range(&cs, 0, e)
}

/// PEP 621 `project.license`: a string, or a table's `text`.
pub open spec fn pep621_license(project: DocValue) -> Option<Seq<char>> {
    match doc_get(project, "license"@) {
        Some(l) => match doc_str(l) {
            Some(t) => Some(t),
            None => opt_str(doc_get(l, "text"@)),
        },
        None => None,
    }
}

/// PEP 621 `project.dependencies`: each string is a requirement.
pub open spec fn pep621_deps(items: Seq<DocValue>) -> Seq<
    (Seq<char>, Option<Seq<char>>, ManifestKind, bool, Option<Seq<char>>, Option<Seq<char>>),
>
    decreases items.len(),
{
    if items.len() == 0 {
        seq![]
    } else {
        (match doc_str(items[0]) {
            Some(spec) => seq![(pep508_name(spec), Some(spec), ManifestKind::PyprojectPep621, false, None, None)],
            None => seq![],
        }) + pep621_deps(items.drop_first())
    }
}

pub open spec fn pep621_facts(project: DocValue) -> (
    Option<Seq<char>>,
    Option<Seq<char>>,
    Option<Seq<char>>,
    Seq<(Seq<char>, Option<Seq<char>>, ManifestKind, bool, Option<Seq<char>>, Option<Seq<char>>)>,
) {
    (
        get_str(Some(project), "name"@),
        get_str(Some(project), "description"@),
        pep621_license(project),
        match doc_get(project, "dependencies"@) {
            Some(DocValue::Array(a)) => pep621_deps(a@),
            _ => seq![],
        },
    )
}

/// Poetry dependencies: a table like Cargo's, without the `python` entry.
pub open spec fn poetry_deps(es: Seq<(String, DocValue)>) -> Seq<
    (Seq<char>, Option<Seq<char>>, ManifestKind, bool, Option<Seq<char>>, Option<Seq<char>>),
>
    decreases es.len(),
{
    if es.len() == 0 {
        seq![]
    } else {
        (if es[0].0@ == "python"@ {
            seq![]
        } else {
            match table_dep(ManifestKind::PyprojectPoetry, es[0].0@, es[0].1) {
                Some(d) => seq![d],
                None => seq![],
            }
        }) + poetry_deps(es.drop_first())
    }
}

pub open spec fn poetry_facts(poetry: DocValue) -> (
    Option<Seq<char>>,
    Option<Seq<char>>,
    Option<Seq<char>>,
    Seq<(Seq<char>, Option<Seq<char>>, ManifestKind, bool, Option<Seq<char>>, Option<Seq<char>>)>,
) {
    (
        get_str(Some(poetry), "name"@),
        get_str(Some(poetry), "description"@),
        get_str(Some(poetry), "license"@),
        match doc_table(doc_get(poetry, "dependencies"@)) {
            Some(es) => poetry_deps(es),
            None => seq![],
        },
    )
}

/// What a parsed `pyproject.toml` declares: its PEP 621 `[project]` table
/// if it has one, else its `[tool.poetry]` table, else nothing.
pub open spec fn pyproject_facts(doc: DocValue) -> Option<
    (
        Option<Seq<char>>,
        Option<Seq<char>>,
        Option<Seq<char>>,
        Seq<(Seq<char>, Option<Seq<char>>, ManifestKind, bool, Option<Seq<char>>, Option<Seq<char>>)>,
    ),
> {
    match doc_get(doc, "project"@) {
        Some(project) => Some(pep621_facts(project)),
        None => match opt_get(doc_get(doc, "tool"@), "poetry"@) {
            Some(poetry) => Some(poetry_facts(poetry)),
            None => None,
        },
    }
}

fn pep621_facts_from(project: &DocValue) -> (r: ManifestFacts)
    ensures
        r.view() == pep621_facts(*project),
{
    let name = str_at(Some(project), "name");
    let description = str_at(Some(project), "description");
    let license = match get(project, "license") {
        Some(l) => match l {
            DocValue::Str(t) => Some(copy_string(t)),
            _ => str_value(get(l, "text")),
        },
        None => None,
    };
    let mut dependencies: Vec<DependencyRef> = Vec::new();
    match get(project, "dependencies") {
        Some(DocValue::Array(a)) => {
            let ghost items = a@;
            assert(items.skip(0) =~= items);
            assert(deps_view(dependencies@) + pep621_deps(items) =~= pep621_deps(items));
            let mut k: usize = 0;
            while k < a.len()
                invariant
                    k <= items.len(),
                    items == a@,
                    pep621_deps(items) == deps_view(dependencies@) + pep621_deps(items.skip(k as int)),
                decreases items.len() - k,
            {
                let ghost rest = items.skip(k as int);
                assert(rest[0] == items[k as int]);
                assert(rest.drop_first() =~= items.skip(k + 1));
                let ghost before = deps_view(dependencies@);
                match &a[k] {
                    DocValue::Str(spec) => {
                        let d = make_dep(
                            pep508_package_name(spec.as_str()),
                            Some(copy_string(spec)),
                            ManifestKind::PyprojectPep621,
                            false,
                            None,
                        );
                        dependencies.push(d);
                        assert(deps_view(dependencies@) =~= before.push(dep_view(d)));
                        assert(before + (seq![dep_view(d)] + pep621_deps(items.skip(k + 1))) =~= before.push(
                            dep_view(d),
                        ) + pep621_deps(items.skip(k + 1)));
                    },
                    _ => {
                        assert(Seq::empty() + pep621_deps(items.skip(k + 1)) =~= pep621_deps(items.skip(k + 1)));
                    },
                }
                k = k + 1;
            }
            assert(items.skip(k as int) =~= Seq::<DocValue>::empty());
            assert(deps_view(dependencies@) + Seq::empty() =~= deps_view(dependencies@));
        },
        _ => {
            assert(deps_view(dependencies@) =~= Seq::empty());
        },
    }
    ManifestFacts { name, description, license, dependencies }
}

fn poetry_facts_from(poetry: &DocValue) -> (r: ManifestFacts)
    ensures
        r.view() == poetry_facts(*poetry),
{
    let name = str_at(Some(poetry), "name");
    let description = str_at(Some(poetry), "description");
    let license = str_at(Some(poetry), "license");
    let mut dependencies: Vec<DependencyRef> = Vec::new();
    match get(poetry, "dependencies") {
        Some(DocValue::Table(t)) => {
            let ghost es = t@;
            assert(es.skip(0) =~= es);
            assert(deps_view(dependencies@) + poetry_deps(es) =~= poetry_deps(es));
            let mut k: usize = 0;
            while k < t.len()
                invariant
                    k <= es.len(),
                    es == t@,
                    poetry_deps(es) == deps_view(dependencies@) + poetry_deps(es.skip(k as int)),
                decreases es.len() - k,
            {
                let ghost rest = es.skip(k as int);
                assert(rest[0] == es[k as int]);
                assert(rest.drop_first() =~= es.skip(k + 1));
                let ghost before = deps_view(dependencies@);
                let ghost tail = poetry_deps(es.skip(k + 1));
                if str_eq(t[k].0.as_str(), "python") {
                    assert(Seq::empty() + tail =~= tail);
                } else {
                    match dep_from_entry(ManifestKind::PyprojectPoetry, &t[k].0, &t[k].1) {
                        Some(d) => {
                            dependencies.push(d);
                            assert(deps_view(dependencies@) =~= before.push(dep_view(d)));
                            assert(before + (seq![dep_view(d)] + tail) =~= before.push(dep_view(d)) + tail);
                        },
                        None => {
                            assert(Seq::empty() + tail =~= tail);
                        },
                    }
                }
                k = k + 1;
            }
            assert(es.skip(k as int) =~= Seq::<(String, DocValue)>::empty());
            assert(deps_view(dependencies@) + Seq::empty() =~= deps_view(dependencies@));
        },
        _ => {
            assert(deps_view(dependencies@) =~= Seq::empty());
        },
    }
    ManifestFacts { name, description, license, dependencies }
}

/// What a parsed `pyproject.toml` declares (`None` when it has neither a
/// `[project]` nor a `[tool.poetry]` table).
pub fn pyproject_facts_from(doc: &DocValue) -> (r: Option<ManifestFacts>)
    ensures
        facts_view(r) == pyproject_facts(*doc),
{
    match get(doc, "project") {
        Some(project) => Some(pep621_facts_from(project)),
        None => match get_opt(get(doc, "tool"), "poetry") {
            Some(poetry) => Some(poetry_facts_from(poetry)),
            None => None,
        },
    }
}

/// Reads a `pyproject.toml`'s text: `None` when it is not valid TOML or
/// declares neither a PEP 621 project nor a Poetry one.
pub fn parse_pyproject_toml(content: &str) -> (r: Option<ManifestFacts>)
    ensures
        facts_view(r) == match toml_document(content@) {
            Some(doc) => pyproject_facts(doc),
            None => None,
        },
{
    match parse_toml(content) {
        Some(doc) => pyproject_facts_from(&doc),
        None => None,
    }
}

} // verus!
