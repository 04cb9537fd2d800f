//! What snapshot persistence decides on its own: where the database lives,
//! how enumerations are written to and read back from their text columns,
//! and how loaded dependency rows are attached to their repositories. The
//! SQLite access itself is the caller's part.

use vstd::prelude::*;
use crate::model::{Repository, DependencyRef, SourceType, CapabilityKind, deps_view};
use crate::text::{path_join, join_path, str_eq, copy_string, opt_chars};
use crate::resolve::same_repository;

verus! {

/// The snapshot database under a home directory (`.` when there is none).
pub open spec fn db_path(home: Option<Seq<char>>) -> Seq<char> {
    path_join(
        path_join(
            match home {
                Some(h) => h,
                None => "."@,
            },
            ".local/share/orbweaver"@,
        ),
        "orbweaver.db"@,
    )
}

/// The default database path: `~/.local/share/orbweaver/orbweaver.db`.
pub fn default_db_path(home: Option<&str>) -> (r: String)
    ensures
        r@ == db_path(
            match home {
                Some(h) => Some(h@),
                None => None,
            },
        ),
{
    let base = match home {
        Some(h) => join_path(h, ".local/share/orbweaver"),
        None => join_path(".", ".local/share/orbweaver"),
    };
    join_path(base.as_str(), "orbweaver.db")
}

/// The text a source type is stored as: its variant name.
pub open spec fn source_type_text(t: SourceType) -> Seq<char> {
    match t {
        SourceType::Manifest => "Manifest"@,
        SourceType::GitHistory => "GitHistory"@,
        SourceType::Readme => "Readme"@,
        SourceType::Filesystem => "Filesystem"@,
    }
}

pub fn source_type_name(t: SourceType) -> (r: &'static str)
    ensures
        r@ == source_type_text(t),
{
    match t {
        SourceType::Manifest => "Manifest",
        SourceType::GitHistory => "GitHistory",
        SourceType::Readme => "Readme",
        SourceType::Filesystem => "Filesystem",
    }
}

/// A stored source type read back; anything unrecognised reads as
/// `Manifest`.
pub open spec fn source_type_from(s: Seq<char>) -> SourceType {
    if s == "GitHistory"@ {
        SourceType::GitHistory
    } else if s == "Readme"@ {
        SourceType::Readme
    } else if s == "Filesystem"@ {
        SourceType::Filesystem
    } else {
        SourceType::Manifest
    }
}

pub fn parse_source_type(s: &str) -> (r: SourceType)
    ensures
        r == source_type_from(s@),
{
    if str_eq(s, "GitHistory") {
        SourceType::GitHistory
    } else if str_eq(s, "Readme") {
        SourceType::Readme
    } else if str_eq(s, "Filesystem") {
        SourceType::Filesystem
    } else {
        SourceType::Manifest
    }
}

/// The text a capability kind is stored as: its variant name.
pub open spec fn capability_kind_text(k: CapabilityKind) -> Seq<char> {
    match k {
        CapabilityKind::Cli => "Cli"@,
        CapabilityKind::Library => "Library"@,
    }
}

pub fn capability_kind_name(k: CapabilityKind) -> (r: &'static str)
    ensures
        r@ == capability_kind_text(k),
{
    match k {
        CapabilityKind::Cli => "Cli",
        CapabilityKind::Library => "Library",
    }
}

/// A stored capability kind read back: `Cli`, anything else `Library`.
pub open spec fn capability_kind_from(s: Seq<char>) -> CapabilityKind {
    if s == "Cli"@ {
        CapabilityKind::Cli
    } else {
        CapabilityKind::Library
    }
}

pub fn parse_capability_kind(s: &str) -> (r: CapabilityKind)
    ensures
        r == capability_kind_from(s@),
{
    if str_eq(s, "Cli") {
        CapabilityKind::Cli
    } else {
        CapabilityKind::Library
    }
}

/// Writing a source type or a capability kind to its text column and
/// reading it back gives the same value.
pub proof fn law_stored_kinds_read_back(t: SourceType, k: CapabilityKind)
    ensures
        source_type_from(source_type_text(t)) == t,
        capability_kind_from(capability_kind_text(k)) == k,
{
    reveal_strlit("Manifest");
    reveal_strlit("GitHistory");
    reveal_strlit("Readme");
    reveal_strlit("Filesystem");
    reveal_strlit("Cli");
    reveal_strlit("Library");
    assert("Manifest"@.len() != "GitHistory"@.len());
    assert("Manifest"@[0] != "Readme"@[0]);
    assert("Manifest"@[0] != "Filesystem"@[0]);
    assert("Readme"@.len() != "GitHistory"@.len());
    assert("Filesystem"@[0] != "GitHistory"@[0]);
    assert("Filesystem"@.len() != "Readme"@.len());
    assert("Library"@.len() != "Cli"@.len());
}

/// The dependencies among the rows recorded for repository `id`, in row order.
pub open spec fn rows_for(rows: Seq<(String, DependencyRef)>, id: Seq<char>) -> Seq<
    (Seq<char>, Option<Seq<char>>, crate::model::ManifestKind, bool, Option<Seq<char>>, Option<Seq<char>>),
>
    decreases rows.len(),
{
    if rows.len() == 0 {
        seq![]
    } else {
        rows_for(rows.drop_last(), id) + if rows.last().0@ == id {
            seq![crate::model::dep_view(rows.last().1)]
        } else {
            seq![]
        }
    }
}

/// The copies of the rows recorded for repository `id`.
fn collect_rows(rows: &Vec<(String, DependencyRef)>, id: &str) -> (r: Vec<DependencyRef>)
    ensures
        deps_view(r@) == rows_for(rows@, id@),
{
    let mut out: Vec<DependencyRef> = Vec::new();
    let mut k: usize = 0;
    assert(rows@.take(0) =~= Seq::<(String, DependencyRef)>::empty());
    while k < rows.len()
        invariant
            k <= rows@.len(),
            deps_view(out@) == rows_for(rows@.take(k as int), id@),
        decreases rows@.len() - k,
    {
        let ghost tk = rows@.take(k + 1);
        assert(tk.drop_last() =~= rows@.take(k as int));
        assert(tk.last() == rows@[k as int]);
        if str_eq(rows[k].0.as_str(), id) {
            let d = &rows[k].1;
            let c = DependencyRef {
                name: copy_string(&d.name),
                version_req: copy_opt(&d.version_req),
                manifest: d.manifest,
                is_path_dependency: d.is_path_dependency,
                path_hint: copy_opt(&d.path_hint),
                resolved_repo: copy_opt(&d.resolved_repo),
            };
            let ghost before = deps_view(out@);
            out.push(c);
            assert(deps_view(out@) =~= before.push(crate::model::dep_view(*d)));
        } else {
            assert(rows_for(tk, id@) =~= rows_for(rows@.take(k as int), id@));
        }
        k = k + 1;
    }
    assert(rows@.take(k as int) =~= rows@);
    out
}

fn copy_opt(o: &Option<String>) -> (r: Option<String>)
    ensures
        opt_chars(r) == opt_chars(*o),
{
    match o {
        Some(s) => Some(copy_string(s)),
        None => None,
    }
}

/// `b` is `a` with, at most, other dependencies.
pub open spec fn same_but_dependencies(a: Repository, b: Repository) -> bool {
    &&& a.id == b.id
    &&& a.name == b.name
    &&& a.path == b.path
    &&& a.description == b.description
    &&& a.primary_language == b.primary_language
    &&& a.manifests@ == b.manifests@
    &&& a.license == b.license
    &&& a.readme_present == b.readme_present
    &&& a.is_git_repo == b.is_git_repo
    &&& a.default_branch == b.default_branch
    &&& a.last_commit_at == b.last_commit_at
    &&& a.commit_count == b.commit_count
    &&& a.contributor_count == b.contributor_count
}

/// Gives each loaded repository the dependency rows recorded under its id;
/// a repository with no rows keeps the dependencies it had.
pub fn attach_dependencies(repos: &mut Vec<Repository>, rows: &Vec<(String, DependencyRef)>)
    ensures
        final(repos)@.len() == old(repos)@.len(),
        forall|p: int|
            0 <= p < old(repos)@.len() ==> {
                &&& same_but_dependencies(old(repos)@[p], #[trigger] final(repos)@[p])
                &&& deps_view(final(repos)@[p].dependencies@) == if rows_for(rows@, old(repos)@[p].id@).len() > 0 {
                    rows_for(rows@, old(repos)@[p].id@)
                } else {
                    deps_view(old(repos)@[p].dependencies@)
                }
            },
{
    let ghost r0 = repos@;
    let mut p: usize = 0;
    while p < repos.len()
        invariant
            p <= repos@.len(),
            repos@.len() == r0.len(),
            forall|q: int| p <= q < r0.len() ==> #[trigger] repos@[q] == r0[q],
            forall|q: int|
                0 <= q < p ==> {
                    &&& same_but_dependencies(r0[q], #[trigger] repos@[q])
                    &&& deps_view(repos@[q].dependencies@) == if rows_for(rows@, r0[q].id@).len() > 0 {
                        rows_for(rows@, r0[q].id@)
                    } else {
                        deps_view(r0[q].dependencies@)
                    }
                },
        decreases r0.len() - p,
    {
        let list = collect_rows(rows, repos[p].id.as_str());
        if list.len() > 0 {
            let ghost before = repos@;
            let mut r = repos.remove(p);
            r.dependencies = list;
            repos.insert(p, r);
            assert(repos@ =~= before.update(p as int, repos@[p as int]));
        }
        p = p + 1;
    }
}

} // verus!
