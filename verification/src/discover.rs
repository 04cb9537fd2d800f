//! Repository discovery without a hard-coded inventory: which directory
//! entries are never candidates, and the order the candidates come in.
//! Listing directories is the caller's part.

use vstd::prelude::*;
use crate::text::{starts_with, strings_view, str_eq, copy_string, chars_of, range_starts_with};
use crate::analysis::{strictly_sorted, insert_sorted_name};

verus! {

/// Directory names under a scan root that are never repositories: caches,
/// build output, media libraries and the like.
pub open spec fn skip_names() -> Seq<Seq<char>> {
    seq![
        "node_modules"@,
        "target"@,
        "dist"@,
        "build"@,
        "__pycache__"@,
        "vendor"@,
        "storage"@,
        "backups"@,
        "media"@,
        "cache"@,
        "Music"@,
        "Pictures"@,
        "Videos"@,
        "Downloads"@,
        "Documents"@,
        "Desktop"@,
        "Android"@,
    ]
}

/// Directory names a source walk never descends into.
pub open spec fn skip_dirs() -> Seq<Seq<char>> {
    seq!["target"@, ".git"@, "node_modules"@, "vendor"@, "dist"@, "build"@]
}

fn listed(names: &[&str], name: &str) -> (r: bool)
    ensures
        r == names@.map_values(|n: &str| n@).contains(name@),
{
    let ghost nv = names@.map_values(|n: &str| n@);
    let mut k: usize = 0;
    while k < names.len()
        invariant
            k <= names@.len(),
            nv == names@.map_values(|n: &str| n@),
            forall|t: int| 0 <= t < k ==> nv[t] != name@,
        decreases names@.len() - k,
    {
        assert(nv[k as int] == names@[k as int]@);
        if str_eq(names[k], name) {
            return true;
        }
        k = k + 1;
    }
    false
}

fn hidden(name: &str) -> (r: bool)
    ensures
        r == starts_with(name@, "."@),
{
    let cs = chars_of(name);
    let dot = chars_of(".");
    assert(cs@.subrange(0, cs@.len() as int) =~= cs@);
    range_starts_with(&cs, 0, cs.len(), &dot)
}

/// Whether a directory entry under the scan root is passed over: a hidden
/// entry, or one of the known non-repository names.
pub fn skips_entry(name: &str) -> (r: bool)
    ensures
        r == (starts_with(name@, "."@) || skip_names().contains(name@)),
{
    let names: [&str; 17] = [
        "node_modules",
        "target",
        "dist",
        "build",
        "__pycache__",
        "vendor",
        "storage",
        "backups",
        "media",
        "cache",
        "Music",
        "Pictures",
        "Videos",
        "Downloads",
        "Documents",
        "Desktop",
        "Android",
    ];
    assert(names@.map_values(|n: &str| n@) =~= skip_names());
    hidden(name) || listed(&names, name)
}

/// Whether a source walk passes over a directory entry: a hidden entry,
/// or a build, dependency or VCS directory.
pub fn skips_source_entry(name: &str) -> (r: bool)
    ensures
        r == (starts_with(name@, "."@) || skip_dirs().contains(name@)),
{
    let names: [&str; 6] = ["target", ".git", "node_modules", "vendor", "dist", "build"];
    assert(names@.map_values(|n: &str| n@) =~= skip_dirs());
    hidden(name) || listed(&names, name)
}

/// The candidate paths in order, each once.
pub fn sorted_paths(paths: &Vec<String>) -> (r: Vec<String>)
    ensures
        strictly_sorted(strings_view(r@)),
        forall|p: Seq<char>| #[trigger] strings_view(r@).contains(p) <==> strings_view(paths@).contains(p),
{
    let mut out: Vec<String> = Vec::new();
    let mut k: usize = 0;
    while k < paths.len()
        invariant
            k <= paths@.len(),
            strictly_sorted(strings_view(out@)),
            forall|p: Seq<char>| #[trigger] strings_view(out@).contains(p) <==> strings_view(paths@).take(k as int).contains(p),
        decreases paths@.len() - k,
    {
        insert_sorted_name(&mut out, copy_string(&paths[k]));
        assert forall|p: Seq<char>| #[trigger] strings_view(out@).contains(p) <==> strings_view(paths@).take(k + 1).contains(p) by {
            let t1 = strings_view(paths@).take(k + 1);
            let t0 = strings_view(paths@).take(k as int);
            assert(t1 =~= t0.push(paths@[k as int]@));
            if t1.contains(p) {
                let i = choose|i: int| 0 <= i < t1.len() && t1[i] == p;
                if i < k {
                    assert(t0[i] == p);
                }
            }
            if t0.contains(p) {
                let i = choose|i: int| 0 <= i < t0.len() && t0[i] == p;
                assert(t1[i] == p);
            }
            if p == paths@[k as int]@ {
                assert(t1[k as int] == p);
            }
        }
        k = k + 1;
    }
    assert(strings_view(paths@).take(k as int) =~= strings_view(paths@));
    out
}

} // verus!
