//! Tool discovery decisions: which binary names a repository may provide,
//! which `.orb` opt-in settings apply, which release asset fits this
//! platform, and when an on-demand install may clone a repository.

use vstd::prelude::*;
use crate::text::{
    chars_of, string_from_chars, extend_all, starts_with, ends_with, contains, range_starts_with,
    range_ends_with, range_contains, str_eq, path_join, join_path, push_str_chars, push_decimal, decimal,
    trim, trim_range,
};
use crate::process::{ProcessOutput, tail, tail_chars};

verus! {

/// The file a project commits to opt in as a connector.
pub const ORB_FILENAME: &'static str = ".orb";

/// The GitHub organisation whose repositories are candidate tools.
pub const ELCI_GITHUB_ORG: &'static str = "elci-group";

/// A repository of the organisation, as the GitHub CLI lists it. Clones
/// only ever use `ssh_url`.
#[derive(Debug, Clone)]
pub struct GithubRepo {
    pub name: String,
    pub ssh_url: String,
    pub is_private: bool,
}

/// `[tool]` of a `.orb` file: binary name hints in priority order (empty
/// means the repository name and its `-cli` companion), and a reserved group.
#[derive(Debug, Clone)]
pub struct OrbTool {
    pub binaries: Vec<String>,
    pub group: Option<String>,
}

/// `[install]` of a `.orb` file.
#[derive(Debug, Clone)]
pub struct OrbInstall {
    pub installable: bool,
    pub prefer_release_binary: bool,
}

/// A parsed `.orb` file.
#[derive(Debug, Clone)]
pub struct OrbFile {
    pub version: u32,
    pub tool: OrbTool,
    pub install: OrbInstall,
}

/// The `version` a `.orb` file has when it names none.
pub fn default_version() -> (r: u32)
    ensures
        r == 1,
{
    1
}

/// The default of `prefer_release_binary`.
pub fn default_true() -> (r: bool)
    ensures
        r,
{
    true
}

impl Default for OrbTool {
    /// No hints and no group.
    fn default() -> (r: OrbTool)
        ensures
            r.binaries@.len() == 0,
            r.group is None,
    {
        OrbTool { binaries: Vec::new(), group: None }
    }
}

impl Default for OrbInstall {
    /// Not installable unless explicitly opted in; a release binary is
    /// preferred when an install happens.
    fn default() -> (r: OrbInstall)
        ensures
            !r.installable,
            r.prefer_release_binary,
    {
        OrbInstall { installable: false, prefer_release_binary: default_true() }
    }
}

/// The candidate names in order: `.orb`'s hints, then the repository name,
/// then `{repo}-cli`.
pub open spec fn candidate_names(repo_name: Seq<char>, hints: Seq<Seq<char>>) -> Seq<Seq<char>> {
    hints + seq![repo_name, repo_name + "-cli"@]
}

/// Candidate binary names for a repository, in priority order: `.orb`'s
/// explicit hints first, then the repository name and its `-cli` companion.
pub fn candidate_binary_names(repo_name: &str, orb_hints: &[String]) -> (r: Vec<String>)
    ensures
        r@.len() == candidate_names(repo_name@, orb_hints@.map_values(|h: String| h@)).len(),
        forall|k: int|
            0 <= k < r@.len() ==> #[trigger] r@[k]@ == candidate_names(
                repo_name@,
                orb_hints@.map_values(|h: String| h@),
            )[k],
{
    let ghost hints = orb_hints@.map_values(|h: String| h@);
    let mut names: Vec<String> = Vec::new();
    let mut k: usize = 0;
    while k < orb_hints.len()
        invariant
            k <= orb_hints@.len(),
            hints == orb_hints@.map_values(|h: String| h@),
            names@.len() == k,
            forall|t: int| 0 <= t < k ==> #[trigger] names@[t]@ == hints[t],
        decreases orb_hints@.len() - k,
    {
        names.push(orb_hints[k].clone());
        k = k + 1;
    }
    let base = chars_of(repo_name);
    names.push(string_from_chars(&base));
    let mut cli = base;
    let suffix = chars_of("-cli");
    extend_all(&mut cli, &suffix);
    names.push(string_from_chars(&cli));
    names
}

/// The Rust target triple release assets are named with, for this
/// platform's OS and architecture (`std::env::consts::{OS, ARCH}`).
pub open spec fn triple_for(os: Seq<char>, arch: Seq<char>) -> Option<Seq<char>> {
    if os == "linux"@ && arch == "x86_64"@ {
        Some("x86_64-unknown-linux-gnu"@)
    } else if os == "linux"@ && arch == "aarch64"@ {
        Some("aarch64-unknown-linux-gnu"@)
    } else if os == "macos"@ && arch == "x86_64"@ {
        Some("x86_64-apple-darwin"@)
    } else if os == "macos"@ && arch == "aarch64"@ {
        Some("aarch64-apple-darwin"@)
    } else if os == "windows"@ && arch == "x86_64"@ {
        Some("x86_64-pc-windows-msvc"@)
    } else {
        None
    }
}

/// The release-asset target triple for `os`/`arch`; only Linux, macOS and
/// Windows on x86_64/aarch64 are covered, anything else falls through to a
/// source build.
pub fn target_triple(os: &str, arch: &str) -> (r: Option<&'static str>)
    ensures
        match r {
            Some(t) => triple_for(os@, arch@) == Some(t@),
            None => triple_for(os@, arch@) is None,
        },
{
    if str_eq(os, "linux") && str_eq(arch, "x86_64") {
        Some("x86_64-unknown-linux-gnu")
    } else if str_eq(os, "linux") && str_eq(arch, "aarch64") {
        Some("aarch64-unknown-linux-gnu")
    } else if str_eq(os, "macos") && str_eq(arch, "x86_64") {
        Some("x86_64-apple-darwin")
    } else if str_eq(os, "macos") && str_eq(arch, "aarch64") {
        Some("aarch64-apple-darwin")
    } else if str_eq(os, "windows") && str_eq(arch, "x86_64") {
        Some("x86_64-pc-windows-msvc")
    } else {
        None
    }
}

/// Release files that accompany binaries but never are one.
pub open spec fn non_binary(name: Seq<char>) -> bool {
    ends_with(name, ".sha256"@) || ends_with(name, ".sig"@) || ends_with(name, ".cert"@) || ends_with(
        name,
        ".spdx.json"@,
    )
}

/// The asset a release offers for `triple`: its name contains the triple
/// and it is no checksum, signature or SBOM.
pub open spec fn asset_fits(name: Seq<char>, triple: Seq<char>) -> bool {
    contains(name, triple) && !non_binary(name)
}

/// The index of the first asset of a release that fits `triple`.
pub fn select_release_asset(asset_names: &Vec<String>, triple: &str) -> (r: Option<usize>)
    ensures
        match r {
            Some(i) => i < asset_names@.len() && asset_fits(asset_names@[i as int]@, triple@) && forall|j: int|
                0 <= j < i ==> !asset_fits(#[trigger] asset_names@[j]@, triple@),
            None => forall|j: int|
                0 <= j < asset_names@.len() ==> !asset_fits(#[trigger] asset_names@[j]@, triple@),
        },
{
    let t = chars_of(triple);
    let sfx = [chars_of(".sha256"), chars_of(".sig"), chars_of(".cert"), chars_of(".spdx.json")];
    let mut i: usize = 0;
    while i < asset_names.len()
        invariant
            i <= asset_names@.len(),
            t@ == triple@,
            sfx@[0]@ == ".sha256"@,
            sfx@[1]@ == ".sig"@,
            sfx@[2]@ == ".cert"@,
            sfx@[3]@ == ".spdx.json"@,
            forall|j: int| 0 <= j < i ==> !asset_fits(#[trigger] asset_names@[j]@, triple@),
        decreases asset_names@.len() - i,
    {
        let n = chars_of(asset_names[i].as_str());
        let len = n.len();
        assert(n@.subrange(0, len as int) == n@);
        let fits = range_contains(&n, 0, len, &t) && !range_ends_with(&n, 0, len, &sfx[0])
            && !range_ends_with(&n, 0, len, &sfx[1]) && !range_ends_with(&n, 0, len, &sfx[2])
            && !range_ends_with(&n, 0, len, &sfx[3]);
        if fits {
            return Some(i);
        }
        i = i + 1;
    }
    None
}

/// The latest release of a repository, as `gh release view --json
/// tagName,assets` describes it: its tag and its asset file names, in order.
#[derive(Debug, Clone)]
pub struct ReleaseView {
    pub tag_name: String,
    pub asset_names: Vec<String>,
}

/// The release's tag and the first of its assets that fits `triple`.
pub open spec fn release_pick(tag: Seq<char>, assets: Seq<Seq<char>>, triple: Seq<char>) -> Option<(Seq<char>, Seq<char>)> {
    if exists|i: int| 0 <= i < assets.len() && asset_fits(#[trigger] assets[i], triple) {
        let i = choose|i: int|
            0 <= i < assets.len() && asset_fits(#[trigger] assets[i], triple) && forall|j: int|
                0 <= j < i ==> !asset_fits(#[trigger] assets[j], triple);
        Some((tag, assets[i]))
    } else {
        None
    }
}

pub open spec fn pair_view(p: Option<(String, String)>) -> Option<(Seq<char>, Seq<char>)> {
    match p {
        Some(x) => Some((x.0@, x.1@)),
        None => None,
    }
}

proof fn lemma_first_fit_unique(assets: Seq<Seq<char>>, triple: Seq<char>, i: int)
    requires
        0 <= i < assets.len(),
        asset_fits(assets[i], triple),
        forall|j: int| 0 <= j < i ==> !asset_fits(#[trigger] assets[j], triple),
    ensures
        forall|k: int|
            0 <= k < assets.len() && asset_fits(#[trigger] assets[k], triple) && (forall|j: int|
                0 <= j < k ==> !asset_fits(#[trigger] assets[j], triple)) ==> k == i,
{
}

/// What to download from a release for `triple`: its tag and the first
/// asset that fits, or nothing when none does.
pub fn release_choice(view: &ReleaseView, triple: &str) -> (r: Option<(String, String)>)
    ensures
        pair_view(r) == release_pick(view.tag_name@, view.asset_names@.map_values(|a: String| a@), triple@),
{
    let ghost names = view.asset_names@.map_values(|a: String| a@);
    match select_release_asset(&view.asset_names, triple) {
        Some(i) => {
            assert(names[i as int] == view.asset_names@[i as int]@);
            assert(forall|j: int| 0 <= j < i ==> #[trigger] names[j] == view.asset_names@[j]@);
            proof {
                lemma_first_fit_unique(names, triple@, i as int);
            }
            Some((owned(view.tag_name.as_str()), owned(view.asset_names[i].as_str())))
        },
        None => {
            assert(forall|j: int| 0 <= j < names.len() ==> #[trigger] names[j] == view.asset_names@[j]@);
            None
        },
    }
}

/// The arguments of `gh release download` for one asset into `dest_dir`.
pub open spec fn release_download_argv(
    org: Seq<char>,
    repo: Seq<char>,
    tag: Seq<char>,
    asset: Seq<char>,
    dest_dir: Seq<char>,
) -> Seq<Seq<char>> {
    seq![
        "release"@,
        "download"@,
        tag,
        "--repo"@,
        org + "/"@ + repo,
        "--pattern"@,
        asset,
        "--dir"@,
        dest_dir,
        "--clobber"@,
    ]
}

fn owned(s: &str) -> (r: String)
    ensures
        r@ == s@,
{
    let c = chars_of(s);
    string_from_chars(&c)
}

/// The arguments of `gh release download` fetching `asset_name` of
/// release `tag` of `org/repo` into `dest_dir`, overwriting.
pub fn release_download_args(org: &str, repo: &str, tag: &str, asset_name: &str, dest_dir: &str) -> (r: Vec<String>)
    ensures
        r@.len() == 10,
        forall|k: int| 0 <= k < 10 ==> #[trigger] r@[k]@ == release_download_argv(org@, repo@, tag@, asset_name@, dest_dir@)[k],
{
    let mut full: Vec<char> = Vec::new();
    push_str_chars(&mut full, org);
    push_str_chars(&mut full, "/");
    push_str_chars(&mut full, repo);
    let mut r: Vec<String> = Vec::new();
    r.push(owned("release"));
    r.push(owned("download"));
    r.push(owned(tag));
    r.push(owned("--repo"));
    r.push(string_from_chars(&full));
    r.push(owned("--pattern"));
    r.push(owned(asset_name));
    r.push(owned("--dir"));
    r.push(owned(dest_dir));
    r.push(owned("--clobber"));
    r
}

/// What a `gh release download` run means: no answer in time, a failure
/// with its trimmed output, or the downloaded file's path.
pub open spec fn download_outcome(dest_dir: Seq<char>, asset: Seq<char>, output: Option<(bool, Seq<char>)>) -> Result<
    Seq<char>,
    Seq<char>,
> {
    match output {
        None => Err("`gh release download` timed out"@),
        Some(o) => if !o.0 {
            Err("`gh release download` failed: "@ + trim(o.1))
        } else {
            Ok(path_join(dest_dir, asset))
        },
    }
}

pub open spec fn result_view(r: Result<String, String>) -> Result<Seq<char>, Seq<char>> {
    match r {
        Ok(s) => Ok(s@),
        Err(e) => Err(e@),
    }
}

/// The result of downloading one named release asset into `dest_dir`
/// via `gh release download`, given what that run reported (`None` when
/// it did not finish in time).
pub fn download_release_asset(dest_dir: &str, asset_name: &str, output: Option<ProcessOutput>) -> (r: Result<String, String>)
    ensures
        result_view(r) == download_outcome(
            dest_dir@,
            asset_name@,
            match output {
                Some(o) => Some((o.success, o.text@)),
                None => None,
            },
        ),
{
    match output {
        None => Err(owned("`gh release download` timed out")),
        Some(o) => {
            if !o.success {
                let t = chars_of(o.text.as_str());
                let (a, b) = trim_range(&t, 0, t.len());
                assert(t@.subrange(0, t@.len() as int) == t@);
                let mut msg: Vec<char> = Vec::new();
                push_str_chars(&mut msg, "`gh release download` failed: ");
                let mut trimmed: Vec<char> = Vec::new();
                crate::text::extend_range(&mut trimmed, &t, a, b);
                extend_all(&mut msg, &trimmed);
                Err(string_from_chars(&msg))
            } else {
                Ok(join_path(dest_dir, asset_name))
            }
        },
    }
}

/// The default directory source checkouts are cloned into, under `home`.
pub fn default_cache_dir(home: &str) -> (r: String)
    ensures
        r@ == path_join(home@, ".local/share/orbweaver/sources"@),
{
    join_path(home, ".local/share/orbweaver/sources")
}

/// The directory release binaries are installed into, under `home`.
pub fn default_install_dir(home: &str) -> (r: String)
    ensures
        r@ == path_join(home@, ".local/bin"@),
{
    join_path(home, ".local/bin")
}

/// How a missing tool was acquired.
#[derive(Debug, Clone, Copy, PartialEq, Eq, Structural)]
pub enum InstallMethod {
    /// Downloaded a prebuilt binary from a matching GitHub release.
    ReleaseBinary,
    /// Cloned the repository over SSH and built it locally.
    SourceBuild,
}

/// Where an installed tool ended up, and how it got there.
#[derive(Debug, Clone)]
pub struct InstallOutcome {
    pub method: InstallMethod,
    pub installed_path: String,
}

/// Where a source build runs: the already-known local checkout, or a
/// clone under `cache_dir`, which is only allowed from an SSH remote and
/// for a repository name that cannot escape the cache directory.
pub open spec fn checkout_dir(name: Seq<char>, ssh_url: Seq<char>, cache_dir: Seq<char>, local: Option<Seq<char>>) -> Result<
    Seq<char>,
    Seq<char>,
> {
    match local {
        Some(l) => Ok(l),
        None => if !starts_with(ssh_url, "git@"@) {
            Err("refusing to clone a non-SSH remote: "@ + ssh_url)
        } else if contains(name, "/"@) || contains(name, ".."@) {
            Err("unsafe repo name, refusing to use it as a path component: "@ + name)
        } else {
            Ok(path_join(cache_dir, name))
        },
    }
}

pub open spec fn opt_str_view(o: Option<&str>) -> Option<Seq<char>> {
    match o {
        Some(s) => Some(s@),
        None => None,
    }
}

/// The directory a source build of `repo_name` runs in.
pub fn source_checkout_dir(repo_name: &str, ssh_url: &str, cache_dir: &str, local_repo_path: Option<&str>) -> (r: Result<String, String>)
    ensures
        result_view(r) == checkout_dir(repo_name@, ssh_url@, cache_dir@, opt_str_view(local_repo_path)),
{
    if let Some(local) = local_repo_path {
        return Ok(owned(local));
    }
    let url = chars_of(ssh_url);
    let git = chars_of("git@");
    assert(url@.subrange(0, url@.len() as int) == url@);
    if !range_starts_with(&url, 0, url.len(), &git) {
        let mut msg: Vec<char> = Vec::new();
        push_str_chars(&mut msg, "refusing to clone a non-SSH remote: ");
        push_str_chars(&mut msg, ssh_url);
        return Err(string_from_chars(&msg));
    }
    let name = chars_of(repo_name);
    let slash = chars_of("/");
    let dots = chars_of("..");
    assert(name@.subrange(0, name@.len() as int) == name@);
    if range_contains(&name, 0, name.len(), &slash) || range_contains(&name, 0, name.len(), &dots) {
        let mut msg: Vec<char> = Vec::new();
        push_str_chars(&mut msg, "unsafe repo name, refusing to use it as a path component: ");
        push_str_chars(&mut msg, repo_name);
        return Err(string_from_chars(&msg));
    }
    Ok(join_path(cache_dir, repo_name))
}

/// The error when a checkout has no `Cargo.toml`: only Rust projects build.
pub fn missing_cargo_toml_error(repo_name: &str) -> (r: String)
    ensures
        r@ == repo_name@ + " has no Cargo.toml — baby only builds Rust projects"@,
{
    let mut msg: Vec<char> = Vec::new();
    push_str_chars(&mut msg, repo_name);
    push_str_chars(&mut msg, " has no Cargo.toml — baby only builds Rust projects");
    string_from_chars(&msg)
}

/// What running a command to completion means: it did not finish within
/// `timeout_secs`, it failed (with the last 2000 characters of its output), or
/// it succeeded.
pub open spec fn captured_outcome(binary: Seq<char>, timeout_secs: nat, output: Option<(bool, Seq<char>)>) -> Result<(), Seq<char>> {
    match output {
        None => Err("`"@ + binary + "` did not finish within "@ + decimal(timeout_secs) + "s"@),
        Some(o) => if o.0 {
            Ok(())
        } else {
            Err("`"@ + binary + "` failed:\n"@ + tail_chars(o.1, 2000))
        },
    }
}

/// Interprets a captured run of `binary`: on failure the error carries a
/// tail of what the command printed.
pub fn run_captured(binary: &str, timeout_secs: u64, output: Option<ProcessOutput>) -> (r: Result<(), String>)
    ensures
        match r {
            Ok(()) => captured_outcome(binary@, timeout_secs as nat, match output {
                Some(o) => Some((o.success, o.text@)),
                None => None,
            }) == Ok::<(), Seq<char>>(()),
            Err(e) => captured_outcome(binary@, timeout_secs as nat, match output {
                Some(o) => Some((o.success, o.text@)),
                None => None,
            }) == Err::<(), Seq<char>>(e@),
        },
{
    match output {
        None => {
            let mut msg: Vec<char> = Vec::new();
            push_str_chars(&mut msg, "`");
            push_str_chars(&mut msg, binary);
            push_str_chars(&mut msg, "` did not finish within ");
            push_decimal(&mut msg, timeout_secs);
            push_str_chars(&mut msg, "s");
            Err(string_from_chars(&msg))
        },
        Some(o) => {
            if o.success {
                Ok(())
            } else {
                let mut msg: Vec<char> = Vec::new();
                push_str_chars(&mut msg, "`");
                push_str_chars(&mut msg, binary);
                push_str_chars(&mut msg, "` failed:\n");
                let t = tail(o.text.as_str(), 2000);
                push_str_chars(&mut msg, t.as_str());
                Err(string_from_chars(&msg))
            }
        },
    }
}

/// How a downloaded release asset yields its binary.
#[derive(Debug, Clone, Copy, PartialEq, Eq, Structural)]
pub enum AssetKind {
    /// A gzipped tarball, unpacked with `tar`.
    TarGz,
    /// A zip archive, unpacked with `unzip`.
    Zip,
    /// The executable itself.
    Raw,
}

pub open spec fn asset_kind_of(name: Seq<char>) -> AssetKind {
    if ends_with(name, ".tar.gz"@) || ends_with(name, ".tgz"@) {
        AssetKind::TarGz
    } else if ends_with(name, ".zip"@) {
        AssetKind::Zip
    } else {
        AssetKind::Raw
    }
}

/// Classifies a downloaded asset by its file name.
pub fn asset_kind(file_name: &str) -> (r: AssetKind)
    ensures
        r == asset_kind_of(file_name@),
{
    let n = chars_of(file_name);
    let len = n.len();
    assert(n@.subrange(0, len as int) == n@);
    let tgz1 = chars_of(".tar.gz");
    let tgz2 = chars_of(".tgz");
    let zip = chars_of(".zip");
    if range_ends_with(&n, 0, len, &tgz1) || range_ends_with(&n, 0, len, &tgz2) {
        AssetKind::TarGz
    } else if range_ends_with(&n, 0, len, &zip) {
        AssetKind::Zip
    } else {
        AssetKind::Raw
    }
}

} // verus!
