//! The ecosystem data model: repositories, their manifests and declared
//! dependencies, and what ingestion infers from them.

use vstd::prelude::*;
use crate::text::opt_chars;

verus! {

/// A dependency manifest format recognised during ingestion.
#[derive(Debug, Clone, Copy, PartialEq, Eq, Structural, PartialOrd, Ord, Hash)]
pub enum ManifestKind {
    Cargo,
    Npm,
    PyprojectPoetry,
    PyprojectPep621,
    Go,
}

/// A single declared dependency, as literally written in a manifest.
/// `resolved_repo` is filled in when the dependency name or path matches
/// another repository discovered in the same scan.
#[derive(Debug, Clone)]
pub struct DependencyRef {
    pub name: String,
    pub version_req: Option<String>,
    pub manifest: ManifestKind,
    /// The manifest points at a local path or workspace member rather
    /// than a registry package.
    pub is_path_dependency: bool,
    /// The raw local path as written in the manifest, before resolution.
    pub path_hint: Option<String>,
    pub resolved_repo: Option<String>,
}

/// A discovered repository. `last_commit_at` is a UNIX timestamp in seconds.
#[derive(Debug, Clone)]
pub struct Repository {
    pub id: String,
    pub name: String,
    pub path: String,
    pub description: Option<String>,
    pub primary_language: Option<String>,
    pub manifests: Vec<ManifestKind>,
    pub license: Option<String>,
    pub readme_present: bool,
    pub is_git_repo: bool,
    pub default_branch: Option<String>,
    pub last_commit_at: Option<i64>,
    pub commit_count: Option<u64>,
    pub contributor_count: Option<u64>,
    pub dependencies: Vec<DependencyRef>,
}

/// `Cli`: the repository declares at least one runnable binary or script.
/// `Library`: it has a manifest but no such entry point, a weaker claim.
#[derive(Debug, Clone, Copy, PartialEq, Eq, Structural)]
pub enum CapabilityKind {
    Cli,
    Library,
}

/// A conservative answer to "what does this repository do", built only
/// from evidence gathered during ingestion. `evidence_sources` counts how
/// many independent signals agree.
#[derive(Debug, Clone)]
pub struct Capability {
    pub id: String,
    pub repository: String,
    pub name: String,
    pub kind: CapabilityKind,
    pub description: Option<String>,
    pub evidence_sources: u32,
}

/// A CLI subcommand a repository exposes.
#[derive(Debug, Clone)]
pub struct Interface {
    pub id: String,
    pub repository: String,
    pub name: String,
    pub description: Option<String>,
}

/// One `name: Type` field of a schema.
#[derive(Debug, Clone)]
pub struct SchemaField {
    pub name: String,
    pub type_repr: String,
}

/// A serde-derived data structure a repository declares.
#[derive(Debug, Clone)]
pub struct Schema {
    pub id: String,
    pub repository: String,
    pub name: String,
    pub description: Option<String>,
    pub fields: Vec<SchemaField>,
}

/// Failures of ingestion and storage.
#[derive(Debug, Clone)]
pub enum OrbweaverError {
    Io { path: String, message: String },
    ManifestParse { path: String, message: String },
    Git { path: String, message: String },
    Storage(String),
    SnapshotNotFound(String),
}

/// Where a piece of evidence was read from.
#[derive(Debug, Clone, Copy, PartialEq, Eq, Structural)]
pub enum SourceType {
    Manifest,
    GitHistory,
    Readme,
    Filesystem,
}

/// A value that may be unknown for a reason that itself matters:
/// "unavailable" and "unknown" never collapse into an empty value.
#[derive(Debug, Clone)]
pub enum Availability<T> {
    Known(T),
    Unavailable { reason: String },
    Unknown,
}

/// The confidence class of a claim. Probabilities are in thousandths
/// (700 is 0.7).
#[derive(Debug, Clone, Copy, PartialEq, Eq, Structural)]
pub enum Confidence {
    /// Directly read from a source.
    Observed,
    /// Follows from observed facts by a fixed rule with no uncertainty.
    DeterministicInference,
    /// Follows from observed facts by a rule that can be wrong.
    ProbabilisticInference(u16),
    /// Produced by an LLM reasoning pass.
    LlmHypothesis(u16),
    /// A proposed future intervention, not a claim about current state.
    ProposedOpportunity,
}

/// Everything an evidence record states except its identity and the time
/// it was recorded.
#[derive(Debug, Clone)]
pub struct EvidenceClaim {
    pub source: String,
    pub source_type: SourceType,
    pub repository: String,
    pub extractor: String,
    pub confidence: Confidence,
    pub raw_reference: String,
    pub derived_claim: String,
}

/// One Rust source file of a repository: where it is, and its text.
#[derive(Debug, Clone)]
pub struct SourceFile {
    pub path: String,
    pub content: String,
}

pub open spec fn manifests_include(ms: Seq<ManifestKind>, k: ManifestKind) -> bool {
    exists|i: int| 0 <= i < ms.len() && #[trigger] ms[i] == k
}

/// Whether a repository declares a manifest of kind `k`.
pub fn has_manifest(ms: &Vec<ManifestKind>, k: ManifestKind) -> (r: bool)
    ensures
        r == manifests_include(ms@, k),
{
    let mut i: usize = 0;
    while i < ms.len()
        invariant
            i <= ms@.len(),
            forall|j: int| 0 <= j < i ==> ms@[j] != k,
        decreases ms@.len() - i,
    {
        if ms[i] == k {
            return true;
        }
        i = i + 1;
    }
    false
}

pub open spec fn claim_view(e: EvidenceClaim) -> (Seq<char>, SourceType, Seq<char>, Seq<char>, Confidence, Seq<char>, Seq<char>) {
    (e.source@, e.source_type, e.repository@, e.extractor@, e.confidence, e.raw_reference@, e.derived_claim@)
}

pub open spec fn claims_view(v: Seq<EvidenceClaim>) -> Seq<
    (Seq<char>, SourceType, Seq<char>, Seq<char>, Confidence, Seq<char>, Seq<char>),
> {
    v.map_values(|e: EvidenceClaim| claim_view(e))
}

pub open spec fn source_files_view(files: Seq<SourceFile>) -> Seq<(Seq<char>, Seq<char>)> {
    files.map_values(|f: SourceFile| (f.path@, f.content@))
}

/// A dependency as its contents: name, version requirement, manifest
/// kind, whether it is a path dependency, path hint, resolved repository.
pub open spec fn dep_view(d: DependencyRef) -> (
    Seq<char>,
    Option<Seq<char>>,
    ManifestKind,
    bool,
    Option<Seq<char>>,
    Option<Seq<char>>,
) {
    (d.name@, opt_chars(d.version_req), d.manifest, d.is_path_dependency, opt_chars(d.path_hint), opt_chars(d.resolved_repo))
}

pub open spec fn deps_view(v: Seq<DependencyRef>) -> Seq<
    (Seq<char>, Option<Seq<char>>, ManifestKind, bool, Option<Seq<char>>, Option<Seq<char>>),
> {
    v.map_values(|d: DependencyRef| dep_view(d))
}

} // verus!
