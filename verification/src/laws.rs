//! Properties of the library that span several functions or every input.

use vstd::prelude::*;
use crate::model::{Repository, ManifestKind, Confidence};
use crate::rust_scan::{stripped, in_test_block, comma_scan, top_level_commas, pieces, split_chunks, is_open_bracket, is_close_bracket};
use crate::lexer::{LexMode, lex_step, capped_next};
use crate::probe::{help_version, help_commands, commands_from, version_from, all_command_chars, commands_header_from, ansi_free};
use crate::rust_scan::line_starts;
use crate::text::{join, is_blank, lemma_join_push};
use crate::resolve::{resolution, repo_resolutions, resolutions_upto, resolutions, path_target, name_target};
use crate::analysis::{
    is_candidate, has_unresolved, in_group, strictly_sorted, ecosystem_total, max_int, candidates_sorted, comes_before,
    lemma_sorted_unique, lemma_seq_lt_irreflexive,
};
use crate::interfaces::{
    dedup_candidates, dedup_seen, found_interfaces, found_claims, source_candidates, fresh_name, interface_of, interface_claim,
};
use crate::schemas::{kept_structs, kept_seen, found_schemas, found_schema_claims, source_structs, schema_of, schema_claim};
use crate::probe::accepted_version;
use crate::connectors::checkout_dir;
use crate::probe::{
    ProbeState, ProbeEvent, ProbeStep, ProbeStage, probe_transition, event_fits, settled, args_view,
    commands_view, self_describe_index, self_describe_names,
};
use crate::text::{str_lowercase, opt_chars, starts_with, contains};
use crate::graph::{dependency_edges, edges_upto, repo_edges};
use crate::resolve::{last_index_of, ids_view, applied_pos};

verus! {

/// Stripping test modules keeps the text's layout: the same length, a
/// newline exactly where there was one, and every character outside a
/// test module as it was.
pub proof fn law_strip_keeps_layout(s: Seq<char>)
    ensures
        stripped(s).len() == s.len(),
        forall|k: int| 0 <= k < s.len() ==> (#[trigger] stripped(s)[k] == '\n' <==> s[k] == '\n'),
        forall|k: int| 0 <= k < s.len() && !in_test_block(s, k) ==> #[trigger] stripped(s)[k] == s[k],
{
}

proof fn lemma_repo_resolutions_valid(
    repos: Seq<Repository>,
    canon: Seq<Option<String>>,
    hints: Seq<Vec<Option<String>>>,
    i: int,
    n: int,
)
    ensures
        forall|t: int|
            0 <= t < repo_resolutions(repos, canon, hints, i, n).len() ==> {
                let x = #[trigger] repo_resolutions(repos, canon, hints, i, n)[t];
                x.0 == i && resolution(repos, canon, hints, x.0, x.1) == Some((x.2, x.3))
            },
    decreases n,
{
    if n > 0 {
        lemma_repo_resolutions_valid(repos, canon, hints, i, n - 1);
        let a = repo_resolutions(repos, canon, hints, i, n - 1);
        let full = repo_resolutions(repos, canon, hints, i, n);
        assert forall|t: int| 0 <= t < full.len() implies {
            let x = #[trigger] full[t];
            x.0 == i && resolution(repos, canon, hints, x.0, x.1) == Some((x.2, x.3))
        } by {
            if t < a.len() {
                assert(full[t] == a[t]);
            }
        }
    }
}

proof fn lemma_resolutions_valid(
    repos: Seq<Repository>,
    canon: Seq<Option<String>>,
    hints: Seq<Vec<Option<String>>>,
    m: int,
)
    ensures
        forall|t: int|
            0 <= t < resolutions_upto(repos, canon, hints, m).len() ==> {
                let x = #[trigger] resolutions_upto(repos, canon, hints, m)[t];
                resolution(repos, canon, hints, x.0, x.1) == Some((x.2, x.3))
            },
    decreases m,
{
    if m > 0 {
        lemma_resolutions_valid(repos, canon, hints, m - 1);
        let a = resolutions_upto(repos, canon, hints, m - 1);
        let b = repo_resolutions(repos, canon, hints, m - 1, repos[m - 1].dependencies@.len() as int);
        lemma_repo_resolutions_valid(repos, canon, hints, m - 1, repos[m - 1].dependencies@.len() as int);
        let full = resolutions_upto(repos, canon, hints, m);
        assert forall|t: int| 0 <= t < full.len() implies {
            let x = #[trigger] full[t];
            resolution(repos, canon, hints, x.0, x.1) == Some((x.2, x.3))
        } by {
            if t < a.len() {
                assert(full[t] == a[t]);
            } else {
                assert(full[t] == b[t - a.len()]);
            }
        }
    }
}

/// A dependency never resolves to the repository that declares it: every
/// resolution's target has an id other than its declarer's.
pub proof fn law_resolution_never_self(
    repos: Seq<Repository>,
    canon: Seq<Option<String>>,
    hints: Seq<Vec<Option<String>>>,
)
    ensures
        forall|t: int|
            0 <= t < resolutions(repos, canon, hints).len() ==> {
                let x = #[trigger] resolutions(repos, canon, hints)[t];
                repos[x.2].id@ != repos[x.0].id@
            },
{
    lemma_resolutions_valid(repos, canon, hints, repos.len() as int);
}

/// A path dependency that leads to another discovered repository resolves
/// to it by path, whatever a name match would say.
pub proof fn law_path_match_wins(
    repos: Seq<Repository>,
    canon: Seq<Option<String>>,
    hints: Seq<Vec<Option<String>>>,
    i: int,
    j: int,
    k: int,
)
    requires
        path_target(repos, canon, hints, i, j) == Some(k),
        repos[k].id@ != repos[i].id@,
    ensures
        resolution(repos, canon, hints, i, j) == Some((k, true)),
{
}

/// When every declared dependency is resolved to a discovered repository,
/// nothing is a shared-dependency candidate: internal dependencies are
/// graph edges, not duplication.
pub proof fn law_resolved_dependencies_never_candidates(
    repos: Seq<Repository>,
    min_repos: int,
    caps: Seq<usize>,
    c: (Seq<char>, ManifestKind, Seq<Seq<char>>, int),
)
    requires
        forall|i: int, j: int|
            0 <= i < repos.len() && 0 <= j < repos[i].dependencies@.len() ==> (#[trigger] repos[i].dependencies@[j]).resolved_repo is Some,
    ensures
        !is_candidate(repos, min_repos, caps, c),
{
    if is_candidate(repos, min_repos, caps, c) {
        assert(c.2.contains(c.2[0]));
        assert(in_group(repos, c.0, c.1, c.2[0]));
    }
}

/// A dependency shared by exactly `min_repos` repositories is a candidate
/// however small its ecosystem: the ubiquity cap never falls below
/// `min_repos`.
pub proof fn law_min_repos_floor(
    repos: Seq<Repository>,
    min_repos: int,
    caps: Seq<usize>,
    c: (Seq<char>, ManifestKind, Seq<Seq<char>>, int),
)
    requires
        min_repos >= 1,
        c.2.len() == min_repos,
        strictly_sorted(c.2),
        forall|id: Seq<char>| c.2.contains(id) <==> in_group(repos, c.0, c.1, id),
        c.3 == ecosystem_total(repos, c.1, c.2.len() as int),
    ensures
        is_candidate(repos, min_repos, caps, c),
{
}

proof fn lemma_dedup_candidates(cs: Seq<(Seq<char>, Option<Seq<char>>, Seq<char>, Seq<char>)>, seen: Seq<Seq<char>>)
    ensures
        forall|t: int|
            0 <= t < dedup_candidates(cs, seen).len() ==> #[trigger] dedup_candidates(cs, seen)[t].0.len() > 0
                && !seen.contains(dedup_candidates(cs, seen)[t].0) && dedup_seen(cs, seen).contains(
                dedup_candidates(cs, seen)[t].0,
            ),
        forall|a: int, b: int|
            0 <= a < b < dedup_candidates(cs, seen).len() ==> #[trigger] dedup_candidates(cs, seen)[a].0
                != #[trigger] dedup_candidates(cs, seen)[b].0,
        forall|x: Seq<char>| seen.contains(x) ==> #[trigger] dedup_seen(cs, seen).contains(x),
    decreases cs.len(),
{
    if cs.len() > 0 {
        if fresh_name(cs[0].0, seen) {
            let s2 = seen.push(cs[0].0);
            lemma_dedup_candidates(cs.drop_first(), s2);
            let d = dedup_candidates(cs, seen);
            let r = dedup_candidates(cs.drop_first(), s2);
            assert(d == seq![cs[0]] + r);
            assert(dedup_seen(cs, seen) == dedup_seen(cs.drop_first(), s2));
            assert(s2.contains(cs[0].0)) by {
                assert(s2[seen.len() as int] == cs[0].0);
            }
            assert(dedup_seen(cs.drop_first(), s2).contains(cs[0].0));
            assert forall|x: Seq<char>| seen.contains(x) implies #[trigger] dedup_seen(cs, seen).contains(x) by {
                let i = choose|i: int| 0 <= i < seen.len() && seen[i] == x;
                assert(s2[i] == x);
            }
            assert forall|t: int| 0 <= t < d.len() implies #[trigger] d[t].0.len() > 0 && !seen.contains(d[t].0)
                && dedup_seen(cs, seen).contains(d[t].0) by {
                if t == 0 {
                    assert(d[0] == cs[0]);
                } else {
                    assert(d[t] == r[t - 1]);
                    if seen.contains(d[t].0) {
                        let i = choose|i: int| 0 <= i < seen.len() && seen[i] == d[t].0;
                        assert(s2[i] == d[t].0);
                    }
                }
            }
            assert forall|a: int, b: int| 0 <= a < b < d.len() implies #[trigger] d[a].0 != #[trigger] d[b].0 by {
                if a == 0 {
                    assert(d[0] == cs[0]);
                    assert(d[b] == r[b - 1]);
                } else {
                    assert(d[a] == r[a - 1]);
                    assert(d[b] == r[b - 1]);
                }
            }
        } else {
            lemma_dedup_candidates(cs.drop_first(), seen);
            assert(dedup_candidates(cs, seen) == dedup_candidates(cs.drop_first(), seen));
            assert(dedup_seen(cs, seen) == dedup_seen(cs.drop_first(), seen));
        }
    }
}

proof fn lemma_found_interface_names(repo_id: Seq<char>, files: Seq<(Seq<char>, Seq<char>)>, seen: Seq<Seq<char>>)
    ensures
        forall|t: int|
            0 <= t < found_interfaces(repo_id, files, seen).len() ==> #[trigger] found_interfaces(repo_id, files, seen)[t].2.len()
                > 0 && !seen.contains(found_interfaces(repo_id, files, seen)[t].2),
        forall|a: int, b: int|
            0 <= a < b < found_interfaces(repo_id, files, seen).len() ==> #[trigger] found_interfaces(
                repo_id,
                files,
                seen,
            )[a].2 != #[trigger] found_interfaces(repo_id, files, seen)[b].2,
    decreases files.len(),
{
    if files.len() > 0 {
        let cs = source_candidates(files[0].1);
        let s2 = dedup_seen(cs, seen);
        lemma_dedup_candidates(cs, seen);
        lemma_found_interface_names(repo_id, files.drop_first(), s2);
        let head = dedup_candidates(cs, seen).map_values(
            |c: (Seq<char>, Option<Seq<char>>, Seq<char>, Seq<char>)| interface_of(repo_id, c),
        );
        let rest = found_interfaces(repo_id, files.drop_first(), s2);
        let all = found_interfaces(repo_id, files, seen);
        assert(all == head + rest);
        assert forall|t: int| 0 <= t < all.len() implies #[trigger] all[t].2.len() > 0 && !seen.contains(all[t].2) by {
            if t < head.len() {
                assert(all[t] == head[t]);
                assert(head[t].2 == dedup_candidates(cs, seen)[t].0);
            } else {
                assert(all[t] == rest[t - head.len()]);
            }
        }
        assert forall|a: int, b: int| 0 <= a < b < all.len() implies #[trigger] all[a].2 != #[trigger] all[b].2 by {
            if b < head.len() {
                assert(all[a] == head[a]);
                assert(all[b] == head[b]);
                assert(head[a].2 == dedup_candidates(cs, seen)[a].0);
                assert(head[b].2 == dedup_candidates(cs, seen)[b].0);
            } else if a < head.len() {
                assert(all[a] == head[a]);
                assert(all[b] == rest[b - head.len()]);
                assert(head[a].2 == dedup_candidates(cs, seen)[a].0);
                assert(s2.contains(head[a].2));
            } else {
                assert(all[a] == rest[a - head.len()]);
                assert(all[b] == rest[b - head.len()]);
            }
        }
    }
}

/// The CLI interfaces found in a repository have non-empty names, each
/// name at most once.
pub proof fn law_interface_names_distinct(repo_id: Seq<char>, files: Seq<(Seq<char>, Seq<char>)>)
    ensures
        forall|t: int|
            0 <= t < found_interfaces(repo_id, files, seq![]).len() ==> #[trigger] found_interfaces(
                repo_id,
                files,
                seq![],
            )[t].2.len() > 0,
        forall|a: int, b: int|
            0 <= a < b < found_interfaces(repo_id, files, seq![]).len() ==> #[trigger] found_interfaces(
                repo_id,
                files,
                seq![],
            )[a].2 != #[trigger] found_interfaces(repo_id, files, seq![])[b].2,
{
    lemma_found_interface_names(repo_id, files, seq![]);
}

proof fn lemma_kept_structs(bs: Seq<(Seq<char>, Option<Seq<char>>, Seq<char>)>, seen: Seq<Seq<char>>)
    ensures
        forall|t: int|
            0 <= t < kept_structs(bs, seen).len() ==> (#[trigger] kept_structs(bs, seen)[t]).1.len() > 0 && !seen.contains(
                kept_structs(bs, seen)[t].0.0,
            ) && kept_seen(bs, seen).contains(kept_structs(bs, seen)[t].0.0),
        forall|a: int, b: int|
            0 <= a < b < kept_structs(bs, seen).len() ==> (#[trigger] kept_structs(bs, seen)[a]).0.0 != (
            #[trigger] kept_structs(bs, seen)[b]).0.0,
        forall|x: Seq<char>| seen.contains(x) ==> #[trigger] kept_seen(bs, seen).contains(x),
    decreases bs.len(),
{
    if bs.len() > 0 {
        if seen.contains(bs[0].0) {
            lemma_kept_structs(bs.drop_first(), seen);
            assert(kept_structs(bs, seen) == kept_structs(bs.drop_first(), seen));
            assert(kept_seen(bs, seen) == kept_seen(bs.drop_first(), seen));
        } else {
            let s2 = seen.push(bs[0].0);
            lemma_kept_structs(bs.drop_first(), s2);
            let r = kept_structs(bs.drop_first(), s2);
            let d = kept_structs(bs, seen);
            assert(kept_seen(bs, seen) == kept_seen(bs.drop_first(), s2));
            assert(s2.contains(bs[0].0)) by {
                assert(s2[seen.len() as int] == bs[0].0);
            }
            assert(kept_seen(bs.drop_first(), s2).contains(bs[0].0));
            assert forall|x: Seq<char>| seen.contains(x) implies #[trigger] kept_seen(bs, seen).contains(x) by {
                let i = choose|i: int| 0 <= i < seen.len() && seen[i] == x;
                assert(s2[i] == x);
            }
            let head_len: int = d.len() - r.len();
            assert(head_len == 0 || head_len == 1);
            assert forall|t: int| 0 <= t < d.len() implies (#[trigger] d[t]).1.len() > 0 && !seen.contains(d[t].0.0)
                && kept_seen(bs, seen).contains(d[t].0.0) by {
                if t < head_len {
                    assert(d[t].0 == bs[0]);
                } else {
                    assert(d[t] == r[t - head_len]);
                    if seen.contains(d[t].0.0) {
                        let i = choose|i: int| 0 <= i < seen.len() && seen[i] == d[t].0.0;
                        assert(s2[i] == d[t].0.0);
                    }
                }
            }
            assert forall|a: int, b: int| 0 <= a < b < d.len() implies (#[trigger] d[a]).0.0 != (#[trigger] d[b]).0.0 by {
                if a < head_len {
                    assert(d[a].0 == bs[0]);
                    assert(d[b] == r[b - head_len]);
                } else {
                    assert(d[a] == r[a - head_len]);
                    assert(d[b] == r[b - head_len]);
                }
            }
        }
    }
}

proof fn lemma_found_schemas(repo_id: Seq<char>, files: Seq<(Seq<char>, Seq<char>)>, seen: Seq<Seq<char>>)
    ensures
        forall|t: int|
            0 <= t < found_schemas(repo_id, files, seen).len() ==> (#[trigger] found_schemas(repo_id, files, seen)[t]).4.len()
                > 0 && !seen.contains(found_schemas(repo_id, files, seen)[t].2),
        forall|a: int, b: int|
            0 <= a < b < found_schemas(repo_id, files, seen).len() ==> (#[trigger] found_schemas(repo_id, files, seen)[a]).2
                != (#[trigger] found_schemas(repo_id, files, seen)[b]).2,
    decreases files.len(),
{
    if files.len() > 0 {
        let bs = source_structs(files[0].1);
        let s2 = kept_seen(bs, seen);
        lemma_kept_structs(bs, seen);
        lemma_found_schemas(repo_id, files.drop_first(), s2);
        let k = kept_structs(bs, seen);
        let head = k.map_values(
            |x: ((Seq<char>, Option<Seq<char>>, Seq<char>), Seq<(Seq<char>, Seq<char>)>)| schema_of(repo_id, x),
        );
        let rest = found_schemas(repo_id, files.drop_first(), s2);
        let all = found_schemas(repo_id, files, seen);
        assert(all == head + rest);
        assert forall|t: int| 0 <= t < all.len() implies (#[trigger] all[t]).4.len() > 0 && !seen.contains(all[t].2) by {
            if t < head.len() {
                assert(all[t] == head[t]);
                assert(head[t] == schema_of(repo_id, k[t]));
            } else {
                assert(all[t] == rest[t - head.len()]);
                if seen.contains(all[t].2) {
                    assert(s2.contains(all[t].2));
                }
            }
        }
        assert forall|a: int, b: int| 0 <= a < b < all.len() implies (#[trigger] all[a]).2 != (#[trigger] all[b]).2 by {
            if b < head.len() {
                assert(all[a] == head[a]);
                assert(all[b] == head[b]);
                assert(head[a] == schema_of(repo_id, k[a]));
                assert(head[b] == schema_of(repo_id, k[b]));
            } else if a < head.len() {
                assert(all[a] == head[a]);
                assert(all[b] == rest[b - head.len()]);
                assert(head[a] == schema_of(repo_id, k[a]));
                assert(s2.contains(head[a].2));
            } else {
                assert(all[a] == rest[a - head.len()]);
                assert(all[b] == rest[b - head.len()]);
            }
        }
    }
}

/// Every schema found in a repository has at least one field, and no
/// struct name is reported twice.
pub proof fn law_schemas_have_fields_and_distinct_names(repo_id: Seq<char>, files: Seq<(Seq<char>, Seq<char>)>)
    ensures
        forall|t: int|
            0 <= t < found_schemas(repo_id, files, seq![]).len() ==> (#[trigger] found_schemas(repo_id, files, seq![])[t]).4.len()
                > 0,
        forall|a: int, b: int|
            0 <= a < b < found_schemas(repo_id, files, seq![]).len() ==> (#[trigger] found_schemas(repo_id, files, seq![])[a]).2
                != (#[trigger] found_schemas(repo_id, files, seq![])[b]).2,
{
    lemma_found_schemas(repo_id, files, seq![]);
}

proof fn lemma_self_describe_index(cs: Seq<(Seq<char>, Option<Seq<char>>)>)
    ensures
        match self_describe_index(cs) {
            Some(k) => 0 <= k < cs.len() && self_describe_names().contains(str_lowercase(cs[k].0)),
            None => true,
        },
    decreases cs.len(),
{
    if cs.len() > 0 && !self_describe_names().contains(str_lowercase(cs[0].0)) {
        lemma_self_describe_index(cs.drop_first());
    }
}

/// The command a probe runs is one the tool's `--help` listed.
pub open spec fn listed_self_description(st: ProbeState, args: Seq<Seq<char>>) -> bool {
    &&& args.len() == 1
    &&& exists|k: int| 0 <= k < st.commands@.len() && #[trigger] commands_view(st.commands@)[k].0 == args[0]
    &&& self_describe_names().contains(str_lowercase(args[0]))
}

proof fn lemma_settled_runs(st: ProbeState, r: (ProbeState, ProbeStep))
    requires
        settled(st, r),
    ensures
        match r.1 {
            ProbeStep::Run(args) => listed_self_description(r.0, args_view(args@)),
            _ => true,
        },
{
    let cs = commands_view(st.commands@);
    lemma_self_describe_index(cs);
    match (if st.has_repo { self_describe_index(cs) } else { None }) {
        Some(k) => {
            match r.1 {
                ProbeStep::Run(args) => {
                    assert(args_view(args@) == seq![cs[k].0]);
                    assert(commands_view(r.0.commands@) == cs);
                    assert(commands_view(r.0.commands@)[k].0 == args_view(args@)[0]);
                    assert(r.0.commands@.len() == commands_view(r.0.commands@).len());
                },
                _ => {},
            }
        },
        None => {},
    }
}

/// A probe runs nothing but `--help`, `--version`, and a self-description
/// command (`capabilities`, `capability`, `manifest` or `describe`, in any
/// case) that the tool's own `--help` listed.
pub proof fn law_probe_runs_only_known_commands(st: ProbeState, e: ProbeEvent, r: (ProbeState, ProbeStep))
    requires
        event_fits(st.stage, e),
        probe_transition(st, e, r),
    ensures
        match r.1 {
            ProbeStep::Run(args) => args_view(args@) == seq!["--help"@] || args_view(args@) == seq!["--version"@]
                || listed_self_description(r.0, args_view(args@)),
            _ => true,
        },
{
    match st.stage {
        ProbeStage::AwaitingHelp => match e {
            ProbeEvent::Ran(Some(o)) => {
                if crate::probe::help_version(o.text@) is Some {
                    let mid = choose|mid: ProbeState|
                        {
                            &&& crate::probe::same_probe(mid, st)
                            &&& mid.stage == ProbeStage::AwaitingVersion
                            &&& mid.binary_path@ == st.binary_path@
                            &&& crate::text::opt_chars(mid.version) == crate::probe::help_version(o.text@)
                            &&& commands_view(mid.commands@) == crate::probe::help_commands(o.text@)
                            &&& settled(mid, r)
                        };
                    lemma_settled_runs(mid, r);
                }
            },
            _ => {},
        },
        ProbeStage::AwaitingVersion => match e {
            ProbeEvent::Ran(o) => {
                let mid = choose|mid: ProbeState|
                    {
                        &&& crate::probe::same_probe(mid, st)
                        &&& mid.stage == ProbeStage::AwaitingVersion
                        &&& mid.binary_path@ == st.binary_path@
                        &&& crate::text::opt_chars(mid.version) == crate::probe::accepted_version(crate::probe::output_view(o))
                        &&& commands_view(mid.commands@) == commands_view(st.commands@)
                        &&& settled(mid, r)
                    };
                lemma_settled_runs(mid, r);
            },
            _ => {},
        },
        _ => {},
    }
}

/// How far a probe has come.
pub open spec fn stage_rank(s: ProbeStage) -> int {
    match s {
        ProbeStage::Locating => 0,
        ProbeStage::AwaitingHelp => 1,
        ProbeStage::AwaitingVersion => 2,
        ProbeStage::AwaitingSelfDescribe => 3,
        ProbeStage::Finished => 4,
    }
}

proof fn lemma_settled_progress(mid: ProbeState, r: (ProbeState, ProbeStep))
    requires
        settled(mid, r),
    ensures
        (r.0.stage == ProbeStage::AwaitingSelfDescribe && r.1 is Run) || (r.0.stage == ProbeStage::Finished
            && r.1 is Done),
{
}

/// Every answer moves a probe strictly forward, and a probe hands back its
/// report exactly when it finishes; so a probe finishes after at most four
/// answers.
pub proof fn law_probe_always_progresses(st: ProbeState, e: ProbeEvent, r: (ProbeState, ProbeStep))
    requires
        event_fits(st.stage, e),
        probe_transition(st, e, r),
    ensures
        stage_rank(r.0.stage) > stage_rank(st.stage),
        (r.1 is Done) <==> r.0.stage == ProbeStage::Finished,
{
    match st.stage {
        ProbeStage::AwaitingHelp => match e {
            ProbeEvent::Ran(Some(o)) => {
                if crate::probe::help_version(o.text@) is Some {
                    let mid = choose|mid: ProbeState|
                        {
                            &&& crate::probe::same_probe(mid, st)
                            &&& mid.stage == ProbeStage::AwaitingVersion
                            &&& mid.binary_path@ == st.binary_path@
                            &&& crate::text::opt_chars(mid.version) == crate::probe::help_version(o.text@)
                            &&& commands_view(mid.commands@) == crate::probe::help_commands(o.text@)
                            &&& settled(mid, r)
                        };
                    lemma_settled_progress(mid, r);
                }
            },
            _ => {},
        },
        ProbeStage::AwaitingVersion => match e {
            ProbeEvent::Ran(o) => {
                let mid = choose|mid: ProbeState|
                    {
                        &&& crate::probe::same_probe(mid, st)
                        &&& mid.stage == ProbeStage::AwaitingVersion
                        &&& mid.binary_path@ == st.binary_path@
                        &&& crate::text::opt_chars(mid.version) == crate::probe::accepted_version(crate::probe::output_view(o))
                        &&& commands_view(mid.commands@) == commands_view(st.commands@)
                        &&& settled(mid, r)
                    };
                lemma_settled_progress(mid, r);
            },
            _ => {},
        },
        _ => {},
    }
}

/// Edge `x` stands for dependency `j` of repository `i`: it leads from
/// a repository with `i`'s id to one with the id `j` resolved to.
pub open spec fn edge_backed(repos: Seq<Repository>, x: (int, int, Seq<char>, bool), i: int, j: int) -> bool {
    &&& 0 <= i < repos.len()
    &&& 0 <= j < repos[i].dependencies@.len()
    &&& repos[x.0].id@ == repos[i].id@
    &&& opt_chars(repos[i].dependencies@[j].resolved_repo) == Some(repos[x.1].id@)
    &&& repos[i].dependencies@[j].name@ == x.2
    &&& repos[i].dependencies@[j].is_path_dependency == x.3
}

pub open spec fn backed(repos: Seq<Repository>, x: (int, int, Seq<char>, bool)) -> bool {
    exists|i: int, j: int| edge_backed(repos, x, i, j)
}

proof fn lemma_repo_edges_backed(repos: Seq<Repository>, i: int, n: int)
    requires
        0 <= i < repos.len(),
        n <= repos[i].dependencies@.len(),
    ensures
        forall|t: int| 0 <= t < repo_edges(repos, i, n).len() ==> backed(repos, #[trigger] repo_edges(repos, i, n)[t]),
    decreases n,
{
    if n > 0 {
        lemma_repo_edges_backed(repos, i, n - 1);
        let a = repo_edges(repos, i, n - 1);
        let full = repo_edges(repos, i, n);
        let d = repos[i].dependencies@[n - 1];
        assert forall|t: int| 0 <= t < full.len() implies backed(repos, #[trigger] full[t]) by {
            if t < a.len() {
                assert(full[t] == a[t]);
            } else {
                let tgt = opt_chars(d.resolved_repo).unwrap();
                let to = last_index_of(ids_view(repos), tgt, repos.len() as int).unwrap();
                crate::resolve::lemma_last_index_bounds(ids_view(repos), tgt, repos.len() as int);
                crate::resolve::lemma_last_index_bounds(ids_view(repos), repos[i].id@, repos.len() as int);
                assert(ids_view(repos)[to] == Some(repos[to].id@));
                assert(ids_view(repos)[i] == Some(repos[i].id@));
                let from = applied_pos(repos, i);
                assert(ids_view(repos)[from] == Some(repos[from].id@));
                assert(edge_backed(repos, full[t], i, n - 1));
            }
        }
    }
}

proof fn lemma_edges_upto_backed(repos: Seq<Repository>, m: int)
    requires
        m <= repos.len(),
    ensures
        forall|t: int| 0 <= t < edges_upto(repos, m).len() ==> backed(repos, #[trigger] edges_upto(repos, m)[t]),
    decreases m,
{
    if m > 0 {
        lemma_edges_upto_backed(repos, m - 1);
        lemma_repo_edges_backed(repos, m - 1, repos[m - 1].dependencies@.len() as int);
        let a = edges_upto(repos, m - 1);
        let b = repo_edges(repos, m - 1, repos[m - 1].dependencies@.len() as int);
        let full = edges_upto(repos, m);
        assert forall|t: int| 0 <= t < full.len() implies backed(repos, #[trigger] full[t]) by {
            if t < a.len() {
                assert(full[t] == a[t]);
            } else {
                assert(full[t] == b[t - a.len()]);
            }
        }
    }
}

/// Every edge of the ecosystem graph stands for a declared dependency that
/// was resolved: it leads from the declaring repository to the one the
/// dependency resolved to, and carries the dependency's name and kind.
pub proof fn law_graph_edges_are_resolved_dependencies(repos: Seq<Repository>)
    ensures
        forall|t: int| 0 <= t < dependency_edges(repos).len() ==> backed(repos, #[trigger] dependency_edges(repos)[t]),
{
    lemma_edges_upto_backed(repos, repos.len() as int);
}

proof fn lemma_interface_claims_probabilistic(repo_id: Seq<char>, files: Seq<(Seq<char>, Seq<char>)>, seen: Seq<Seq<char>>)
    ensures
        forall|t: int|
            0 <= t < found_claims(repo_id, files, seen).len() ==> (#[trigger] found_claims(repo_id, files, seen)[t]).4
                == Confidence::ProbabilisticInference(700),
    decreases files.len(),
{
    if files.len() > 0 {
        let cs = source_candidates(files[0].1);
        let s2 = dedup_seen(cs, seen);
        lemma_interface_claims_probabilistic(repo_id, files.drop_first(), s2);
        let head = dedup_candidates(cs, seen).map_values(
            |c: (Seq<char>, Option<Seq<char>>, Seq<char>, Seq<char>)| interface_claim(repo_id, c, files[0].0),
        );
        let rest = found_claims(repo_id, files.drop_first(), s2);
        let all = found_claims(repo_id, files, seen);
        assert(all == head + rest);
        assert forall|t: int| 0 <= t < all.len() implies (#[trigger] all[t]).4 == Confidence::ProbabilisticInference(700) by {
            if t < head.len() {
                assert(all[t] == head[t]);
            } else {
                assert(all[t] == rest[t - head.len()]);
            }
        }
    }
}

proof fn lemma_schema_claims_probabilistic(repo_id: Seq<char>, files: Seq<(Seq<char>, Seq<char>)>, seen: Seq<Seq<char>>)
    ensures
        forall|t: int|
            0 <= t < found_schema_claims(repo_id, files, seen).len() ==> (#[trigger] found_schema_claims(
                repo_id,
                files,
                seen,
            )[t]).4 == Confidence::ProbabilisticInference(700),
    decreases files.len(),
{
    if files.len() > 0 {
        let bs = source_structs(files[0].1);
        let s2 = kept_seen(bs, seen);
        lemma_schema_claims_probabilistic(repo_id, files.drop_first(), s2);
        let head = kept_structs(bs, seen).map_values(
            |k: ((Seq<char>, Option<Seq<char>>, Seq<char>), Seq<(Seq<char>, Seq<char>)>)| schema_claim(repo_id, k, files[0].0),
        );
        let rest = found_schema_claims(repo_id, files.drop_first(), s2);
        let all = found_schema_claims(repo_id, files, seen);
        assert(all == head + rest);
        assert forall|t: int| 0 <= t < all.len() implies (#[trigger] all[t]).4 == Confidence::ProbabilisticInference(700) by {
            if t < head.len() {
                assert(all[t] == head[t]);
            } else {
                assert(all[t] == rest[t - head.len()]);
            }
        }
    }
}

/// What the heuristic extractors find (CLI subcommands from source enums,
/// schemas from serde-derived structs) is recorded as a probabilistic
/// inference, never as an observed or deterministic fact.
pub proof fn law_heuristic_findings_are_probabilistic(repo_id: Seq<char>, files: Seq<(Seq<char>, Seq<char>)>)
    ensures
        forall|t: int|
            0 <= t < found_claims(repo_id, files, seq![]).len() ==> (#[trigger] found_claims(repo_id, files, seq![])[t]).4
                == Confidence::ProbabilisticInference(700),
        forall|t: int|
            0 <= t < found_schema_claims(repo_id, files, seq![]).len() ==> (#[trigger] found_schema_claims(
                repo_id,
                files,
                seq![],
            )[t]).4 == Confidence::ProbabilisticInference(700),
{
    lemma_interface_claims_probabilistic(repo_id, files, seq![]);
    lemma_schema_claims_probabilistic(repo_id, files, seq![]);
}

/// A version is taken only from a run that exited successfully, and is
/// never empty: the error text of a tool that rejects `--version` is never
/// mistaken for its version.
pub proof fn law_version_only_from_successful_runs(output: Option<(bool, Seq<char>)>)
    ensures
        accepted_version(output) matches Some(v) ==> output matches Some(o) && o.0 && v.len() > 0,
{
}

/// A source build outside a known local checkout clones only an SSH remote,
/// into a directory named by a repository name with no path separator and
/// no `..`; a known local checkout is always used as it is.
pub proof fn law_checkout_refuses_unsafe_sources(
    name: Seq<char>,
    ssh_url: Seq<char>,
    cache_dir: Seq<char>,
    local: Option<Seq<char>>,
)
    ensures
        local matches Some(l) ==> checkout_dir(name, ssh_url, cache_dir, local) == Ok::<Seq<char>, Seq<char>>(l),
        local is None && checkout_dir(name, ssh_url, cache_dir, local) is Ok ==> starts_with(ssh_url, "git@"@) && !contains(
            name,
            "/"@,
        ) && !contains(name, ".."@),
{
}

/// Two candidates for the same dependency name and manifest kind are the
/// same candidate: the repositories sharing it and its ecosystem total are
/// fixed by the pair.
pub proof fn law_candidate_fixed_by_its_pair(
    repos: Seq<Repository>,
    min_repos: int,
    caps: Seq<usize>,
    c: (Seq<char>, ManifestKind, Seq<Seq<char>>, int),
    d: (Seq<char>, ManifestKind, Seq<Seq<char>>, int),
)
    requires
        is_candidate(repos, min_repos, caps, c),
        is_candidate(repos, min_repos, caps, d),
        c.0 == d.0,
        c.1 == d.1,
    ensures
        c == d,
{
    assert forall|id: Seq<char>| c.2.contains(id) <==> d.2.contains(id) by {}
    lemma_sorted_unique(c.2, d.2);
}

/// No two shared-dependency candidates in a sorted list of candidates name
/// the same dependency of the same manifest kind.
pub proof fn law_candidate_pairs_distinct(
    repos: Seq<Repository>,
    min_repos: int,
    caps: Seq<usize>,
    v: Seq<(Seq<char>, ManifestKind, Seq<Seq<char>>, int)>,
)
    requires
        forall|i: int| 0 <= i < v.len() ==> is_candidate(repos, min_repos, caps, #[trigger] v[i]),
        candidates_sorted(v),
    ensures
        forall|i: int, j: int| 0 <= i < j < v.len() ==> (#[trigger] v[i].0, v[i].1) != (#[trigger] v[j].0, v[j].1),
{
    assert forall|i: int, j: int| 0 <= i < j < v.len() implies (#[trigger] v[i].0, v[i].1) != (#[trigger] v[j].0, v[j].1) by {
        if v[i].0 == v[j].0 && v[i].1 == v[j].1 {
            law_candidate_fixed_by_its_pair(repos, min_repos, caps, v[i], v[j]);
            assert(comes_before(v[i], v[j]));
            lemma_seq_lt_irreflexive(v[i].0);
        }
    }
}

proof fn lemma_interfaces_and_claims(repo_id: Seq<char>, files: Seq<(Seq<char>, Seq<char>)>, seen: Seq<Seq<char>>)
    ensures
        found_interfaces(repo_id, files, seen).len() == found_claims(repo_id, files, seen).len(),
        forall|t: int|
            0 <= t < found_interfaces(repo_id, files, seen).len() ==> {
                let x = #[trigger] found_interfaces(repo_id, files, seen)[t];
                x.0 == repo_id + ":"@ + x.2 && x.1 == repo_id
            },
    decreases files.len(),
{
    if files.len() > 0 {
        let cs = source_candidates(files[0].1);
        let s2 = dedup_seen(cs, seen);
        lemma_interfaces_and_claims(repo_id, files.drop_first(), s2);
        let d = dedup_candidates(cs, seen);
        let head = d.map_values(|c: (Seq<char>, Option<Seq<char>>, Seq<char>, Seq<char>)| interface_of(repo_id, c));
        let rest = found_interfaces(repo_id, files.drop_first(), s2);
        let all = found_interfaces(repo_id, files, seen);
        assert(all == head + rest);
        assert(found_claims(repo_id, files, seen) == d.map_values(
            |c: (Seq<char>, Option<Seq<char>>, Seq<char>, Seq<char>)| interface_claim(repo_id, c, files[0].0),
        ) + found_claims(repo_id, files.drop_first(), s2));
        assert forall|t: int| 0 <= t < all.len() implies {
            let x = #[trigger] all[t];
            x.0 == repo_id + ":"@ + x.2 && x.1 == repo_id
        } by {
            if t < head.len() {
                assert(all[t] == head[t]);
            } else {
                assert(all[t] == rest[t - head.len()]);
            }
        }
    }
}

/// Each CLI interface found in a repository belongs to it, has the id
/// `<repository>:<name>`, and comes with exactly one evidence record.
pub proof fn law_interfaces_are_keyed_by_repository(repo_id: Seq<char>, files: Seq<(Seq<char>, Seq<char>)>)
    ensures
        found_interfaces(repo_id, files, seq![]).len() == found_claims(repo_id, files, seq![]).len(),
        forall|t: int|
            0 <= t < found_interfaces(repo_id, files, seq![]).len() ==> {
                let x = #[trigger] found_interfaces(repo_id, files, seq![])[t];
                x.0 == repo_id + ":"@ + x.2 && x.1 == repo_id
            },
{
    lemma_interfaces_and_claims(repo_id, files, seq![]);
}

proof fn lemma_comma_scan_positions(s: Seq<char>, i: int, m: LexMode, depth: int)
    requires
        0 <= i,
    ensures
        forall|k: int|
            0 <= k < comma_scan(s, i, m, depth).len() ==> i <= #[trigger] comma_scan(s, i, m, depth)[k] < s.len()
                && s[comma_scan(s, i, m, depth)[k]] == ',',
        forall|a: int, b: int|
            0 <= a < b < comma_scan(s, i, m, depth).len() ==> #[trigger] comma_scan(s, i, m, depth)[a]
                < #[trigger] comma_scan(s, i, m, depth)[b],
    decreases s.len() - i,
{
    if i < s.len() {
        let st = lex_step(s, i, m);
        let next = capped_next(s, i, m);
        assert(next > i);
        if st.2 && is_open_bracket(s[i]) {
            lemma_comma_scan_positions(s, next, st.1, depth + 1);
            assert(comma_scan(s, i, m, depth) == comma_scan(s, next, st.1, depth + 1));
        } else if st.2 && is_close_bracket(s[i]) {
            lemma_comma_scan_positions(s, next, st.1, depth - 1);
            assert(comma_scan(s, i, m, depth) == comma_scan(s, next, st.1, depth - 1));
        } else if st.2 && s[i] == ',' && depth == 0 {
            lemma_comma_scan_positions(s, next, st.1, depth);
            let rest = comma_scan(s, next, st.1, depth);
            let all = comma_scan(s, i, m, depth);
            assert(all == seq![i] + rest);
            assert forall|k: int| 0 <= k < all.len() implies i <= #[trigger] all[k] < s.len() && s[all[k]] == ',' by {
                if k > 0 {
                    assert(all[k] == rest[k - 1]);
                }
            }
            assert forall|a: int, b: int| 0 <= a < b < all.len() implies #[trigger] all[a] < #[trigger] all[b] by {
                assert(all[b] == rest[b - 1]);
                if a > 0 {
                    assert(all[a] == rest[a - 1]);
                }
            }
        } else {
            lemma_comma_scan_positions(s, next, st.1, depth);
            assert(comma_scan(s, i, m, depth) == comma_scan(s, next, st.1, depth));
        }
    }
}

proof fn lemma_join_pieces_prefix(s: Seq<char>, ps: Seq<int>, k: int)
    requires
        0 <= k <= ps.len(),
        forall|t: int| 0 <= t < ps.len() ==> 0 <= #[trigger] ps[t] < s.len() && s[ps[t]] == ',',
        forall|a: int, b: int| 0 <= a < b < ps.len() ==> #[trigger] ps[a] < #[trigger] ps[b],
    ensures
        join(pieces(s, ps).take(k + 1), ","@) == s.subrange(
            0,
            if k < ps.len() {
                ps[k]
            } else {
                s.len() as int
            },
        ),
    decreases k,
{
    let p = pieces(s, ps);
    if k == 0 {
        assert(p.take(1) =~= seq![p[0]]);
    } else {
        lemma_join_pieces_prefix(s, ps, k - 1);
        assert(p.take(k + 1) =~= p.take(k).push(p[k]));
        lemma_join_push(p.take(k), p[k], ","@);
        let end = if k < ps.len() {
            ps[k]
        } else {
            s.len() as int
        };
        assert(ps[k - 1] < end);
        assert(s.subrange(0, end) =~= s.subrange(0, ps[k - 1]) + ","@ + s.subrange(ps[k - 1] + 1, end)) by {
            reveal_strlit(",");
        }
    }
}

/// The last piece `split_top_level` cuts a body into, before a blank one is
/// dropped.
pub open spec fn last_piece(s: Seq<char>) -> Seq<char> {
    pieces(s, top_level_commas(s)).last()
}

/// Splitting a body at its top-level commas loses and alters nothing: the
/// chunks joined by commas give the body back, except that a blank final
/// piece (and the comma before it) is dropped.
pub proof fn law_split_keeps_every_character(s: Seq<char>)
    ensures
        join(split_chunks(s), ","@) == s || (is_blank(last_piece(s)) && s == if split_chunks(s).len() == 0 {
            last_piece(s)
        } else {
            join(split_chunks(s), ","@) + ","@ + last_piece(s)
        }),
{
    let ps = top_level_commas(s);
    let p = pieces(s, ps);
    lemma_comma_scan_positions(s, 0, LexMode::Code, 0);
    lemma_join_pieces_prefix(s, ps, ps.len() as int);
    assert(p.take(ps.len() as int + 1) =~= p);
    assert(s.subrange(0, s.len() as int) =~= s);
    if is_blank(p.last()) {
        if ps.len() > 0 {
            assert(join(p, ","@) == join(p.drop_last(), ","@) + ","@ + p.last());
        } else {
            assert(p =~= seq![p[0]]);
        }
    }
}

proof fn lemma_commands_from_named(s: Seq<char>, ls: Seq<int>, k: int)
    ensures
        forall|t: int|
            0 <= t < commands_from(s, ls, k).len() ==> (#[trigger] commands_from(s, ls, k)[t]).0.len() > 0
                && all_command_chars(commands_from(s, ls, k)[t].0),
    decreases ls.len() - k,
{
    if 0 <= k < ls.len() {
        lemma_commands_from_named(s, ls, k + 1);
        let all = commands_from(s, ls, k);
        let rest = commands_from(s, ls, k + 1);
        assert forall|t: int| 0 <= t < all.len() implies (#[trigger] all[t]).0.len() > 0 && all_command_chars(all[t].0) by {
            if all.len() == rest.len() + 1 && t > 0 {
                assert(all[t] == rest[t - 1]);
            } else if all.len() == rest.len() {
                assert(all[t] == rest[t]);
            }
        }
    }
}

proof fn lemma_version_from_nonempty(s: Seq<char>, ls: Seq<int>, k: int, v: Option<Seq<char>>)
    requires
        v matches Some(x) ==> x.len() > 0,
    ensures
        version_from(s, ls, k, v) matches Some(x) ==> x.len() > 0,
    decreases ls.len() - k,
{
    if 0 <= k < ls.len() {
        let t = crate::text::trim(crate::rust_scan::line_text(s, ls, k));
        let rest = crate::text::trim(t.skip(7));
        lemma_version_from_nonempty(
            s,
            ls,
            k + 1,
            if crate::text::starts_with(t, "VERSION"@) && rest.len() > 0 {
                Some(rest)
            } else {
                v
            },
        );
    }
}

/// What a probe reads from `--help`: every listed command has a non-empty
/// name made of letters, digits, `-` and `_`; without a `Commands:` header
/// nothing is listed; a version, when found, is never empty.
pub proof fn law_help_text_reading(text: Seq<char>)
    ensures
        forall|t: int|
            0 <= t < help_commands(text).len() ==> (#[trigger] help_commands(text)[t]).0.len() > 0 && all_command_chars(
                help_commands(text)[t].0,
            ),
        commands_header_from(ansi_free(text), line_starts(ansi_free(text)), 0) is None ==> help_commands(text).len() == 0,
        help_version(text) matches Some(v) ==> v.len() > 0,
{
    let s = ansi_free(text);
    match commands_header_from(s, line_starts(s), 0) {
        Some(h) => lemma_commands_from_named(s, line_starts(s), h + 1),
        None => {},
    }
    lemma_version_from_nonempty(s, line_starts(s), 0, None);
}

} // verus!
