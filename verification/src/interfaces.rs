//! Static extraction of clap-style CLI subcommand surfaces from Rust
//! source: `#[derive(Subcommand)]` enums, each variant read off as the
//! kebab-case name clap derives by default, with its `///` doc comment.
//! A text-pattern heuristic: builder-style clap, non-Rust CLIs and
//! `#[command(name = ...)]` renames are not seen.

use vstd::prelude::*;
use crate::text::{
    chars_of, string_from_chars, unicode_uppercase, unicode_lowercase, lowercase_of, is_ascii_digit,
    is_uppercase, is_lowercase, to_lowercase_chars, extend_all, opt_chars, copy_string, push_str_chars,
    contains_string, strings_view,
};
use crate::model::{
    Interface, EvidenceClaim, SourceType, Confidence, SourceFile, Repository, ManifestKind, manifests_include,
    has_manifest, claim_view, claims_view, source_files_view,
};
use crate::rust_scan::{
    annotated_blocks, stripped, split_chunks, doc_and_ident, source_splittable, bodies_splittable,
    strip_test_modules, find_annotated_blocks, source_is_splittable, split_top_level, leading_doc_and_identifier, raw_overrun,
};

verus! {

/// What character `i` of an identifier becomes in kebab case.
pub open spec fn kebab_piece(cs: Seq<char>, i: int) -> Seq<char> {
    let c = cs[i];
    if c == '_' {
        seq!['-']
    } else if unicode_uppercase(c) {
        let prev_lower_or_digit = i > 0 && (unicode_lowercase(cs[i - 1]) || is_ascii_digit(cs[i - 1]));
        let next_lower = i + 1 < cs.len() && unicode_lowercase(cs[i + 1]);
        (if i > 0 && (prev_lower_or_digit || next_lower) {
            seq!['-']
        } else {
            seq![]
        }) + lowercase_of(c)
    } else {
        seq![c]
    }
}

pub open spec fn kebab_upto(cs: Seq<char>, n: int) -> Seq<char>
    decreases n,
{
    if n <= 0 {
        seq![]
    } else {
        kebab_upto(cs, n - 1) + kebab_piece(cs, n - 1)
    }
}

/// Clap's default subcommand rename of an identifier.
pub open spec fn kebab(cs: Seq<char>) -> Seq<char> {
    kebab_upto(cs, cs.len() as int)
}

/// Clap's default subcommand rename: `PascalCase` -> `kebab-case`.
pub fn to_kebab_case(ident: &str) -> (r: String)
    ensures
        r@ == kebab(ident@),
{
    let chars = chars_of(ident);
    let ghost cs = chars@;
    let mut out: Vec<char> = Vec::new();
    let mut i: usize = 0;
    while i < chars.len()
        invariant
            i <= chars@.len(),
            cs == chars@,
            cs == ident@,
            out@ == kebab_upto(cs, i as int),
        decreases chars@.len() - i,
    {
        let c = chars[i];
        if c == '_' {
            out.push('-');
        } else if is_uppercase(c) {
            let prev_lower_or_digit = i > 0 && (is_lowercase(chars[i - 1]) || ('0' <= chars[i - 1]
                && chars[i - 1] <= '9'));
            let next_lower = i + 1 < chars.len() && is_lowercase(chars[i + 1]);
            if i > 0 && (prev_lower_or_digit || next_lower) {
                out.push('-');
            }
            let low = to_lowercase_chars(c);
            extend_all(&mut out, &low);
        } else {
            out.push(c);
        }
        assert(out@ =~= kebab_upto(cs, i + 1));
        i = i + 1;
    }
    string_from_chars(&out)
}

} // verus!

verus! {

/// A subcommand found in source: its kebab-case name, doc comment, the
/// variant identifier, and the enum that declares it.
pub struct SubcommandCandidate {
    pub name: String,
    pub doc: Option<String>,
    pub ident: String,
    pub enum_name: String,
}

impl SubcommandCandidate {
    pub open spec fn view(&self) -> (Seq<char>, Option<Seq<char>>, Seq<char>, Seq<char>) {
        (self.name@, opt_chars(self.doc), self.ident@, self.enum_name@)
    }
}

/// The candidates the chunks of one enum body yield: every chunk with an
/// identifier names a variant.
pub open spec fn chunk_candidates(chunks: Seq<Seq<char>>, enum_name: Seq<char>) -> Seq<
    (Seq<char>, Option<Seq<char>>, Seq<char>, Seq<char>),
>
    decreases chunks.len(),
{
    if chunks.len() == 0 {
        seq![]
    } else {
        let di = doc_and_ident(chunks[0]);
        (match di.1 {
            Some(id) => seq![(kebab(id), di.0, id, enum_name)],
            None => seq![],
        }) + chunk_candidates(chunks.drop_first(), enum_name)
    }
}

pub open spec fn block_candidates(blocks: Seq<(Seq<char>, Option<Seq<char>>, Seq<char>)>) -> Seq<
    (Seq<char>, Option<Seq<char>>, Seq<char>, Seq<char>),
>
    decreases blocks.len(),
{
    if blocks.len() == 0 {
        seq![]
    } else {
        chunk_candidates(split_chunks(blocks[0].2), blocks[0].0) + block_candidates(blocks.drop_first())
    }
}

pub open spec fn subcommand_markers() -> Seq<Seq<char>> {
    seq!["Subcommand"@]
}

/// Every variant of every `#[derive(Subcommand)]` enum in the source, test
/// modules excluded.
pub open spec fn source_candidates(content: Seq<char>) -> Seq<(Seq<char>, Option<Seq<char>>, Seq<char>, Seq<char>)> {
    block_candidates(annotated_blocks(stripped(content), "enum"@, subcommand_markers()))
}

/// A candidate is kept when its name is non-empty and not yet seen.
pub open spec fn fresh_name(name: Seq<char>, seen: Seq<Seq<char>>) -> bool {
    name.len() > 0 && !seen.contains(name)
}

pub open spec fn dedup_candidates(
    cs: Seq<(Seq<char>, Option<Seq<char>>, Seq<char>, Seq<char>)>,
    seen: Seq<Seq<char>>,
) -> Seq<(Seq<char>, Option<Seq<char>>, Seq<char>, Seq<char>)>
    decreases cs.len(),
{
    if cs.len() == 0 {
        seq![]
    } else if fresh_name(cs[0].0, seen) {
        seq![cs[0]] + dedup_candidates(cs.drop_first(), seen.push(cs[0].0))
    } else {
        dedup_candidates(cs.drop_first(), seen)
    }
}

pub open spec fn dedup_seen(cs: Seq<(Seq<char>, Option<Seq<char>>, Seq<char>, Seq<char>)>, seen: Seq<Seq<char>>) -> Seq<
    Seq<char>,
>
    decreases cs.len(),
{
    if cs.len() == 0 {
        seen
    } else if fresh_name(cs[0].0, seen) {
        dedup_seen(cs.drop_first(), seen.push(cs[0].0))
    } else {
        dedup_seen(cs.drop_first(), seen)
    }
}

/// The interfaces a repository's files expose, in file order, each name
/// once (the first occurrence wins).
pub open spec fn found_interfaces(repo_id: Seq<char>, files: Seq<(Seq<char>, Seq<char>)>, seen: Seq<Seq<char>>) -> Seq<
    (Seq<char>, Seq<char>, Seq<char>, Option<Seq<char>>),
>
    decreases files.len(),
{
    if files.len() == 0 {
        seq![]
    } else {
        let cs = source_candidates(files[0].1);
        dedup_candidates(cs, seen).map_values(|c: (Seq<char>, Option<Seq<char>>, Seq<char>, Seq<char>)| interface_of(repo_id, c))
            + found_interfaces(repo_id, files.drop_first(), dedup_seen(cs, seen))
    }
}

/// The evidence recorded beside `found_interfaces`, one claim per interface.
pub open spec fn found_claims(repo_id: Seq<char>, files: Seq<(Seq<char>, Seq<char>)>, seen: Seq<Seq<char>>) -> Seq<
    (Seq<char>, SourceType, Seq<char>, Seq<char>, Confidence, Seq<char>, Seq<char>),
>
    decreases files.len(),
{
    if files.len() == 0 {
        seq![]
    } else {
        let cs = source_candidates(files[0].1);
        dedup_candidates(cs, seen).map_values(
            |c: (Seq<char>, Option<Seq<char>>, Seq<char>, Seq<char>)| interface_claim(repo_id, c, files[0].0),
        ) + found_claims(repo_id, files.drop_first(), dedup_seen(cs, seen))
    }
}


/// The interface record for a found subcommand.
pub open spec fn interface_of(repo_id: Seq<char>, c: (Seq<char>, Option<Seq<char>>, Seq<char>, Seq<char>)) -> (
    Seq<char>,
    Seq<char>,
    Seq<char>,
    Option<Seq<char>>,
) {
    (repo_id + ":"@ + c.0, repo_id, c.0, c.1)
}

pub open spec fn interface_view(i: Interface) -> (Seq<char>, Seq<char>, Seq<char>, Option<Seq<char>>) {
    (i.id@, i.repository@, i.name@, opt_chars(i.description))
}

/// The evidence a found subcommand is recorded with.
pub open spec fn interface_claim(
    repo_id: Seq<char>,
    c: (Seq<char>, Option<Seq<char>>, Seq<char>, Seq<char>),
    path: Seq<char>,
) -> (Seq<char>, SourceType, Seq<char>, Seq<char>, Confidence, Seq<char>, Seq<char>) {
    (
        path,
        SourceType::Filesystem,
        repo_id,
        "cli_interface_extractor"@,
        Confidence::ProbabilisticInference(700),
        "enum "@ + c.3 + " variant "@ + c.2,
        repo_id + " exposes CLI subcommand `"@ + c.0 + "` (heuristic: found in #[derive(Subcommand)] enum "@
            + c.3 + "; not verified against runtime --help)"@,
    )
}

/// The candidates of one source file, in order.
fn source_candidates_exec(content: &str) -> (r: Vec<SubcommandCandidate>)
    requires
        source_splittable(content@, "enum"@, subcommand_markers()),
    ensures
        r@.map_values(|c: SubcommandCandidate| c.view()) == source_candidates(content@),
{
    let clean = strip_test_modules(content);
    assert(clean@ =~= stripped(content@));
    let markers: [&str; 1] = ["Subcommand"];
    let ghost mk = markers@.map_values(|m: &str| m@);
    assert(mk =~= subcommand_markers());
    let blocks = find_annotated_blocks(clean.as_str(), "enum", &markers);
    let ghost bs = annotated_blocks(clean@, "enum"@, mk);
    let mut out: Vec<SubcommandCandidate> = Vec::new();
    assert(bs.skip(0) =~= bs);
    assert(out@.map_values(|c: SubcommandCandidate| c.view()) =~= Seq::<(Seq<char>, Option<Seq<char>>, Seq<char>, Seq<char>)>::empty());
    let mut b: usize = 0;
    while b < blocks.len()
        invariant
            b <= blocks@.len(),
            blocks@.len() == bs.len(),
            bs == annotated_blocks(stripped(content@), "enum"@, subcommand_markers()),
            bodies_splittable(bs),
            forall|t: int| 0 <= t < blocks@.len() ==> #[trigger] blocks@[t].view() == bs[t],
            block_candidates(bs) == out@.map_values(|c: SubcommandCandidate| c.view()) + block_candidates(bs.skip(b as int)),
        decreases blocks@.len() - b,
    {
        assert(blocks@[b as int].view() == bs[b as int]);
        assert(bs.skip(b as int)[0] == bs[b as int]);
        assert(bs.skip(b as int).drop_first() == bs.skip(b + 1));
        assert(!raw_overrun(bs[b as int].2) && bs[b as int].2.len() < i64::MAX);
        let chunks = split_top_level(blocks[b].body.as_str());
        let ghost cs = split_chunks(bs[b as int].2);
        let ghost before = out@.map_values(|c: SubcommandCandidate| c.view());
        assert(cs.skip(0) =~= cs);
        assert(out@.map_values(|c: SubcommandCandidate| c.view()).skip(before.len() as int) =~= Seq::<(Seq<char>, Option<Seq<char>>, Seq<char>, Seq<char>)>::empty());
        assert(out@.map_values(|c: SubcommandCandidate| c.view()).take(before.len() as int) =~= before);
        let mut c: usize = 0;
        while c < chunks.len()
            invariant
                c <= chunks@.len(),
                b < blocks@.len(),
                blocks@.len() == bs.len(),
                chunks@.len() == cs.len(),
                forall|t: int| 0 <= t < chunks@.len() ==> #[trigger] chunks@[t]@ == cs[t],
                blocks@[b as int].view() == bs[b as int],
                chunk_candidates(cs, bs[b as int].0) == out@.map_values(|c: SubcommandCandidate| c.view()).skip(
                    before.len() as int,
                ) + chunk_candidates(cs.skip(c as int), bs[b as int].0),
                out@.map_values(|c: SubcommandCandidate| c.view()).take(before.len() as int) == before,
                out@.len() >= before.len(),
            decreases chunks@.len() - c,
        {
            assert(chunks@[c as int]@ == cs[c as int]);
            assert(cs.skip(c as int)[0] == cs[c as int]);
            assert(cs.skip(c as int).drop_first() == cs.skip(c + 1));
            let ghost prev = out@.map_values(|c: SubcommandCandidate| c.view());
            let (doc, ident) = leading_doc_and_identifier(chunks[c].as_str());
            match ident {
                Some(id) => {
                    let name = to_kebab_case(id.as_str());
                    let enum_name = copy_string(&blocks[b].name);
                    out.push(SubcommandCandidate { name, doc, ident: id, enum_name });
                    assert(out@.map_values(|c: SubcommandCandidate| c.view()) == prev.push(
                        out@[out@.len() - 1].view(),
                    ));
                },
                None => {},
            }
            assert(out@.map_values(|c: SubcommandCandidate| c.view()).skip(before.len() as int) =~= prev.skip(
                before.len() as int,
            ) + (out@.map_values(|c: SubcommandCandidate| c.view()).skip(prev.len() as int)));
            assert(out@.map_values(|c: SubcommandCandidate| c.view()).take(before.len() as int) =~= before);
            c = c + 1;
        }
        assert(cs.skip(c as int) =~= Seq::<Seq<char>>::empty());
        assert(out@.map_values(|c: SubcommandCandidate| c.view()) =~= before + out@.map_values(
            |c: SubcommandCandidate| c.view(),
        ).skip(before.len() as int));
        b = b + 1;
    }
    assert(bs.skip(b as int) =~= Seq::<(Seq<char>, Option<Seq<char>>, Seq<char>)>::empty());
    out
}

pub open spec fn candidates_view(cs: Seq<SubcommandCandidate>) -> Seq<(Seq<char>, Option<Seq<char>>, Seq<char>, Seq<char>)> {
    cs.map_values(|c: SubcommandCandidate| c.view())
}

pub open spec fn interfaces_view(v: Seq<Interface>) -> Seq<(Seq<char>, Seq<char>, Seq<char>, Option<Seq<char>>)> {
    v.map_values(|i: Interface| interface_view(i))
}

/// The interface and evidence for one found subcommand.
fn record_subcommand(repo_id: &str, c: &SubcommandCandidate, path: &str) -> (r: (Interface, EvidenceClaim))
    ensures
        interface_view(r.0) == interface_of(repo_id@, c.view()),
        claim_view(r.1) == interface_claim(repo_id@, c.view(), path@),
{
    let mut id: Vec<char> = Vec::new();
    push_str_chars(&mut id, repo_id);
    push_str_chars(&mut id, ":");
    push_str_chars(&mut id, c.name.as_str());
    let mut raw: Vec<char> = Vec::new();
    push_str_chars(&mut raw, "enum ");
    push_str_chars(&mut raw, c.enum_name.as_str());
    push_str_chars(&mut raw, " variant ");
    push_str_chars(&mut raw, c.ident.as_str());
    let mut claim: Vec<char> = Vec::new();
    push_str_chars(&mut claim, repo_id);
    push_str_chars(&mut claim, " exposes CLI subcommand `");
    push_str_chars(&mut claim, c.name.as_str());
    push_str_chars(&mut claim, "` (heuristic: found in #[derive(Subcommand)] enum ");
    push_str_chars(&mut claim, c.enum_name.as_str());
    push_str_chars(&mut claim, "; not verified against runtime --help)");
    let description = match &c.doc {
        Some(d) => Some(copy_string(d)),
        None => None,
    };
    let iface = Interface {
        id: string_from_chars(&id),
        repository: repo_id.to_string(),
        name: copy_string(&c.name),
        description,
    };
    let ev = EvidenceClaim {
        source: path.to_string(),
        source_type: SourceType::Filesystem,
        repository: repo_id.to_string(),
        extractor: "cli_interface_extractor".to_string(),
        confidence: Confidence::ProbabilisticInference(700),
        raw_reference: string_from_chars(&raw),
        derived_claim: string_from_chars(&claim),
    };
    (iface, ev)
}

/// Records the candidates of one file whose names are non-empty and not
/// yet seen, marking each recorded name as seen.
fn record_candidates(
    repo_id: &str,
    path: &str,
    cands: &Vec<SubcommandCandidate>,
    seen: &mut Vec<String>,
    ifaces: &mut Vec<Interface>,
    claims: &mut Vec<EvidenceClaim>,
)
    ensures
        strings_view(final(seen)@) == dedup_seen(candidates_view(cands@), strings_view(old(seen)@)),
        interfaces_view(final(ifaces)@) == interfaces_view(old(ifaces)@) + dedup_candidates(
            candidates_view(cands@),
            strings_view(old(seen)@),
        ).map_values(|c: (Seq<char>, Option<Seq<char>>, Seq<char>, Seq<char>)| interface_of(repo_id@, c)),
        claims_view(final(claims)@) == claims_view(old(claims)@) + dedup_candidates(
            candidates_view(cands@),
            strings_view(old(seen)@),
        ).map_values(|c: (Seq<char>, Option<Seq<char>>, Seq<char>, Seq<char>)| interface_claim(repo_id@, c, path@)),
{
    let ghost cs = candidates_view(cands@);
    let ghost s0 = strings_view(seen@);
    let ghost i0 = interfaces_view(ifaces@);
    let ghost c0 = claims_view(claims@);
    let ghost fi = |c: (Seq<char>, Option<Seq<char>>, Seq<char>, Seq<char>)| interface_of(repo_id@, c);
    let ghost fc = |c: (Seq<char>, Option<Seq<char>>, Seq<char>, Seq<char>)| interface_claim(repo_id@, c, path@);
    assert(cs.skip(0) =~= cs);
    assert(interfaces_view(ifaces@) + Seq::empty() =~= interfaces_view(ifaces@));
    assert(claims_view(claims@) + Seq::empty() =~= claims_view(claims@));
    let mut k: usize = 0;
    while k < cands.len()
        invariant
            k <= cands@.len(),
            cs == candidates_view(cands@),
            dedup_seen(cs, s0) == dedup_seen(cs.skip(k as int), strings_view(seen@)),
            i0 + dedup_candidates(cs, s0).map_values(fi) == interfaces_view(ifaces@) + dedup_candidates(
                cs.skip(k as int),
                strings_view(seen@),
            ).map_values(fi),
            c0 + dedup_candidates(cs, s0).map_values(fc) == claims_view(claims@) + dedup_candidates(
                cs.skip(k as int),
                strings_view(seen@),
            ).map_values(fc),
            fi == (|c: (Seq<char>, Option<Seq<char>>, Seq<char>, Seq<char>)| interface_of(repo_id@, c)),
            fc == (|c: (Seq<char>, Option<Seq<char>>, Seq<char>, Seq<char>)| interface_claim(repo_id@, c, path@)),
        decreases cands@.len() - k,
    {
        let ghost rest = cs.skip(k as int);
        let ghost sv = strings_view(seen@);
        assert(rest[0] == cands@[k as int].view());
        assert(rest.drop_first() =~= cs.skip(k + 1));
        let c = &cands[k];
        if !c.name.as_str().is_empty() && !contains_string(seen, c.name.as_str()) {
            let ghost d = dedup_candidates(rest.drop_first(), sv.push(c.name@));
            assert(dedup_candidates(rest, sv) == seq![rest[0]] + d);
            let (iface, ev) = record_subcommand(repo_id, c, path);
            let ghost iv_before = interfaces_view(ifaces@);
            let ghost cv_before = claims_view(claims@);
            ifaces.push(iface);
            claims.push(ev);
            seen.push(copy_string(&c.name));
            assert(strings_view(seen@) =~= sv.push(c.name@));
            assert(interfaces_view(ifaces@) =~= iv_before.push(fi(rest[0])));
            assert(claims_view(claims@) =~= cv_before.push(fc(rest[0])));
            assert((seq![rest[0]] + d).map_values(fi) =~= seq![fi(rest[0])] + d.map_values(fi));
            assert((seq![rest[0]] + d).map_values(fc) =~= seq![fc(rest[0])] + d.map_values(fc));
            assert(iv_before + (seq![fi(rest[0])] + d.map_values(fi)) =~= iv_before.push(fi(rest[0])) + d.map_values(fi));
            assert(cv_before + (seq![fc(rest[0])] + d.map_values(fc)) =~= cv_before.push(fc(rest[0])) + d.map_values(fc));
        } else {
            assert(dedup_candidates(rest, sv) == dedup_candidates(rest.drop_first(), sv));
        }
        k = k + 1;
    }
    assert(cs.skip(k as int) =~= Seq::<(Seq<char>, Option<Seq<char>>, Seq<char>, Seq<char>)>::empty());
    assert(interfaces_view(ifaces@) + Seq::empty() =~= interfaces_view(ifaces@));
    assert(claims_view(claims@) + Seq::empty() =~= claims_view(claims@));
}

pub open spec fn files_splittable(files: Seq<SourceFile>) -> bool {
    forall|i: int| 0 <= i < files.len() ==> source_splittable(#[trigger] files[i].content@, "enum"@, subcommand_markers())
}

/// The CLI subcommands a repository's Rust files expose, with one
/// evidence record each. Nothing unless the repository has a Cargo
/// manifest.
pub fn extract(repo: &Repository, files: &Vec<SourceFile>) -> (r: (Vec<Interface>, Vec<EvidenceClaim>))
    requires
        manifests_include(repo.manifests@, ManifestKind::Cargo) ==> files_splittable(files@),
    ensures
        !manifests_include(repo.manifests@, ManifestKind::Cargo) ==> r.0@.len() == 0 && r.1@.len() == 0,
        manifests_include(repo.manifests@, ManifestKind::Cargo) ==> interfaces_view(r.0@) == found_interfaces(
            repo.id@,
            source_files_view(files@),
            seq![],
        ) && claims_view(r.1@) == found_claims(repo.id@, source_files_view(files@), seq![]),
{
    if !has_manifest(&repo.manifests, ManifestKind::Cargo) {
        return (Vec::new(), Vec::new());
    }
    let mut ifaces: Vec<Interface> = Vec::new();
    let mut claims: Vec<EvidenceClaim> = Vec::new();
    let mut seen: Vec<String> = Vec::new();
    let ghost fv = source_files_view(files@);
    let ghost id = repo.id@;
    assert(fv.skip(0) =~= fv);
    assert(strings_view(seen@) =~= Seq::<Seq<char>>::empty());
    assert(interfaces_view(ifaces@) =~= Seq::empty());
    assert(claims_view(claims@) =~= Seq::empty());
    let mut f: usize = 0;
    while f < files.len()
        invariant
            f <= files@.len(),
            fv == source_files_view(files@),
            id == repo.id@,
            files_splittable(files@),
            found_interfaces(id, fv, seq![]) == interfaces_view(ifaces@) + found_interfaces(
                id,
                fv.skip(f as int),
                strings_view(seen@),
            ),
            found_claims(id, fv, seq![]) == claims_view(claims@) + found_claims(id, fv.skip(f as int), strings_view(seen@)),
        decreases files@.len() - f,
    {
        let ghost rest = fv.skip(f as int);
        let ghost sv = strings_view(seen@);
        let ghost iv = interfaces_view(ifaces@);
        let ghost cv = claims_view(claims@);
        assert(rest[0] == (files@[f as int].path@, files@[f as int].content@));
        assert(rest.drop_first() =~= fv.skip(f + 1));
        assert(source_splittable(files@[f as int].content@, "enum"@, subcommand_markers()));
        let cands = source_candidates_exec(files[f].content.as_str());
        record_candidates(repo.id.as_str(), files[f].path.as_str(), &cands, &mut seen, &mut ifaces, &mut claims);
        let ghost cs = source_candidates(rest[0].1);
        assert(candidates_view(cands@) == cs);
        let ghost di = dedup_candidates(cs, sv).map_values(
            |c: (Seq<char>, Option<Seq<char>>, Seq<char>, Seq<char>)| interface_of(id, c),
        );
        let ghost dc = dedup_candidates(cs, sv).map_values(
            |c: (Seq<char>, Option<Seq<char>>, Seq<char>, Seq<char>)| interface_claim(id, c, rest[0].0),
        );
        assert(found_interfaces(id, rest, sv) == di + found_interfaces(id, fv.skip(f + 1), strings_view(seen@)));
        assert(found_claims(id, rest, sv) == dc + found_claims(id, fv.skip(f + 1), strings_view(seen@)));
        assert(iv + (di + found_interfaces(id, fv.skip(f + 1), strings_view(seen@))) =~= (iv + di) + found_interfaces(
            id,
            fv.skip(f + 1),
            strings_view(seen@),
        ));
        assert(cv + (dc + found_claims(id, fv.skip(f + 1), strings_view(seen@))) =~= (cv + dc) + found_claims(
            id,
            fv.skip(f + 1),
            strings_view(seen@),
        ));
        f = f + 1;
    }
    assert(fv.skip(f as int) =~= Seq::<(Seq<char>, Seq<char>)>::empty());
    assert(interfaces_view(ifaces@) + Seq::empty() =~= interfaces_view(ifaces@));
    assert(claims_view(claims@) + Seq::empty() =~= claims_view(claims@));
    (ifaces, claims)
}

/// Whether every file can be read for subcommands: no raw string at the end of a
/// enum body runs past it.
pub fn files_are_splittable(files: &Vec<SourceFile>) -> (r: bool)
    ensures
        r == files_splittable(files@),
{
    let markers: [&str; 1] = ["Subcommand"];
    let ghost mk = markers@.map_values(|m: &str| m@);
    assert(mk =~= subcommand_markers());
    let mut i: usize = 0;
    while i < files.len()
        invariant
            i <= files@.len(),
            mk == subcommand_markers(),
            mk == markers@.map_values(|m: &str| m@),
            forall|j: int| 0 <= j < i ==> source_splittable(#[trigger] files@[j].content@, "enum"@, subcommand_markers()),
        decreases files@.len() - i,
    {
        if !source_is_splittable(files[i].content.as_str(), "enum", &markers) {
            return false;
        }
        i = i + 1;
    }
    true
}

/// `extract` for any files: `None` when the repository has a Cargo manifest
/// and one of its files cannot be read for subcommands, where reading it would
/// fail.
pub fn extract_checked(repo: &Repository, files: &Vec<SourceFile>) -> (r: Option<(Vec<Interface>, Vec<EvidenceClaim>)>)
    ensures
        r is None <==> manifests_include(repo.manifests@, ManifestKind::Cargo) && !files_splittable(files@),
        r matches Some(x) ==> (!manifests_include(repo.manifests@, ManifestKind::Cargo) ==> x.0@.len() == 0 && x.1@.len() == 0),
        r matches Some(x) ==> (manifests_include(repo.manifests@, ManifestKind::Cargo) ==> interfaces_view(x.0@) == found_interfaces(
            repo.id@,
            source_files_view(files@),
            seq![],
        ) && claims_view(x.1@) == found_claims(repo.id@, source_files_view(files@), seq![])),
{
    if has_manifest(&repo.manifests, ManifestKind::Cargo) && !files_are_splittable(files) {
        None
    } else {
        Some(extract(repo, files))
    }
}

} // verus!
