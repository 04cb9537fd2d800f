//! Static extraction of serde-derived data structures from Rust source:
//! the same text-pattern approach as CLI interface extraction, on the same
//! scanning primitives. Tuple and unit structs are not recognised.

use vstd::prelude::*;
use crate::model::{
    SchemaField, Schema, EvidenceClaim, SourceType, Confidence, SourceFile, Repository, ManifestKind,
    manifests_include, has_manifest, claim_view, claims_view, source_files_view,
};
use crate::text::{
    chars_of, trim, starts_with, trim_range, range_starts_with, string_from_range, is_ident_char,
    range_all_ident, opt_chars, push_str_chars, push_decimal, decimal, string_from_chars, copy_string,
    strings_view, contains_string,
};
use crate::rust_scan::{
    line_starts, line_starts_of, line_starts_ok, line_text, passable, annotated_blocks, stripped, split_chunks,
    source_splittable, bodies_splittable, raw_overrun, strip_test_modules, find_annotated_blocks, source_is_splittable,
    split_top_level, AnnotatedBlock,
};

verus! {

/// `x` with all trailing commas removed (`trim_end_matches(',')`).
pub open spec fn trim_end_commas(x: Seq<char>) -> Seq<char>
    decreases x.len(),
{
    if x.len() > 0 && x.last() == ',' {
        trim_end_commas(x.drop_last())
    } else {
        x
    }
}

/// The first `:` at or after `i` that is not part of a `::`.
pub open spec fn single_colon_from(x: Seq<char>, i: int) -> Option<int>
    decreases x.len() - i,
{
    if i < 0 || i >= x.len() {
        None
    } else if x[i] == ':' && !(i > 0 && x[i - 1] == ':') && !(i + 1 < x.len() && x[i + 1] == ':') {
        Some(i)
    } else {
        single_colon_from(x, i + 1)
    }
}

/// The line with a leading `pub(crate) ` and then a leading `pub ` removed.
pub open spec fn strip_visibility(line: Seq<char>) -> Seq<char> {
    let l1 = if starts_with(line, "pub(crate) "@) {
        line.skip(11)
    } else {
        line
    };
    if starts_with(l1, "pub "@) {
        l1.skip(4)
    } else {
        l1
    }
}

/// `name: Type` read from one field line: the name and the type text,
/// when the name is a non-empty identifier and the type is non-empty.
pub open spec fn name_type(line: Seq<char>) -> Option<(Seq<char>, Seq<char>)> {
    let l = strip_visibility(line);
    match single_colon_from(l, 0) {
        Some(i) => {
            let name = trim(l.subrange(0, i));
            let ty = trim(trim_end_commas(trim(l.skip(i + 1))));
            if name.len() == 0 || ty.len() == 0 || !(forall|k: int|
                0 <= k < name.len() ==> is_ident_char(#[trigger] name[k])) {
                None
            } else {
                Some((name, ty))
            }
        },
        None => None,
    }
}

pub open spec fn field_view(f: SchemaField) -> (Seq<char>, Seq<char>) {
    (f.name@, f.type_repr@)
}

/// Parse `name: Type` (after an optional `pub`/`pub(crate)`), stopping at
/// the first `:` that is not part of a path separator `::`.
pub fn parse_name_type(line: &str) -> (r: Option<SchemaField>)
    ensures
        match r {
            Some(f) => name_type(line@) == Some(field_view(f)),
            None => name_type(line@) is None,
        },
{
    let chars = chars_of(line);
    let ghost s = chars@;
    let len = chars.len();
    let crate_vis = chars_of("pub(crate) ");
    let pub_vis = chars_of("pub ");
    proof {
        reveal_strlit("pub(crate) ");
        reveal_strlit("pub ");
    }
    let mut a: usize = 0;
    if range_starts_with(&chars, 0, len, &crate_vis) {
        a = 11;
    }
    assert(s.subrange(0, len as int) == s);
    let ghost l1 = s.subrange(a as int, len as int);
    assert(l1 == if starts_with(s, "pub(crate) "@) { s.skip(11) } else { s });
    if range_starts_with(&chars, a, len, &pub_vis) {
        a = a + 4;
    }
    let ghost l = s.subrange(a as int, len as int);
    assert(l == strip_visibility(s));
    let mut i = a;
    while i < len
        invariant
            a <= i <= len,
            len == s.len(),
            s == chars@,
            l == s.subrange(a as int, len as int),
            s == line@,
            l == strip_visibility(s),
            single_colon_from(l, 0) == single_colon_from(l, i - a),
        decreases len - i,
    {
        let prev_colon = i > a && chars[i - 1] == ':';
        let next_colon = i + 1 < len && chars[i + 1] == ':';
        assert(l[i - a] == s[i as int]);
        if i > a {
            assert(l[i - a - 1] == s[i - 1]);
        }
        if i + 1 < len {
            assert(l[i - a + 1] == s[i + 1]);
        }
        if chars[i] == ':' && !prev_colon && !next_colon {
            assert(single_colon_from(l, i - a) == Some(i - a));
            let (na, nb) = trim_range(&chars, a, i);
            let (ta, tb) = trim_range(&chars, i + 1, len);
            assert(l.skip(i - a + 1) == s.subrange(i + 1, len as int));
            assert(l.subrange(0, i - a) == s.subrange(a as int, i as int));
            let mut te = tb;
            while te > ta && chars[te - 1] == ','
                invariant
                    ta <= te <= tb <= len,
                    len == s.len(),
                    s == chars@,
                    trim_end_commas(s.subrange(ta as int, tb as int)) == trim_end_commas(s.subrange(ta as int, te as int)),
                decreases te - ta,
            {
                assert(s.subrange(ta as int, te as int).drop_last() == s.subrange(ta as int, te - 1));
                te = te - 1;
            }
            assert(trim_end_commas(s.subrange(ta as int, te as int)) == s.subrange(ta as int, te as int));
            let (ya, yb) = trim_range(&chars, ta, te);
            let ghost name = trim(l.subrange(0, i - a));
            let ghost ty = trim(trim_end_commas(trim(l.skip(i - a + 1))));
            assert(name == s.subrange(na as int, nb as int));
            assert(ty == s.subrange(ya as int, yb as int));
            if na == nb || ya == yb {
                return None;
            }
            if !range_all_ident(&chars, na, nb) {
                return None;
            }
            return Some(
                SchemaField {
                    name: string_from_range(&chars, na, nb),
                    type_repr: string_from_range(&chars, ya, yb),
                },
            );
        }
        i = i + 1;
    }
    None
}

/// The first field line of a chunk: not blank, a comment, or an attribute.
pub open spec fn first_field_line_from(s: Seq<char>, ls: Seq<int>, k: int) -> Option<Seq<char>>
    decreases ls.len() - k,
{
    if k < 0 || k >= ls.len() {
        None
    } else if passable(trim(line_text(s, ls, k))) {
        first_field_line_from(s, ls, k + 1)
    } else {
        Some(trim(line_text(s, ls, k)))
    }
}

/// What `field_from_chunk` reads from a chunk.
pub open spec fn chunk_field(s: Seq<char>) -> Option<(Seq<char>, Seq<char>)> {
    match first_field_line_from(s, line_starts(s), 0) {
        Some(line) => name_type(line),
        None => None,
    }
}

/// Pull `name: Type` out of a struct-body chunk, skipping leading doc
/// comments and `#[...]` field attributes.
pub fn field_from_chunk(chunk: &str) -> (r: Option<SchemaField>)
    ensures
        match r {
            Some(f) => chunk_field(chunk@) == Some(field_view(f)),
            None => chunk_field(chunk@) is None,
        },
{
    let chars = chars_of(chunk);
    let ghost s = chars@;
    let ls = line_starts_of(&chars);
    let ghost lsp = line_starts(s);
    let nl = ls.len();
    let slashes = chars_of("//");
    let hash = chars_of("#");
    let mut k: usize = 0;
    while k < nl
        invariant
            k <= nl,
            nl == ls@.len(),
            nl == lsp.len(),
            lsp == line_starts(s),
            s == chars@,
            s == chunk@,
            ls@.map_values(|x: usize| x as int) == lsp,
            line_starts_ok(s, lsp),
            slashes@ == "//"@,
            hash@ == "#"@,
            first_field_line_from(s, lsp, 0) == first_field_line_from(s, lsp, k as int),
        decreases nl - k,
    {
        assert(ls@.map_values(|x: usize| x as int)[k as int] == lsp[k as int]);
        let start = ls[k];
        let end = if k + 1 < nl {
            assert(ls@.map_values(|x: usize| x as int)[k + 1] == lsp[k + 1]);
            ls[k + 1]
        } else {
            chars.len()
        };
        assert(line_text(s, lsp, k as int) == chars@.subrange(start as int, end as int));
        let (a, b) = trim_range(&chars, start, end);
        if a == b || range_starts_with(&chars, a, b, &slashes) || range_starts_with(&chars, a, b, &hash) {
            k = k + 1;
        } else {
            let line = string_from_range(&chars, a, b);
            return parse_name_type(line.as_str());
        }
    }
    None
}

/// The fields the chunks of a struct body declare, in order.
pub open spec fn chunk_fields(chunks: Seq<Seq<char>>) -> Seq<(Seq<char>, Seq<char>)>
    decreases chunks.len(),
{
    if chunks.len() == 0 {
        seq![]
    } else {
        (match chunk_field(chunks[0]) {
            Some(f) => seq![f],
            None => seq![],
        }) + chunk_fields(chunks.drop_first())
    }
}

pub open spec fn schema_markers() -> Seq<Seq<char>> {
    seq!["Serialize"@, "Deserialize"@]
}

/// The serde-derived structs of one source file, test modules excluded.
pub open spec fn source_structs(content: Seq<char>) -> Seq<(Seq<char>, Option<Seq<char>>, Seq<char>)> {
    annotated_blocks(stripped(content), "struct"@, schema_markers())
}

/// The structs kept as schemas, with their fields: a struct name is
/// claimed the first time it is seen, and the struct is kept when it has
/// at least one `name: Type` field.
pub open spec fn kept_structs(
    blocks: Seq<(Seq<char>, Option<Seq<char>>, Seq<char>)>,
    seen: Seq<Seq<char>>,
) -> Seq<((Seq<char>, Option<Seq<char>>, Seq<char>), Seq<(Seq<char>, Seq<char>)>)>
    decreases blocks.len(),
{
    if blocks.len() == 0 {
        seq![]
    } else if seen.contains(blocks[0].0) {
        kept_structs(blocks.drop_first(), seen)
    } else {
        let fs = chunk_fields(split_chunks(blocks[0].2));
        (if fs.len() > 0 {
            seq![(blocks[0], fs)]
        } else {
            seq![]
        }) + kept_structs(blocks.drop_first(), seen.push(blocks[0].0))
    }
}

pub open spec fn kept_seen(blocks: Seq<(Seq<char>, Option<Seq<char>>, Seq<char>)>, seen: Seq<Seq<char>>) -> Seq<
    Seq<char>,
>
    decreases blocks.len(),
{
    if blocks.len() == 0 {
        seen
    } else if seen.contains(blocks[0].0) {
        kept_seen(blocks.drop_first(), seen)
    } else {
        kept_seen(blocks.drop_first(), seen.push(blocks[0].0))
    }
}

/// The schema record for a kept struct.
pub open spec fn schema_of(
    repo_id: Seq<char>,
    k: ((Seq<char>, Option<Seq<char>>, Seq<char>), Seq<(Seq<char>, Seq<char>)>),
) -> (Seq<char>, Seq<char>, Seq<char>, Option<Seq<char>>, Seq<(Seq<char>, Seq<char>)>) {
    (repo_id + ":"@ + k.0.0, repo_id, k.0.0, k.0.1, k.1)
}

/// The evidence a kept struct is recorded with.
pub open spec fn schema_claim(
    repo_id: Seq<char>,
    k: ((Seq<char>, Option<Seq<char>>, Seq<char>), Seq<(Seq<char>, Seq<char>)>),
    path: Seq<char>,
) -> (Seq<char>, SourceType, Seq<char>, Seq<char>, Confidence, Seq<char>, Seq<char>) {
    (
        path,
        SourceType::Filesystem,
        repo_id,
        "schema_extractor"@,
        Confidence::ProbabilisticInference(700),
        "struct "@ + k.0.0,
        repo_id + " declares schema `"@ + k.0.0 + "` with "@ + decimal(k.1.len()) + " field(s) (heuristic: found in #[derive(Serialize/Deserialize)] struct; not verified against actual serialized output)"@,
    )
}

/// The schemas a repository's files declare, in file order, each struct
/// name once.
pub open spec fn found_schemas(repo_id: Seq<char>, files: Seq<(Seq<char>, Seq<char>)>, seen: Seq<Seq<char>>) -> Seq<
    (Seq<char>, Seq<char>, Seq<char>, Option<Seq<char>>, Seq<(Seq<char>, Seq<char>)>),
>
    decreases files.len(),
{
    if files.len() == 0 {
        seq![]
    } else {
        let bs = source_structs(files[0].1);
        kept_structs(bs, seen).map_values(
            |k: ((Seq<char>, Option<Seq<char>>, Seq<char>), Seq<(Seq<char>, Seq<char>)>)| schema_of(repo_id, k),
        ) + found_schemas(repo_id, files.drop_first(), kept_seen(bs, seen))
    }
}

/// The evidence recorded beside `found_schemas`, one claim per schema.
pub open spec fn found_schema_claims(
    repo_id: Seq<char>,
    files: Seq<(Seq<char>, Seq<char>)>,
    seen: Seq<Seq<char>>,
) -> Seq<(Seq<char>, SourceType, Seq<char>, Seq<char>, Confidence, Seq<char>, Seq<char>)>
    decreases files.len(),
{
    if files.len() == 0 {
        seq![]
    } else {
        let bs = source_structs(files[0].1);
        kept_structs(bs, seen).map_values(
            |k: ((Seq<char>, Option<Seq<char>>, Seq<char>), Seq<(Seq<char>, Seq<char>)>)| schema_claim(
                repo_id,
                k,
                files[0].0,
            ),
        ) + found_schema_claims(repo_id, files.drop_first(), kept_seen(bs, seen))
    }
}

pub open spec fn schema_view(x: Schema) -> (Seq<char>, Seq<char>, Seq<char>, Option<Seq<char>>, Seq<(Seq<char>, Seq<char>)>) {
    (x.id@, x.repository@, x.name@, opt_chars(x.description), fields_view(x.fields@))
}

pub open spec fn fields_view(v: Seq<SchemaField>) -> Seq<(Seq<char>, Seq<char>)> {
    v.map_values(|f: SchemaField| field_view(f))
}

pub open spec fn schemas_view(v: Seq<Schema>) -> Seq<(Seq<char>, Seq<char>, Seq<char>, Option<Seq<char>>, Seq<(Seq<char>, Seq<char>)>)> {
    v.map_values(|x: Schema| schema_view(x))
}

pub open spec fn struct_files_splittable(files: Seq<SourceFile>) -> bool {
    forall|i: int| 0 <= i < files.len() ==> source_splittable(#[trigger] files[i].content@, "struct"@, schema_markers())
}

/// The `name: Type` fields of a struct body.
fn body_fields(body: &str) -> (r: Vec<SchemaField>)
    requires
        !raw_overrun(body@),
        body@.len() < i64::MAX,
    ensures
        fields_view(r@) == chunk_fields(split_chunks(body@)),
{
    let chunks = split_top_level(body);
    let ghost cs = split_chunks(body@);
    let mut out: Vec<SchemaField> = Vec::new();
    assert(cs.skip(0) =~= cs);
    assert(fields_view(out@) + chunk_fields(cs) =~= chunk_fields(cs));
    let mut k: usize = 0;
    while k < chunks.len()
        invariant
            k <= chunks@.len(),
            chunks@.len() == cs.len(),
            forall|t: int| 0 <= t < chunks@.len() ==> #[trigger] chunks@[t]@ == cs[t],
            chunk_fields(cs) == fields_view(out@) + chunk_fields(cs.skip(k as int)),
        decreases chunks@.len() - k,
    {
        assert(chunks@[k as int]@ == cs[k as int]);
        assert(cs.skip(k as int)[0] == cs[k as int]);
        assert(cs.skip(k as int).drop_first() =~= cs.skip(k + 1));
        let ghost before = fields_view(out@);
        match field_from_chunk(chunks[k].as_str()) {
            Some(f) => {
                out.push(f);
                assert(fields_view(out@) =~= before.push(field_view(out@[out@.len() - 1])));
                assert(before + (seq![field_view(out@[out@.len() - 1])] + chunk_fields(cs.skip(k + 1))) =~= before.push(
                    field_view(out@[out@.len() - 1]),
                ) + chunk_fields(cs.skip(k + 1)));
            },
            None => {
                assert(before + (Seq::empty() + chunk_fields(cs.skip(k + 1))) =~= before + chunk_fields(cs.skip(k + 1)));
            },
        }
        k = k + 1;
    }
    assert(cs.skip(k as int) =~= Seq::<Seq<char>>::empty());
    assert(fields_view(out@) + Seq::empty() =~= fields_view(out@));
    out
}

/// The schema and evidence for one kept struct.
fn record_schema(repo_id: &str, block: &AnnotatedBlock, fields: Vec<SchemaField>, path: &str) -> (r: (
    Schema,
    EvidenceClaim,
))
    ensures
        schema_view(r.0) == schema_of(repo_id@, (block.view(), fields_view(fields@))),
        claim_view(r.1) == schema_claim(repo_id@, (block.view(), fields_view(fields@)), path@),
{
    let ghost fv = fields_view(fields@);
    let mut id: Vec<char> = Vec::new();
    push_str_chars(&mut id, repo_id);
    push_str_chars(&mut id, ":");
    push_str_chars(&mut id, block.name.as_str());
    let mut raw: Vec<char> = Vec::new();
    push_str_chars(&mut raw, "struct ");
    push_str_chars(&mut raw, block.name.as_str());
    let mut claim: Vec<char> = Vec::new();
    push_str_chars(&mut claim, repo_id);
    push_str_chars(&mut claim, " declares schema `");
    push_str_chars(&mut claim, block.name.as_str());
    push_str_chars(&mut claim, "` with ");
    let n = fields.len();
    assert(fv.len() == n);
    push_decimal(&mut claim, n as u64);
    push_str_chars(
        &mut claim,
        " field(s) (heuristic: found in #[derive(Serialize/Deserialize)] struct; not verified against actual serialized output)",
    );
    let description = match &block.doc {
        Some(d) => Some(copy_string(d)),
        None => None,
    };
    let schema = Schema {
        id: string_from_chars(&id),
        repository: repo_id.to_string(),
        name: copy_string(&block.name),
        description,
        fields,
    };
    let ev = EvidenceClaim {
        source: path.to_string(),
        source_type: SourceType::Filesystem,
        repository: repo_id.to_string(),
        extractor: "schema_extractor".to_string(),
        confidence: Confidence::ProbabilisticInference(700),
        raw_reference: string_from_chars(&raw),
        derived_claim: string_from_chars(&claim),
    };
    (schema, ev)
}

/// Records the schemas of one source file, claiming each struct name the
/// first time it is seen.
fn record_file_schemas(
    repo_id: &str,
    path: &str,
    content: &str,
    seen: &mut Vec<String>,
    schemas: &mut Vec<Schema>,
    claims: &mut Vec<EvidenceClaim>,
)
    requires
        source_splittable(content@, "struct"@, schema_markers()),
    ensures
        strings_view(final(seen)@) == kept_seen(source_structs(content@), strings_view(old(seen)@)),
        schemas_view(final(schemas)@) == schemas_view(old(schemas)@) + kept_structs(
            source_structs(content@),
            strings_view(old(seen)@),
        ).map_values(
            |k: ((Seq<char>, Option<Seq<char>>, Seq<char>), Seq<(Seq<char>, Seq<char>)>)| schema_of(repo_id@, k),
        ),
        claims_view(final(claims)@) == claims_view(old(claims)@) + kept_structs(
            source_structs(content@),
            strings_view(old(seen)@),
        ).map_values(
            |k: ((Seq<char>, Option<Seq<char>>, Seq<char>), Seq<(Seq<char>, Seq<char>)>)| schema_claim(repo_id@, k, path@),
        ),
{
    let clean = strip_test_modules(content);
    assert(clean@ =~= stripped(content@));
    let markers: [&str; 2] = ["Serialize", "Deserialize"];
    let ghost mk = markers@.map_values(|m: &str| m@);
    assert(mk =~= schema_markers());
    let blocks = find_annotated_blocks(clean.as_str(), "struct", &markers);
    let ghost bs = source_structs(content@);
    let ghost s0 = strings_view(seen@);
    let ghost i0 = schemas_view(schemas@);
    let ghost c0 = claims_view(claims@);
    let ghost fs = |k: ((Seq<char>, Option<Seq<char>>, Seq<char>), Seq<(Seq<char>, Seq<char>)>)| schema_of(repo_id@, k);
    let ghost fc = |k: ((Seq<char>, Option<Seq<char>>, Seq<char>), Seq<(Seq<char>, Seq<char>)>)| schema_claim(
        repo_id@,
        k,
        path@,
    );
    assert(bs.skip(0) =~= bs);
    assert(schemas_view(schemas@) + Seq::empty() =~= schemas_view(schemas@));
    assert(claims_view(claims@) + Seq::empty() =~= claims_view(claims@));
    let mut k: usize = 0;
    while k < blocks.len()
        invariant
            k <= blocks@.len(),
            blocks@.len() == bs.len(),
            bs == source_structs(content@),
            bodies_splittable(bs),
            forall|t: int| 0 <= t < blocks@.len() ==> #[trigger] blocks@[t].view() == bs[t],
            kept_seen(bs, s0) == kept_seen(bs.skip(k as int), strings_view(seen@)),
            i0 + kept_structs(bs, s0).map_values(fs) == schemas_view(schemas@) + kept_structs(
                bs.skip(k as int),
                strings_view(seen@),
            ).map_values(fs),
            c0 + kept_structs(bs, s0).map_values(fc) == claims_view(claims@) + kept_structs(
                bs.skip(k as int),
                strings_view(seen@),
            ).map_values(fc),
            fs == (|k: ((Seq<char>, Option<Seq<char>>, Seq<char>), Seq<(Seq<char>, Seq<char>)>)| schema_of(repo_id@, k)),
            fc == (|k: ((Seq<char>, Option<Seq<char>>, Seq<char>), Seq<(Seq<char>, Seq<char>)>)| schema_claim(
                repo_id@,
                k,
                path@,
            )),
        decreases blocks@.len() - k,
    {
        let ghost rest = bs.skip(k as int);
        let ghost sv = strings_view(seen@);
        assert(blocks@[k as int].view() == bs[k as int]);
        assert(rest[0] == bs[k as int]);
        assert(rest.drop_first() =~= bs.skip(k + 1));
        let block = &blocks[k];
        if contains_string(seen, block.name.as_str()) {
            assert(kept_structs(rest, sv) == kept_structs(rest.drop_first(), sv));
        } else {
            seen.push(copy_string(&block.name));
            assert(strings_view(seen@) =~= sv.push(block.name@));
            assert(!raw_overrun(bs[k as int].2) && bs[k as int].2.len() < i64::MAX);
            let fields = body_fields(block.body.as_str());
            let ghost fv = fields_view(fields@);
            let ghost d = kept_structs(rest.drop_first(), sv.push(block.name@));
            if fields.len() == 0 {
                assert(fv.len() == 0);
                assert(kept_structs(rest, sv) == Seq::empty() + d);
                assert(Seq::<((Seq<char>, Option<Seq<char>>, Seq<char>), Seq<(Seq<char>, Seq<char>)>)>::empty() + d =~= d);
            } else {
                let ghost item = (rest[0], fv);
                assert(kept_structs(rest, sv) == seq![item] + d);
                let (schema, ev) = record_schema(repo_id, block, fields, path);
                let ghost iv_before = schemas_view(schemas@);
                let ghost cv_before = claims_view(claims@);
                schemas.push(schema);
                claims.push(ev);
                assert(schemas_view(schemas@) =~= iv_before.push(fs(item)));
                assert(claims_view(claims@) =~= cv_before.push(fc(item)));
                assert((seq![item] + d).map_values(fs) =~= seq![fs(item)] + d.map_values(fs));
                assert((seq![item] + d).map_values(fc) =~= seq![fc(item)] + d.map_values(fc));
                assert(iv_before + (seq![fs(item)] + d.map_values(fs)) =~= iv_before.push(fs(item)) + d.map_values(fs));
                assert(cv_before + (seq![fc(item)] + d.map_values(fc)) =~= cv_before.push(fc(item)) + d.map_values(fc));
            }
        }
        k = k + 1;
    }
    assert(bs.skip(k as int) =~= Seq::<(Seq<char>, Option<Seq<char>>, Seq<char>)>::empty());
    assert(schemas_view(schemas@) + Seq::empty() =~= schemas_view(schemas@));
    assert(claims_view(claims@) + Seq::empty() =~= claims_view(claims@));
}

/// The serde-derived structs a repository's Rust files declare, with one
/// evidence record each. Nothing unless the repository has a Cargo
/// manifest.
pub fn extract(repo: &Repository, files: &Vec<SourceFile>) -> (r: (Vec<Schema>, Vec<EvidenceClaim>))
    requires
        manifests_include(repo.manifests@, ManifestKind::Cargo) ==> struct_files_splittable(files@),
    ensures
        !manifests_include(repo.manifests@, ManifestKind::Cargo) ==> r.0@.len() == 0 && r.1@.len() == 0,
        manifests_include(repo.manifests@, ManifestKind::Cargo) ==> schemas_view(r.0@) == found_schemas(
            repo.id@,
            source_files_view(files@),
            seq![],
        ) && claims_view(r.1@) == found_schema_claims(repo.id@, source_files_view(files@), seq![]),
{
    if !has_manifest(&repo.manifests, ManifestKind::Cargo) {
        return (Vec::new(), Vec::new());
    }
    let mut schemas: Vec<Schema> = Vec::new();
    let mut claims: Vec<EvidenceClaim> = Vec::new();
    let mut seen: Vec<String> = Vec::new();
    let ghost fv = source_files_view(files@);
    let ghost id = repo.id@;
    assert(fv.skip(0) =~= fv);
    assert(strings_view(seen@) =~= Seq::<Seq<char>>::empty());
    assert(schemas_view(schemas@) =~= Seq::empty());
    assert(claims_view(claims@) =~= Seq::empty());
    let mut f: usize = 0;
    while f < files.len()
        invariant
            f <= files@.len(),
            fv == source_files_view(files@),
            id == repo.id@,
            struct_files_splittable(files@),
            found_schemas(id, fv, seq![]) == schemas_view(schemas@) + found_schemas(id, fv.skip(f as int), strings_view(seen@)),
            found_schema_claims(id, fv, seq![]) == claims_view(claims@) + found_schema_claims(
                id,
                fv.skip(f as int),
                strings_view(seen@),
            ),
        decreases files@.len() - f,
    {
        let ghost rest = fv.skip(f as int);
        let ghost sv = strings_view(seen@);
        let ghost iv = schemas_view(schemas@);
        let ghost cv = claims_view(claims@);
        assert(rest[0] == (files@[f as int].path@, files@[f as int].content@));
        assert(rest.drop_first() =~= fv.skip(f + 1));
        assert(source_splittable(files@[f as int].content@, "struct"@, schema_markers()));
        record_file_schemas(
            repo.id.as_str(),
            files[f].path.as_str(),
            files[f].content.as_str(),
            &mut seen,
            &mut schemas,
            &mut claims,
        );
        let ghost bs = source_structs(rest[0].1);
        let ghost di = kept_structs(bs, sv).map_values(
            |k: ((Seq<char>, Option<Seq<char>>, Seq<char>), Seq<(Seq<char>, Seq<char>)>)| schema_of(id, k),
        );
        let ghost dc = kept_structs(bs, sv).map_values(
            |k: ((Seq<char>, Option<Seq<char>>, Seq<char>), Seq<(Seq<char>, Seq<char>)>)| schema_claim(id, k, rest[0].0),
        );
        let ghost tail_s = found_schemas(id, fv.skip(f + 1), strings_view(seen@));
        let ghost tail_c = found_schema_claims(id, fv.skip(f + 1), strings_view(seen@));
        assert(found_schemas(id, rest, sv) == di + tail_s);
        assert(found_schema_claims(id, rest, sv) == dc + tail_c);
        assert(iv + (di + tail_s) =~= (iv + di) + tail_s);
        assert(cv + (dc + tail_c) =~= (cv + dc) + tail_c);
        f = f + 1;
    }
    assert(fv.skip(f as int) =~= Seq::<(Seq<char>, Seq<char>)>::empty());
    assert(schemas_view(schemas@) + Seq::empty() =~= schemas_view(schemas@));
    assert(claims_view(claims@) + Seq::empty() =~= claims_view(claims@));
    (schemas, claims)
}


/// Whether every file can be read for schemas: no raw string at the end of a
/// struct body runs past it.
pub fn struct_files_are_splittable(files: &Vec<SourceFile>) -> (r: bool)
    ensures
        r == struct_files_splittable(files@),
{
    let markers: [&str; 2] = ["Serialize", "Deserialize"];
    let ghost mk = markers@.map_values(|m: &str| m@);
    assert(mk =~= schema_markers());
    let mut i: usize = 0;
    while i < files.len()
        invariant
            i <= files@.len(),
            mk == schema_markers(),
            mk == markers@.map_values(|m: &str| m@),
            forall|j: int| 0 <= j < i ==> source_splittable(#[trigger] files@[j].content@, "struct"@, schema_markers()),
        decreases files@.len() - i,
    {
        if !source_is_splittable(files[i].content.as_str(), "struct", &markers) {
            return false;
        }
        i = i + 1;
    }
    true
}

/// `extract` for any files: `None` when the repository has a Cargo manifest
/// and one of its files cannot be read for schemas, where reading it would
/// fail.
pub fn extract_checked(repo: &Repository, files: &Vec<SourceFile>) -> (r: Option<(Vec<Schema>, Vec<EvidenceClaim>)>)
    ensures
        r is None <==> manifests_include(repo.manifests@, ManifestKind::Cargo) && !struct_files_splittable(files@),
        r matches Some(x) ==> (!manifests_include(repo.manifests@, ManifestKind::Cargo) ==> x.0@.len() == 0 && x.1@.len() == 0),
        r matches Some(x) ==> (manifests_include(repo.manifests@, ManifestKind::Cargo) ==> schemas_view(x.0@) == found_schemas(
            repo.id@,
            source_files_view(files@),
            seq![],
        ) && claims_view(x.1@) == found_schema_claims(repo.id@, source_files_view(files@), seq![])),
{
    if has_manifest(&repo.manifests, ManifestKind::Cargo) && !struct_files_are_splittable(files) {
        None
    } else {
        Some(extract(repo, files))
    }
}

} // verus!
