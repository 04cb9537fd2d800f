//! What the readers of manifests, help texts and source text owe: every
//! entry they are meant to take is taken, and nothing beyond their reach.

use vstd::prelude::*;
use crate::model::ManifestKind;
use crate::document::{DocValue, doc_get, get_str};
use crate::manifests::{cargo_facts, table_dep, table_deps};
use crate::capabilities::{cargo_bins, bin_names};
use crate::schemas::name_type;
use crate::probe::{help_commands, commands_from, commands_header_from, command_line, ansi_free};
use crate::rust_scan::{line_starts, line_text, line_starts_upto, line_end, doc_and_ident, doc_and_ident_from};
use crate::text::{trim, trim_start, trim_end, is_ws, ends_with, starts_with, join};

verus! {

proof fn lemma_table_deps_contains(kind: ManifestKind, es: Seq<(String, DocValue)>, i: int)
    requires
        0 <= i < es.len(),
        table_dep(kind, es[i].0@, es[i].1) is Some,
    ensures
        table_deps(kind, es).contains(table_dep(kind, es[i].0@, es[i].1).unwrap()),
    decreases es.len(),
{
    let d = table_dep(kind, es[i].0@, es[i].1).unwrap();
    let rest = table_deps(kind, es.drop_first());
    let head = match table_dep(kind, es[0].0@, es[0].1) {
        Some(x) => seq![x],
        None => seq![],
    };
    assert(table_deps(kind, es) == head + rest);
    if i == 0 {
        assert((head + rest)[0] == d);
    } else {
        lemma_table_deps_contains(kind, es.drop_first(), i - 1);
        assert(es.drop_first()[i - 1] == es[i]);
        let p = choose|p: int| 0 <= p < rest.len() && rest[p] == d;
        assert((head + rest)[head.len() + p] == d);
    }
}

/// Every dependency a section of a parsed `Cargo.toml` declares, as a
/// version string or as a table, is among the manifest's dependencies,
/// whichever of `[dependencies]`, `[dev-dependencies]` and
/// `[build-dependencies]` it stands in: a version string gives a registry
/// dependency on that version, a table one with the table's `version` and
/// `path`.
pub proof fn law_cargo_reads_every_dependency_section(doc: DocValue, section: Seq<char>, i: int)
    requires
        section == "dependencies"@ || section == "dev-dependencies"@ || section == "build-dependencies"@,
        doc_get(doc, section) matches Some(DocValue::Table(t)) && 0 <= i < t@.len(),
    ensures
        doc_get(doc, section) matches Some(DocValue::Table(t)) && (match t@[i].1 {
            DocValue::Str(v) => cargo_facts(doc).3.contains(
                (t@[i].0@, Some(v@), ManifestKind::Cargo, false, None::<Seq<char>>, None::<Seq<char>>),
            ),
            DocValue::Table(_) => exists|p: int|
                0 <= p < cargo_facts(doc).3.len() && (#[trigger] cargo_facts(doc).3[p]).0 == t@[i].0@
                    && cargo_facts(doc).3[p].2 == ManifestKind::Cargo,
            _ => true,
        }),
{
    let t = match doc_get(doc, section) {
        Some(DocValue::Table(t)) => t@,
        _ => Seq::empty(),
    };
    let a = crate::manifests::cargo_section(doc, "dependencies"@);
    let b = crate::manifests::cargo_section(doc, "dev-dependencies"@);
    let c = crate::manifests::cargo_section(doc, "build-dependencies"@);
    let all = cargo_facts(doc).3;
    assert(all == a + b + c);
    match t[i].1 {
        DocValue::Str(_) | DocValue::Table(_) => {
            let d = table_dep(ManifestKind::Cargo, t[i].0@, t[i].1).unwrap();
            lemma_table_deps_contains(ManifestKind::Cargo, t, i);
            let own = table_deps(ManifestKind::Cargo, t);
            let p = choose|p: int| 0 <= p < own.len() && own[p] == d;
            let q = if section == "dependencies"@ {
                assert(own == a);
                p
            } else if section == "dev-dependencies"@ {
                assert(own == b);
                a.len() + p
            } else {
                assert(own == c);
                a.len() + b.len() + p
            };
            assert(all[q] == d);
            assert(all.contains(d));
        },
        _ => {},
    }
}

/// How many of the first `n` `[[bin]]` entries carry a string `name`.
pub open spec fn named_bins(items: Seq<DocValue>, n: int) -> nat
    decreases n,
{
    if n <= 0 {
        0
    } else {
        named_bins(items, n - 1) + if get_str(Some(items[n - 1]), "name"@) is Some {
            1nat
        } else {
            0nat
        }
    }
}

proof fn lemma_bin_names_push(a: Seq<DocValue>, x: DocValue)
    ensures
        bin_names(a.push(x)) == bin_names(a) + match get_str(Some(x), "name"@) {
            Some(n) => seq![n],
            None => Seq::<Seq<char>>::empty(),
        },
    decreases a.len(),
{
    let tail = match get_str(Some(x), "name"@) {
        Some(n) => seq![n],
        None => Seq::<Seq<char>>::empty(),
    };
    if a.len() > 0 {
        lemma_bin_names_push(a.drop_first(), x);
        assert(a.push(x).drop_first() =~= a.drop_first().push(x));
        assert(a.push(x)[0] == a[0]);
        let head = match get_str(Some(a[0]), "name"@) {
            Some(n) => seq![n],
            None => Seq::<Seq<char>>::empty(),
        };
        assert(bin_names(a.push(x)) == head + bin_names(a.drop_first().push(x)));
        assert(bin_names(a) == head + bin_names(a.drop_first()));
        assert(head + (bin_names(a.drop_first()) + tail) =~= (head + bin_names(a.drop_first())) + tail);
    } else {
        assert(a.push(x).drop_first() =~= Seq::<DocValue>::empty());
        assert(a.push(x)[0] == x);
        assert(bin_names(a.push(x)) == tail + bin_names(Seq::<DocValue>::empty()));
        assert(tail + Seq::<Seq<char>>::empty() =~= tail);
        assert(Seq::<Seq<char>>::empty() + tail =~= tail);
    }
}

proof fn lemma_bin_names_prefix(items: Seq<DocValue>, n: int)
    requires
        0 <= n <= items.len(),
    ensures
        bin_names(items.take(n)).len() == named_bins(items, n),
        forall|i: int|
            0 <= i < n && #[trigger] get_str(Some(items[i]), "name"@) is Some ==> bin_names(items.take(n))[named_bins(
                items,
                i,
            ) as int] == get_str(Some(items[i]), "name"@).unwrap() && named_bins(items, i) < named_bins(items, n),
    decreases n,
{
    if n == 0 {
        assert(items.take(0) =~= Seq::<DocValue>::empty());
    } else {
        lemma_bin_names_prefix(items, n - 1);
        assert(items.take(n) =~= items.take(n - 1).push(items[n - 1]));
        lemma_bin_names_push(items.take(n - 1), items[n - 1]);
        let prev = bin_names(items.take(n - 1));
        let now = bin_names(items.take(n));
        assert forall|i: int|
            0 <= i < n && #[trigger] get_str(Some(items[i]), "name"@) is Some implies now[named_bins(items, i) as int]
            == get_str(Some(items[i]), "name"@).unwrap() && named_bins(items, i) < named_bins(items, n) by {
            if i < n - 1 {
                assert(now[named_bins(items, i) as int] == prev[named_bins(items, i) as int]);
            }
        }
    }
}

/// The `[[bin]]` entries of a parsed `Cargo.toml`, when `bin` is an array.
pub open spec fn bin_entries(doc: DocValue) -> Option<Seq<DocValue>> {
    match doc_get(doc, "bin"@) {
        Some(DocValue::Array(a)) => Some(a@),
        _ => None,
    }
}

/// Every `[[bin]]` entry of a parsed `Cargo.toml` that has a string `name`
/// declares a binary of that name: the binaries are exactly those names,
/// in entry order (the `k`-th named entry gives the `k`-th binary). Only
/// when no entry is named does the package itself stand in, and then only
/// with a `src/main.rs`.
pub proof fn law_cargo_bins_every_named_entry(doc: DocValue, package_name: Seq<char>, has_src_main: bool)
    ensures
        bin_entries(doc) matches Some(a) ==> (named_bins(a, a.len() as int) > 0 ==> {
            &&& cargo_bins(doc, package_name, has_src_main).len() == named_bins(a, a.len() as int)
            &&& forall|i: int|
                0 <= i < a.len() && #[trigger] get_str(Some(a[i]), "name"@) is Some ==> cargo_bins(
                    doc,
                    package_name,
                    has_src_main,
                )[named_bins(a, i) as int] == get_str(Some(a[i]), "name"@).unwrap()
        }),
        (match bin_entries(doc) {
            Some(a) => named_bins(a, a.len() as int) == 0,
            None => true,
        }) ==> cargo_bins(doc, package_name, has_src_main) == if has_src_main {
            seq![package_name]
        } else {
            Seq::<Seq<char>>::empty()
        },
{
    match doc_get(doc, "bin"@) {
        Some(DocValue::Array(a)) => {
            let items = a@;
            lemma_bin_names_prefix(items, items.len() as int);
            assert(items.take(items.len() as int) =~= items);
        },
        _ => {},
    }
}

/// A field line may start with `pub(crate) ` before what a plain field line
/// holds: it reads as the same field.
pub proof fn law_crate_visible_field_reads_as_plain(line: Seq<char>)
    requires
        !starts_with(line, "pub(crate) "@),
    ensures
        name_type("pub(crate) "@ + line) == name_type(line),
{
    let full = "pub(crate) "@ + line;
    reveal_strlit("pub(crate) ");
    assert(full.subrange(0, 11) =~= "pub(crate) "@);
    assert(full.skip(11) =~= line);
}

/// Line `j` of `s`, at or after line `k`, lists command `c`, and no line
/// from `k` through `j` is blank.
pub open spec fn listed_without_gap(s: Seq<char>, k: int, j: int, c: (Seq<char>, Option<Seq<char>>)) -> bool {
    &&& k <= j < line_starts(s).len()
    &&& command_line(trim(line_text(s, line_starts(s), j))) == Some(c)
    &&& forall|m: int| k <= m <= j ==> #[trigger] trim(line_text(s, line_starts(s), m)).len() > 0
}

proof fn lemma_command_line_witness(s: Seq<char>, k: int, u: int) -> (j: int)
    requires
        0 <= k,
        0 <= u < commands_from(s, line_starts(s), k).len(),
    ensures
        listed_without_gap(s, k, j, commands_from(s, line_starts(s), k)[u]),
    decreases line_starts(s).len() - k,
{
    let ls = line_starts(s);
    if k >= ls.len() {
        assert(commands_from(s, ls, k).len() == 0);
        0
    } else {
        let line = line_text(s, ls, k);
        let t = trim(line);
        if !(t.len() > 0 && !(!(line.len() > 0 && is_ws(line[0])) && ends_with(t, ":"@))) {
            assert(commands_from(s, ls, k).len() == 0);
            0
        } else {
            let rest = commands_from(s, ls, k + 1);
            let all = commands_from(s, ls, k);
            match command_line(t) {
                Some(c) => {
                    assert(all == seq![c] + rest);
                    if u == 0 {
                        assert(listed_without_gap(s, k, k, all[u]));
                        k
                    } else {
                        assert(all[u] == rest[u - 1]);
                        let j = lemma_command_line_witness(s, k + 1, u - 1);
                        assert(listed_without_gap(s, k, j, all[u]));
                        j
                    }
                },
                None => {
                    assert(all == rest);
                    let j = lemma_command_line_witness(s, k + 1, u);
                    assert(listed_without_gap(s, k, j, all[u]));
                    j
                },
            }
        }
    }
}

proof fn lemma_header_at_or_after(s: Seq<char>, ls: Seq<int>, k: int)
    ensures
        commands_header_from(s, ls, k) matches Some(h) ==> k <= h,
    decreases ls.len() - k,
{
    if 0 <= k < ls.len() {
        lemma_header_at_or_after(s, ls, k + 1);
    }
}

/// Some line at or after line `k` lists `c`, with no blank line from `k`
/// through it.
pub open spec fn listed_after_without_gap(s: Seq<char>, k: int, c: (Seq<char>, Option<Seq<char>>)) -> bool {
    exists|j: int| #[trigger] listed_without_gap(s, k, j, c)
}

/// The commands read from a help text come only from the lines after its
/// `Commands:` header, up to the first blank line: each is listed on a
/// line after the header with no blank line between them.
pub proof fn law_help_commands_end_at_blank_line(text: Seq<char>)
    ensures
        commands_header_from(ansi_free(text), line_starts(ansi_free(text)), 0) matches Some(h) ==> forall|t: int|
            0 <= t < help_commands(text).len() ==> listed_after_without_gap(
                ansi_free(text),
                h + 1,
                #[trigger] help_commands(text)[t],
            ),
{
    let s = ansi_free(text);
    match commands_header_from(s, line_starts(s), 0) {
        Some(h) => {
            lemma_header_at_or_after(s, line_starts(s), 0);
            assert forall|t: int| 0 <= t < help_commands(text).len() implies listed_after_without_gap(
                s,
                h + 1,
                #[trigger] help_commands(text)[t],
            ) by {
                let j = lemma_command_line_witness(s, h + 1, t);
                assert(listed_without_gap(s, h + 1, j, help_commands(text)[t]));
            }
        },
        None => {},
    }
}

proof fn lemma_starts_before_newline(s: Seq<char>, n: int, p: int)
    requires
        0 <= n <= p <= s.len(),
        forall|i: int| 0 <= i < p ==> s[i] != '\n',
    ensures
        line_starts_upto(s, n) == seq![0int],
    decreases n,
{
    if n > 0 {
        lemma_starts_before_newline(s, n - 1, p);
    }
}

proof fn lemma_starts_shifted(p: Seq<char>, c: Seq<char>, n: int)
    requires
        p.len() > 0,
        p.last() == '\n',
        forall|i: int| 0 <= i < p.len() - 1 ==> p[i] != '\n',
        p.len() <= n <= p.len() + c.len(),
    ensures
        line_starts_upto(p + c, n) == seq![0int] + line_starts_upto(c, n - p.len()).map_values(|v: int| v + p.len()),
    decreases n,
{
    let s = p + c;
    let pl = p.len() as int;
    if n == pl {
        lemma_starts_before_newline(s, pl - 1, pl - 1);
        assert(s[pl - 1] == '\n');
        assert(line_starts_upto(c, 0) == seq![0int]);
        assert(seq![0int].map_values(|v: int| v + pl) =~= seq![pl]);
        assert(seq![0int].push(pl) =~= seq![0int] + seq![pl]);
    } else {
        lemma_starts_shifted(p, c, n - 1);
        let prev = line_starts_upto(c, n - 1 - pl);
        assert(s[n - 1] == c[n - 1 - pl]);
        if c[n - 1 - pl] == '\n' {
            assert(line_starts_upto(c, n - pl) == prev.push(n - pl));
            assert(prev.push(n - pl).map_values(|v: int| v + pl) =~= prev.map_values(|v: int| v + pl).push(n));
            assert((seq![0int] + prev.map_values(|v: int| v + pl)).push(n) =~= seq![0int] + prev.map_values(
                |v: int| v + pl,
            ).push(n));
        } else {
            assert(line_starts_upto(c, n - pl) == prev);
        }
    }
}

proof fn lemma_lines_shifted(p: Seq<char>, c: Seq<char>)
    requires
        p.len() > 0,
        p.last() == '\n',
        forall|i: int| 0 <= i < p.len() - 1 ==> p[i] != '\n',
    ensures
        line_starts(p + c).len() == line_starts(c).len() + 1,
        line_text(p + c, line_starts(p + c), 0) == p,
        forall|k: int|
            0 <= k < line_starts(c).len() ==> #[trigger] line_text(p + c, line_starts(p + c), k + 1) == line_text(
                c,
                line_starts(c),
                k,
            ),
{
    let s = p + c;
    let pl = p.len() as int;
    lemma_starts_shifted(p, c, s.len() as int);
    let ls = line_starts(c);
    let big = line_starts(s);
    assert(big == seq![0int] + ls.map_values(|v: int| v + pl));
    assert(line_starts(c) == line_starts_upto(c, c.len() as int));
    assert(ls.len() >= 1) by {
        crate::rust_scan::lemma_line_starts(c);
    }
    crate::rust_scan::lemma_line_starts(c);
    assert(big[1] == ls[0] + pl);
    assert(line_end(s, big, 0) == pl);
    assert(s.subrange(0, pl) =~= p);
    assert forall|k: int| 0 <= k < ls.len() implies #[trigger] line_text(s, big, k + 1) == line_text(c, ls, k) by {
        assert(big[k + 1] == ls[k] + pl);
        if k + 1 < ls.len() {
            assert(big[k + 2] == ls[k + 1] + pl);
        }
        let e = line_end(c, ls, k);
        assert(line_end(s, big, k + 1) == e + pl);
        assert(0 <= ls[k] <= e <= c.len());
        assert(s.subrange(ls[k] + pl, e + pl) =~= c.subrange(ls[k], e));
    }
}

proof fn lemma_docs_shifted(p: Seq<char>, c: Seq<char>, k: int, d: Seq<Seq<char>>)
    requires
        p.len() > 0,
        p.last() == '\n',
        forall|i: int| 0 <= i < p.len() - 1 ==> p[i] != '\n',
        0 <= k,
    ensures
        doc_and_ident_from(p + c, line_starts(p + c), k + 1, d) == doc_and_ident_from(c, line_starts(c), k, d),
    decreases line_starts(c).len() - k,
{
    lemma_lines_shifted(p, c);
    if k < line_starts(c).len() {
        assert(line_text(p + c, line_starts(p + c), k + 1) == line_text(c, line_starts(c), k));
        let t = trim(line_text(c, line_starts(c), k));
        lemma_docs_shifted(p, c, k + 1, d);
        lemma_docs_shifted(p, c, k + 1, d.push(trim(t.skip(3))));
    }
}

proof fn lemma_docs_prefixed(c: Seq<char>, ls: Seq<int>, k: int, a: Seq<char>, d: Seq<Seq<char>>)
    ensures
        doc_and_ident_from(c, ls, k, seq![a] + d) == (
            seq![a] + doc_and_ident_from(c, ls, k, d).0,
            doc_and_ident_from(c, ls, k, d).1,
        ),
    decreases ls.len() - k,
{
    if 0 <= k < ls.len() {
        let t = trim(line_text(c, ls, k));
        let y = trim(t.skip(3));
        assert((seq![a] + d).push(y) =~= seq![a] + d.push(y));
        lemma_docs_prefixed(c, ls, k + 1, a, d);
        lemma_docs_prefixed(c, ls, k + 1, a, d.push(y));
    }
}

proof fn lemma_join_prepend(a: Seq<char>, r: Seq<Seq<char>>, sep: Seq<char>)
    ensures
        join(seq![a] + r, sep) == if r.len() == 0 {
            a
        } else {
            a + sep + join(r, sep)
        },
    decreases r.len(),
{
    assert(join(seq![a], sep) == a);
    if r.len() == 0 {
        assert(seq![a] + r =~= seq![a]);
    } else if r.len() == 1 {
        assert((seq![a] + r).drop_last() =~= seq![a]);
        assert((seq![a] + r).last() == r[0]);
        assert(join(r, sep) == r[0]);
        assert((seq![a] + r).len() == 2);
    } else {
        lemma_join_prepend(a, r.drop_last(), sep);
        assert((seq![a] + r).drop_last() =~= seq![a] + r.drop_last());
        assert((seq![a] + r).last() == r.last());
        assert(a + sep + (join(r.drop_last(), sep) + sep + r.last()) =~= (a + sep + join(r.drop_last(), sep)) + sep
            + r.last());
    }
}

/// A chunk read for a subcommand or field keeps every `///` line before its
/// identifier: putting one more doc line `/// x` in front adds `x` as the
/// first line of the doc, joined to the rest by a space, and leaves the
/// identifier as it was.
pub proof fn law_every_doc_line_kept(x: Seq<char>, chunk: Seq<char>)
    requires
        x.len() > 0,
        !is_ws(x[0]),
        !is_ws(x.last()),
        forall|i: int| 0 <= i < x.len() ==> x[i] != '\n',
    ensures
        doc_and_ident("/// "@ + x + "\n"@ + chunk).1 == doc_and_ident(chunk).1,
        doc_and_ident("/// "@ + x + "\n"@ + chunk).0 == Some(
            match doc_and_ident(chunk).0 {
                Some(d) => x + " "@ + d,
                None => x,
            },
        ),
{
    reveal_strlit("/// ");
    reveal_strlit("\n");
    reveal_strlit("///");
    reveal_strlit(" ");
    let p = "/// "@ + x + "\n"@;
    let s = p + chunk;
    assert("/// "@ + x + "\n"@ + chunk =~= s);
    assert(p.last() == '\n');
    assert forall|i: int| 0 <= i < p.len() - 1 implies p[i] != '\n' by {
        if i >= 4 {
            assert(p[i] == x[i - 4]);
        }
    }
    lemma_lines_shifted(p, chunk);
    let big = line_starts(s);
    // The first line reads as the doc line `x`.
    let l0 = line_text(s, big, 0);
    assert(l0 == p);
    assert(trim_start(p) == p);
    let q = "/// "@ + x;
    assert(p.drop_last() =~= q);
    assert(trim_end(p) == trim_end(q));
    assert(q.last() == x.last());
    assert(trim_end(q) == q);
    let t = trim(l0);
    assert(t == q);
    assert(q.subrange(0, 3) =~= "///"@);
    assert(starts_with(t, "///"@));
    assert(t.skip(3) =~= " "@ + x);
    assert(trim_start(" "@ + x) == trim_start((" "@ + x).drop_first()));
    assert((" "@ + x).drop_first() =~= x);
    assert(trim_start(x) == x);
    assert(trim_end(x) == x);
    assert(trim(t.skip(3)) == x);
    // Then the rest reads as the chunk, after the doc line `x`.
    let r = doc_and_ident_from(chunk, line_starts(chunk), 0, seq![]);
    assert(doc_and_ident_from(s, big, 0, seq![]) == doc_and_ident_from(s, big, 1, seq![x]));
    lemma_docs_shifted(p, chunk, 0, seq![x]);
    lemma_docs_prefixed(chunk, line_starts(chunk), 0, x, seq![]);
    assert(seq![x] + Seq::<Seq<char>>::empty() =~= seq![x]);
    assert(doc_and_ident_from(s, big, 0, seq![]) == (seq![x] + r.0, r.1));
    lemma_join_prepend(x, r.0, " "@);
}

} // verus!
