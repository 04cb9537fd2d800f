//! Reading what a tool says about itself: `--help` transcripts, `--version`
//! output, and the decisions a probe makes between its read-only runs.

use vstd::prelude::*;
use crate::process::ProcessOutput;
use crate::text::{
    chars_of, string_from_chars, string_from_range, trim, starts_with, ends_with, is_ws, is_whitespace,
    trim_range, range_starts_with, range_ends_with, unicode_alphanumeric, is_alphanumeric, opt_chars,
    utf8_len, range_utf8_len, is_ascii_alpha,
};
use crate::rust_scan::{line_starts, line_starts_of, line_starts_ok, line_text};
use crate::model::Availability;
use crate::document::{json_document, parse_json_value};
use crate::text::{str_lowercase, lowercase, str_eq, copy_string, push_str_chars, join, lemma_join_push, strings_view, contains_string};

verus! {

/// A subcommand listed in a tool's `--help`.
#[derive(Debug, Clone)]
pub struct DiscoveredCommand {
    pub name: String,
    pub description: Option<String>,
}

/// How a tool's commands were learned.
#[derive(Debug, Clone, Copy, PartialEq, Eq, Structural)]
pub enum DiscoveryMethod {
    /// The tool advertised a machine-readable capability manifest and it
    /// parsed as JSON.
    JsonCapabilityManifest,
    /// Parsed from the `Commands:` section of `--help` text: a heuristic,
    /// not a verified contract.
    HelpTextHeuristic,
}

/// `s[i..]` with ANSI escapes removed: an ESC and everything up to and
/// including the next ASCII letter is dropped.
pub open spec fn ansi_free_from(s: Seq<char>, i: int, in_escape: bool) -> Seq<char>
    decreases s.len() - i,
{
    if i < 0 || i >= s.len() {
        seq![]
    } else if in_escape {
        ansi_free_from(s, i + 1, !is_ascii_alpha(s[i]))
    } else if s[i] == '\u{1b}' {
        ansi_free_from(s, i + 1, true)
    } else {
        seq![s[i]] + ansi_free_from(s, i + 1, false)
    }
}

pub open spec fn ansi_free(s: Seq<char>) -> Seq<char> {
    ansi_free_from(s, 0, false)
}

fn strip_ansi_chars(chars: &[char]) -> (out: Vec<char>)
    ensures
        out@ == ansi_free(chars@),
{
    let ghost s = chars@;
    let mut out: Vec<char> = Vec::new();
    let mut esc = false;
    let mut i: usize = 0;
    while i < chars.len()
        invariant
            i <= s.len(),
            s == chars@,
            ansi_free(s) == out@ + ansi_free_from(s, i as int, esc),
        decreases s.len() - i,
    {
        let c = chars[i];
        if esc {
            esc = !(('a' <= c && c <= 'z') || ('A' <= c && c <= 'Z'));
        } else if c == '\u{1b}' {
            esc = true;
        } else {
            let ghost before = out@;
            out.push(c);
            assert(before + (seq![c] + ansi_free_from(s, i + 1, false)) == out@ + ansi_free_from(s, i + 1, false));
        }
        i = i + 1;
    }
    out
}

/// Strip ANSI escape sequences (`\x1b[...m` etc.) from help output.
pub fn strip_ansi(s: &str) -> (r: String)
    ensures
        r@ == ansi_free(s@),
{
    let chars = chars_of(s);
    let out = strip_ansi_chars(&chars);
    string_from_chars(&out)
}

/// ASCII case-insensitive equality (`str::eq_ignore_ascii_case`).
pub open spec fn ascii_lower(c: char) -> char {
    if 'A' <= c && c <= 'Z' {
        ((c as u32) + 32) as char
    } else {
        c
    }
}

pub open spec fn eq_ignore_ascii_case(a: Seq<char>, b: Seq<char>) -> bool {
    a.len() == b.len() && forall|k: int| 0 <= k < a.len() ==> ascii_lower(#[trigger] a[k]) == ascii_lower(b[k])
}

/// The version a `VERSION ...` line announces; the last such line wins.
pub open spec fn version_from(s: Seq<char>, ls: Seq<int>, k: int, v: Option<Seq<char>>) -> Option<Seq<char>>
    decreases ls.len() - k,
{
    if k < 0 || k >= ls.len() {
        v
    } else {
        let t = trim(line_text(s, ls, k));
        let rest = trim(t.skip(7));
        version_from(
            s,
            ls,
            k + 1,
            if starts_with(t, "VERSION"@) && rest.len() > 0 {
                Some(rest)
            } else {
                v
            },
        )
    }
}

/// Index of the first `Commands:` header line (any ASCII case), if any.
pub open spec fn commands_header_from(s: Seq<char>, ls: Seq<int>, k: int) -> Option<int>
    decreases ls.len() - k,
{
    if k < 0 || k >= ls.len() {
        None
    } else if eq_ignore_ascii_case(trim(line_text(s, ls, k)), "commands:"@) {
        Some(k)
    } else {
        commands_header_from(s, ls, k + 1)
    }
}

/// First whitespace position in `t`.
pub open spec fn first_ws_from(t: Seq<char>, i: int) -> Option<int>
    decreases t.len() - i,
{
    if i < 0 || i >= t.len() {
        None
    } else if is_ws(t[i]) {
        Some(i)
    } else {
        first_ws_from(t, i + 1)
    }
}

pub open spec fn is_command_char(c: char) -> bool {
    unicode_alphanumeric(c) || c == '-' || c == '_'
}

pub open spec fn all_command_chars(name: Seq<char>) -> bool {
    forall|k: int| 0 <= k < name.len() ==> is_command_char(#[trigger] name[k])
}

/// The first whitespace-separated word of a listing line.
pub open spec fn command_name(t: Seq<char>) -> Seq<char> {
    match first_ws_from(t, 0) {
        Some(p) => t.subrange(0, p),
        None => t,
    }
}

/// The trimmed rest of a listing line after its first word, if not empty.
pub open spec fn command_description(t: Seq<char>) -> Option<Seq<char>> {
    match first_ws_from(t, 0) {
        Some(p) => if trim(t.skip(p + 1)).len() > 0 {
            Some(trim(t.skip(p + 1)))
        } else {
            None
        },
        None => None,
    }
}

/// The command a listing line names: the first whitespace-separated word,
/// and the trimmed rest as its description when that is not empty.
pub open spec fn command_line(t: Seq<char>) -> Option<(Seq<char>, Option<Seq<char>>)> {
    if command_name(t).len() == 0 || !all_command_chars(command_name(t)) {
        None
    } else {
        Some((command_name(t), command_description(t)))
    }
}

/// The commands listed from line `k` on, until a blank line or a new
/// unindented section header ending in `:`.
pub open spec fn commands_from(s: Seq<char>, ls: Seq<int>, k: int) -> Seq<(Seq<char>, Option<Seq<char>>)>
    decreases ls.len() - k,
{
    if k < 0 || k >= ls.len() {
        seq![]
    } else {
        let line = line_text(s, ls, k);
        let t = trim(line);
        if t.len() == 0 {
            seq![]
        } else if !(line.len() > 0 && is_ws(line[0])) && ends_with(t, ":"@) {
            seq![]
        } else {
            match command_line(t) {
                Some(c) => seq![c] + commands_from(s, ls, k + 1),
                None => commands_from(s, ls, k + 1),
            }
        }
    }
}

/// What `parse_help_text` reads from a transcript: the version, and the
/// commands of its `Commands:` section.
pub open spec fn help_version(text: Seq<char>) -> Option<Seq<char>> {
    let s = ansi_free(text);
    version_from(s, line_starts(s), 0, None)
}

pub open spec fn help_commands(text: Seq<char>) -> Seq<(Seq<char>, Option<Seq<char>>)> {
    let s = ansi_free(text);
    match commands_header_from(s, line_starts(s), 0) {
        Some(h) => commands_from(s, line_starts(s), h + 1),
        None => seq![],
    }
}

pub open spec fn command_view(c: DiscoveredCommand) -> (Seq<char>, Option<Seq<char>>) {
    (c.name@, opt_chars(c.description))
}

fn eq_ignore_ascii_case_range(chars: &[char], a: usize, b: usize, p: &[char]) -> (r: bool)
    requires
        a <= b <= chars@.len(),
    ensures
        r == eq_ignore_ascii_case(chars@.subrange(a as int, b as int), p@),
{
    if b - a != p.len() {
        return false;
    }
    let mut k: usize = 0;
    while k < p.len()
        invariant
            k <= p@.len(),
            p@.len() == b - a,
            b <= chars@.len(),
            forall|t: int| 0 <= t < k ==> ascii_lower(#[trigger] chars@[a + t]) == ascii_lower(p@[t]),
        decreases p@.len() - k,
    {
        let x = chars[a + k];
        let y = p[k];
        let lx = if 'A' <= x && x <= 'Z' { ((x as u32) + 32) as u8 as char } else { x };
        let ly = if 'A' <= y && y <= 'Z' { ((y as u32) + 32) as u8 as char } else { y };
        assert(lx == ascii_lower(x)) by {
            if 'A' <= x && x <= 'Z' {
                assert((((x as u32) + 32) as u8 as char) == (((x as u32) + 32) as char));
            }
        }
        assert(ly == ascii_lower(y)) by {
            if 'A' <= y && y <= 'Z' {
                assert((((y as u32) + 32) as u8 as char) == (((y as u32) + 32) as char));
            }
        }
        if lx != ly {
            assert(chars@.subrange(a as int, b as int)[k as int] == chars@[a + k]);
            return false;
        }
        k = k + 1;
    }
    assert forall|t: int| 0 <= t < p@.len() implies ascii_lower(#[trigger] chars@.subrange(a as int, b as int)[t]) == ascii_lower(p@[t]) by {
        assert(chars@.subrange(a as int, b as int)[t] == chars@[a + t]);
    }
    true
}

fn first_ws_exec(chars: &[char], a: usize, b: usize) -> (r: Option<usize>)
    requires
        a <= b <= chars@.len(),
    ensures
        r matches Some(p) ==> a <= p < b && first_ws_from(chars@.subrange(a as int, b as int), 0) == Some(p - a),
        r is None ==> first_ws_from(chars@.subrange(a as int, b as int), 0) is None,
{
    let ghost t = chars@.subrange(a as int, b as int);
    let mut k = a;
    while k < b
        invariant
            a <= k <= b <= chars@.len(),
            t == chars@.subrange(a as int, b as int),
            first_ws_from(t, 0) == first_ws_from(t, k - a),
        decreases b - k,
    {
        assert(t[k - a] == chars@[k as int]);
        if is_whitespace(chars[k]) {
            return Some(k);
        }
        k = k + 1;
    }
    None
}

fn range_all_command_chars(chars: &[char], a: usize, b: usize) -> (r: bool)
    requires
        a <= b <= chars@.len(),
    ensures
        r == (forall|u: int| 0 <= u < b - a ==> is_command_char(#[trigger] chars@.subrange(a as int, b as int)[u])),
{
    let mut k = a;
    while k < b
        invariant
            a <= k <= b <= chars@.len(),
            forall|u: int| a <= u < k ==> is_command_char(#[trigger] chars@[u]),
        decreases b - k,
    {
        let c = chars[k];
        if !(is_alphanumeric(c) || c == '-' || c == '_') {
            assert(chars@.subrange(a as int, b as int)[k - a] == chars@[k as int]);
            return false;
        }
        k = k + 1;
    }
    assert forall|u: int| 0 <= u < b - a implies is_command_char(#[trigger] chars@.subrange(a as int, b as int)[u]) by {
        assert(chars@.subrange(a as int, b as int)[u] == chars@[a + u]);
    }
    true
}

/// Reads the command named on a trimmed listing line `chars[a..b]`.
fn command_line_exec(chars: &[char], a: usize, b: usize) -> (r: Option<DiscoveredCommand>)
    requires
        a <= b <= chars@.len(),
    ensures
        match r {
            Some(c) => command_line(chars@.subrange(a as int, b as int)) == Some(command_view(c)),
            None => command_line(chars@.subrange(a as int, b as int)) is None,
        },
{
    let ghost t = chars@.subrange(a as int, b as int);
    let ws = first_ws_exec(chars, a, b);
    let name_end = match ws {
        Some(p) => p,
        None => b,
    };
    assert(chars@.subrange(a as int, name_end as int) == match first_ws_from(t, 0) {
        Some(p) => t.subrange(0, p),
        None => t,
    });
    if name_end == a {
        return None;
    }
    if !range_all_command_chars(chars, a, name_end) {
        return None;
    }
    let name = string_from_range(chars, a, name_end);
    let description = match ws {
        Some(p) => {
            let (c, d) = trim_range(chars, p + 1, b);
            assert(t.skip(p - a + 1) == chars@.subrange(p + 1, b as int));
            if c < d {
                Some(string_from_range(chars, c, d))
            } else {
                None
            }
        },
        None => None,
    };
    Some(DiscoveredCommand { name, description })
}

/// Parse a `--help` transcript for a version line and a `Commands:`
/// section. Heuristic: real help text from real tools, not a spec.
/// Handles plain clap-default output and hand-styled output with a
/// `VERSION` line and section headers ending in `:`.
pub fn parse_help_text(text: &str) -> (r: (Option<String>, Vec<DiscoveredCommand>))
    ensures
        opt_chars(r.0) == help_version(text@),
        r.1@.len() == help_commands(text@).len(),
        forall|k: int| 0 <= k < r.1@.len() ==> command_view(#[trigger] r.1@[k]) == help_commands(text@)[k],
{
    let raw = chars_of(text);
    let chars = strip_ansi_chars(&raw);
    let ghost s = chars@;
    let ls = line_starts_of(&chars);
    let ghost lsp = line_starts(s);
    let nl = ls.len();
    let version_word = chars_of("VERSION");
    proof {
        reveal_strlit("VERSION");
    }
    let mut version: Option<String> = None;
    let mut k: usize = 0;
    while k < nl
        invariant
            k <= nl,
            nl == ls@.len(),
            nl == lsp.len(),
            lsp == line_starts(s),
            s == chars@,
            s == ansi_free(text@),
            ls@.map_values(|x: usize| x as int) == lsp,
            line_starts_ok(s, lsp),
            version_word@ == "VERSION"@,
            version_from(s, lsp, 0, None) == version_from(s, lsp, k as int, opt_chars(version)),
        decreases nl - k,
    {
        assert(ls@.map_values(|x: usize| x as int)[k as int] == lsp[k as int]);
        let start = ls[k];
        let end = if k + 1 < nl {
            assert(ls@.map_values(|x: usize| x as int)[k + 1] == lsp[k + 1]);
            ls[k + 1]
        } else {
            chars.len()
        };
        assert(line_text(s, lsp, k as int) == chars@.subrange(start as int, end as int));
        let (a, b) = trim_range(&chars, start, end);
        proof {
            reveal_strlit("VERSION");
        }
        if range_starts_with(&chars, a, b, &version_word) {
            let (c, d) = trim_range(&chars, a + 7, b);
            assert(chars@.subrange(a as int, b as int).skip(7) == chars@.subrange(a + 7, b as int));
            if c < d {
                version = Some(string_from_range(&chars, c, d));
            }
        }
        k = k + 1;
    }
    let header = chars_of("commands:");
    let colon = chars_of(":");
    let mut commands: Vec<DiscoveredCommand> = Vec::new();
    let mut in_commands = false;
    let ghost mut hdr: int = 0;
    let mut k: usize = 0;
    while k < nl
        invariant
            k <= nl,
            nl == ls@.len(),
            nl == lsp.len(),
            lsp == line_starts(s),
            s == chars@,
            s == ansi_free(text@),
            ls@.map_values(|x: usize| x as int) == lsp,
            line_starts_ok(s, lsp),
            header@ == "commands:"@,
            colon@ == ":"@,
            !in_commands ==> commands@.len() == 0 && commands_header_from(s, lsp, 0)
                == commands_header_from(s, lsp, k as int),
            in_commands ==> commands_header_from(s, lsp, 0) == Some(hdr) && commands_from(s, lsp, hdr + 1)
                == commands@.map_values(|c: DiscoveredCommand| command_view(c)) + commands_from(s, lsp, k as int),
        ensures
            !in_commands ==> commands@.len() == 0 && commands_header_from(s, lsp, 0) is None,
            in_commands ==> commands_header_from(s, lsp, 0) == Some(hdr) && commands_from(s, lsp, hdr + 1)
                == commands@.map_values(|c: DiscoveredCommand| command_view(c)),
        decreases nl - k,
    {
        assert(ls@.map_values(|x: usize| x as int)[k as int] == lsp[k as int]);
        let start = ls[k];
        let end = if k + 1 < nl {
            assert(ls@.map_values(|x: usize| x as int)[k + 1] == lsp[k + 1]);
            ls[k + 1]
        } else {
            chars.len()
        };
        let ghost line = chars@.subrange(start as int, end as int);
        assert(line_text(s, lsp, k as int) == line);
        let (a, b) = trim_range(&chars, start, end);
        if !in_commands {
            if eq_ignore_ascii_case_range(&chars, a, b, &header) {
                in_commands = true;
                proof {
                    hdr = k as int;
                    assert(commands@.map_values(|c: DiscoveredCommand| command_view(c)) =~= seq![]);
                }
            }
            k = k + 1;
        } else {
            if a == b {
                assert(commands_from(s, lsp, k as int) =~= Seq::<(Seq<char>, Option<Seq<char>>)>::empty());
                assert(commands@.map_values(|c: DiscoveredCommand| command_view(c)) + commands_from(s, lsp, k as int)
                    =~= commands@.map_values(|c: DiscoveredCommand| command_view(c)));
                break;
            }
            let indented = start < end && is_whitespace(chars[start]);
            if !indented && range_ends_with(&chars, a, b, &colon) {
                assert(commands_from(s, lsp, k as int) =~= Seq::<(Seq<char>, Option<Seq<char>>)>::empty());
                assert(commands@.map_values(|c: DiscoveredCommand| command_view(c)) + commands_from(s, lsp, k as int)
                    =~= commands@.map_values(|c: DiscoveredCommand| command_view(c)));
                break;
            }
            let ghost before = commands@.map_values(|c: DiscoveredCommand| command_view(c));
            match command_line_exec(&chars, a, b) {
                Some(c) => {
                    commands.push(c);
                    assert(commands@.map_values(|c: DiscoveredCommand| command_view(c)) == before.push(
                        command_line(chars@.subrange(a as int, b as int))->0,
                    ));
                },
                None => {},
            }
            k = k + 1;
        }
    }
    (version, commands)
}

/// What a `--version` run reports, if it is trustworthy: it exited
/// successfully, and its trimmed text is non-empty and under 200 bytes.
pub open spec fn accepted_version(output: Option<(bool, Seq<char>)>) -> Option<Seq<char>> {
    match output {
        None => None,
        Some(o) => if !o.0 || trim(o.1).len() == 0 || utf8_len(trim(o.1)) >= 200 {
            None
        } else {
            Some(trim(o.1))
        },
    }
}

pub open spec fn output_view(o: Option<ProcessOutput>) -> Option<(bool, Seq<char>)> {
    match o {
        Some(p) => Some((p.success, p.text@)),
        None => None,
    }
}

/// Decide whether a `--version` invocation's output is trustworthy: a tool
/// that does not support the flag exits nonzero and prints an "unexpected
/// argument" error, which is not a version.
pub fn accept_version_output(output: Option<ProcessOutput>) -> (r: Option<String>)
    ensures
        opt_chars(r) == accepted_version(output_view(output)),
{
    let output = match output {
        Some(o) => o,
        None => return None,
    };
    if !output.success {
        return None;
    }
    let chars = chars_of(output.text.as_str());
    let (a, b) = trim_range(&chars, 0, chars.len());
    assert(chars@.subrange(0, chars@.len() as int) == chars@);
    if a == b || range_utf8_len(&chars, a, b) >= 200 {
        return None;
    }
    Some(string_from_range(&chars, a, b))
}

/// What a probe learned about one binary.
#[derive(Debug, Clone)]
pub struct ConnectorDetails {
    pub binary_path: String,
    pub version: Option<String>,
    pub commands: Vec<DiscoveredCommand>,
    pub discovery_method: DiscoveryMethod,
    /// Present only when a self-description command (found in the
    /// `commands` list) was invoked and returned parseable JSON.
    pub capability_manifest: Option<serde_json::Value>,
}

/// The outcome of probing one tool binary.
#[derive(Debug, Clone)]
pub struct ConnectorReport {
    pub tool: String,
    pub binary: String,
    pub availability: Availability<ConnectorDetails>,
}

/// Where a probe of one binary stands.
#[derive(Debug, Clone, Copy, PartialEq, Eq, Structural)]
pub enum ProbeStage {
    Locating,
    AwaitingHelp,
    AwaitingVersion,
    AwaitingSelfDescribe,
    Finished,
}

/// A probe in progress: what it has learned so far.
pub struct ProbeState {
    pub tool: String,
    pub binary: String,
    /// The probe runs inside a repository checkout, so a self-description
    /// command may be run.
    pub has_repo: bool,
    pub stage: ProbeStage,
    pub binary_path: String,
    pub version: Option<String>,
    pub commands: Vec<DiscoveredCommand>,
}

/// What the outside world answered to the last step.
pub enum ProbeEvent {
    /// Where the binary was found on `PATH`, if it was.
    Located(Option<String>),
    /// The output of a run, or `None` when it timed out or failed to start.
    Ran(Option<ProcessOutput>),
}

/// What the probe needs done next.
pub enum ProbeStep {
    /// Look the binary up on `PATH`.
    Locate(String),
    /// Run the located binary with these arguments (in the repository
    /// checkout, when there is one), with the default timeout.
    Run(Vec<String>),
    /// The probe is over.
    Done(ConnectorReport),
}

pub open spec fn self_describe_names() -> Seq<Seq<char>> {
    seq!["capabilities"@, "capability"@, "manifest"@, "describe"@]
}

/// The first listed command whose lowercased name is a self-description
/// command.
pub open spec fn self_describe_index(cs: Seq<(Seq<char>, Option<Seq<char>>)>) -> Option<int>
    decreases cs.len(),
{
    if cs.len() == 0 {
        None
    } else if self_describe_names().contains(str_lowercase(cs[0].0)) {
        Some(0)
    } else {
        match self_describe_index(cs.drop_first()) {
            Some(k) => Some(k + 1),
            None => None,
        }
    }
}

pub open spec fn commands_view(cs: Seq<DiscoveredCommand>) -> Seq<(Seq<char>, Option<Seq<char>>)> {
    cs.map_values(|c: DiscoveredCommand| command_view(c))
}

/// Self-description output is kept when the run succeeded, its text is at
/// most 64 KiB, and it parses as JSON.
pub open spec fn manifest_accepted(o: Option<ProcessOutput>) -> bool {
    match o {
        Some(p) => p.success && utf8_len(p.text@) <= 65536 && json_document(p.text@) is Some,
        None => false,
    }
}

/// `r` reports the binary as unavailable for `reason`.
pub open spec fn reports_unavailable(r: ConnectorReport, tool: Seq<char>, binary: Seq<char>, reason: Seq<char>) -> bool {
    &&& r.tool@ == tool
    &&& r.binary@ == binary
    &&& match r.availability {
        Availability::Unavailable { reason: x } => x@ == reason,
        _ => false,
    }
}

/// `r` reports what the probe `st` learned, found by `method`, with a
/// capability manifest exactly when `with_manifest`.
pub open spec fn reports_known(r: ConnectorReport, st: ProbeState, method: DiscoveryMethod, with_manifest: bool) -> bool {
    &&& r.tool@ == st.tool@
    &&& r.binary@ == st.binary@
    &&& match r.availability {
        Availability::Known(d) => {
            &&& d.binary_path@ == st.binary_path@
            &&& opt_chars(d.version) == opt_chars(st.version)
            &&& commands_view(d.commands@) == commands_view(st.commands@)
            &&& d.discovery_method == method
            &&& (d.capability_manifest is Some) == with_manifest
        },
        _ => false,
    }
}

pub open spec fn args_view(v: Seq<String>) -> Seq<Seq<char>> {
    v.map_values(|a: String| a@)
}

/// Which answer each stage waits for.
pub open spec fn event_fits(stage: ProbeStage, e: ProbeEvent) -> bool {
    match stage {
        ProbeStage::Locating => e is Located,
        ProbeStage::Finished => false,
        _ => e is Ran,
    }
}

/// `s` carries what `t` learned about the tool and binary.
pub open spec fn same_probe(s: ProbeState, t: ProbeState) -> bool {
    &&& s.tool@ == t.tool@
    &&& s.binary@ == t.binary@
    &&& s.has_repo == t.has_repo
}

/// Once the version question is settled: run the first self-description
/// command the help listed, if in a repository; otherwise report.
pub open spec fn settled(st: ProbeState, r: (ProbeState, ProbeStep)) -> bool {
    &&& same_probe(r.0, st)
    &&& r.0.binary_path@ == st.binary_path@
    &&& opt_chars(r.0.version) == opt_chars(st.version)
    &&& commands_view(r.0.commands@) == commands_view(st.commands@)
    &&& match (if st.has_repo { self_describe_index(commands_view(st.commands@)) } else { None }) {
        Some(k) => r.0.stage == ProbeStage::AwaitingSelfDescribe && match r.1 {
            ProbeStep::Run(args) => args_view(args@) == seq![commands_view(st.commands@)[k].0],
            _ => false,
        },
        None => r.0.stage == ProbeStage::Finished && match r.1 {
            ProbeStep::Done(rep) => reports_known(rep, st, DiscoveryMethod::HelpTextHeuristic, false),
            _ => false,
        },
    }
}

/// The probe of `binary` for `tool` starts by locating it.
pub fn probe_start(tool: &str, binary: &str, has_repo: bool) -> (r: (ProbeState, ProbeStep))
    ensures
        r.0.tool@ == tool@,
        r.0.binary@ == binary@,
        r.0.has_repo == has_repo,
        r.0.stage == ProbeStage::Locating,
        match r.1 {
            ProbeStep::Locate(b) => b@ == binary@,
            _ => false,
        },
{
    let st = ProbeState {
        tool: tool.to_string(),
        binary: binary.to_string(),
        has_repo,
        stage: ProbeStage::Locating,
        binary_path: String::new(),
        version: None,
        commands: Vec::new(),
    };
    (st, ProbeStep::Locate(binary.to_string()))
}

fn unavailable(tool: &String, binary: &String, reason: String) -> (r: ConnectorReport)
    ensures
        reports_unavailable(r, tool@, binary@, reason@),
{
    ConnectorReport {
        tool: copy_string(tool),
        binary: copy_string(binary),
        availability: Availability::Unavailable { reason },
    }
}

fn known(st: ProbeState, method: DiscoveryMethod, manifest: Option<serde_json::Value>) -> (r: ConnectorReport)
    ensures
        reports_known(r, st, method, manifest is Some),
{
    ConnectorReport {
        tool: st.tool,
        binary: st.binary,
        availability: Availability::Known(
            ConnectorDetails {
                binary_path: st.binary_path,
                version: st.version,
                commands: st.commands,
                discovery_method: method,
                capability_manifest: manifest,
            },
        ),
    }
}

/// The first self-description command among `cs`.
fn find_self_describe(cs: &Vec<DiscoveredCommand>) -> (r: Option<usize>)
    ensures
        match r {
            Some(k) => k < cs@.len() && self_describe_index(commands_view(cs@)) == Some(k as int),
            None => self_describe_index(commands_view(cs@)) is None,
        },
{
    let names: [&str; 4] = ["capabilities", "capability", "manifest", "describe"];
    let ghost nv = names@.map_values(|m: &str| m@);
    assert(nv =~= self_describe_names());
    let ghost cv = commands_view(cs@);
    let mut k: usize = 0;
    assert(cv.skip(0) =~= cv);
    while k < cs.len()
        invariant
            k <= cs@.len(),
            cv == commands_view(cs@),
            nv == self_describe_names(),
            names@.map_values(|m: &str| m@) == nv,
            self_describe_index(cv) == match self_describe_index(cv.skip(k as int)) {
                Some(j) => Some(j + k),
                None => None,
            },
        decreases cs@.len() - k,
    {
        assert(cv.skip(k as int)[0] == command_view(cs@[k as int]));
        assert(cv.skip(k as int).drop_first() =~= cv.skip(k + 1));
        let low = lowercase(cs[k].name.as_str());
        let mut found = false;
        let mut t: usize = 0;
        while t < 4
            invariant
                t <= 4,
                nv == names@.map_values(|m: &str| m@),
                found == (exists|u: int| 0 <= u < t && nv[u] == low@),
            decreases 4 - t,
        {
            if str_eq(low.as_str(), names[t]) {
                assert(nv[t as int] == names@[t as int]@);
                found = true;
            }
            proof {
                if !found {
                    assert forall|u: int| 0 <= u < t + 1 implies nv[u] != low@ by {
                        if u == t {
                            assert(nv[t as int] == names@[t as int]@);
                        }
                    }
                }
            }
            t = t + 1;
        }
        if found {
            proof {
                let u = choose|u: int| 0 <= u < 4 && nv[u] == low@;
                assert(self_describe_names()[u] == low@);
            }
            return Some(k);
        }
        k = k + 1;
    }
    None
}

/// After the version question is settled.
fn settle(st: ProbeState) -> (r: (ProbeState, ProbeStep))
    requires
        st.stage != ProbeStage::Finished,
    ensures
        settled(st, r),
{
    let pick = if st.has_repo {
        find_self_describe(&st.commands)
    } else {
        None
    };
    match pick {
        Some(k) => {
            let cmd = copy_string(&st.commands[k].name);
            assert(commands_view(st.commands@)[k as int] == command_view(st.commands@[k as int]));
            let mut args: Vec<String> = Vec::new();
            args.push(cmd);
            assert(args_view(args@) =~= seq![commands_view(st.commands@)[k as int].0]);
            let next = ProbeState { stage: ProbeStage::AwaitingSelfDescribe, ..st };
            (next, ProbeStep::Run(args))
        },
        None => {
            let ghost st0 = st;
            let tool = copy_string(&st.tool);
            let binary = copy_string(&st.binary);
            let has_repo = st.has_repo;
            let path = copy_string(&st.binary_path);
            let version = match &st.version {
                Some(v) => Some(copy_string(v)),
                None => None,
            };
            let commands = copy_commands(&st.commands);
            let rep = known(st, DiscoveryMethod::HelpTextHeuristic, None);
            let next = ProbeState {
                tool,
                binary,
                has_repo,
                stage: ProbeStage::Finished,
                binary_path: path,
                version,
                commands,
            };
            (next, ProbeStep::Done(rep))
        },
    }
}

fn copy_commands(cs: &Vec<DiscoveredCommand>) -> (r: Vec<DiscoveredCommand>)
    ensures
        commands_view(r@) == commands_view(cs@),
{
    let mut out: Vec<DiscoveredCommand> = Vec::new();
    let mut k: usize = 0;
    while k < cs.len()
        invariant
            k <= cs@.len(),
            commands_view(out@) == commands_view(cs@).take(k as int),
        decreases cs@.len() - k,
    {
        let d = match &cs[k].description {
            Some(x) => Some(copy_string(x)),
            None => None,
        };
        let c = DiscoveredCommand { name: copy_string(&cs[k].name), description: d };
        let ghost before = commands_view(out@);
        out.push(c);
        assert(commands_view(out@) =~= before.push(command_view(c)));
        assert(commands_view(cs@).take(k + 1) =~= commands_view(cs@).take(k as int).push(command_view(cs@[k as int])));
        k = k + 1;
    }
    assert(commands_view(cs@).take(k as int) =~= commands_view(cs@));
    out
}

/// One step of the probe: what the state becomes, and what to do next,
/// given the answer to the last step.
pub open spec fn probe_transition(st: ProbeState, e: ProbeEvent, r: (ProbeState, ProbeStep)) -> bool {
    match st.stage {
        ProbeStage::Locating => match e {
            ProbeEvent::Located(None) => r.0.stage == ProbeStage::Finished && match r.1 {
                ProbeStep::Done(rep) => reports_unavailable(
                    rep,
                    st.tool@,
                    st.binary@,
                    "no `"@ + st.binary@ + "` binary found on PATH"@,
                ),
                _ => false,
            },
            ProbeEvent::Located(Some(p)) => {
                &&& same_probe(r.0, st)
                &&& r.0.stage == ProbeStage::AwaitingHelp
                &&& r.0.binary_path@ == p@
                &&& opt_chars(r.0.version) is None
                &&& commands_view(r.0.commands@) == commands_view(st.commands@)
                &&& match r.1 {
                    ProbeStep::Run(args) => args_view(args@) == seq!["--help"@],
                    _ => false,
                }
            },
            _ => false,
        },
        ProbeStage::AwaitingHelp => match e {
            ProbeEvent::Ran(None) => r.0.stage == ProbeStage::Finished && match r.1 {
                ProbeStep::Done(rep) => reports_unavailable(
                    rep,
                    st.tool@,
                    st.binary@,
                    "`"@ + st.binary@ + " --help` did not return within 5s or failed to run"@,
                ),
                _ => false,
            },
            ProbeEvent::Ran(Some(o)) => match help_version(o.text@) {
                None => {
                    &&& same_probe(r.0, st)
                    &&& r.0.stage == ProbeStage::AwaitingVersion
                    &&& r.0.binary_path@ == st.binary_path@
                    &&& opt_chars(r.0.version) is None
                    &&& commands_view(r.0.commands@) == help_commands(o.text@)
                    &&& match r.1 {
                        ProbeStep::Run(args) => args_view(args@) == seq!["--version"@],
                        _ => false,
                    }
                },
                Some(v) => exists|mid: ProbeState|
                    {
                        &&& same_probe(mid, st)
                        &&& mid.stage == ProbeStage::AwaitingVersion
                        &&& mid.binary_path@ == st.binary_path@
                        &&& opt_chars(mid.version) == Some(v)
                        &&& commands_view(mid.commands@) == help_commands(o.text@)
                        &&& settled(mid, r)
                    },
            },
            _ => false,
        },
        ProbeStage::AwaitingVersion => match e {
            ProbeEvent::Ran(o) => exists|mid: ProbeState|
                {
                    &&& same_probe(mid, st)
                    &&& mid.stage == ProbeStage::AwaitingVersion
                    &&& mid.binary_path@ == st.binary_path@
                    &&& opt_chars(mid.version) == accepted_version(output_view(o))
                    &&& commands_view(mid.commands@) == commands_view(st.commands@)
                    &&& settled(mid, r)
                },
            _ => false,
        },
        ProbeStage::AwaitingSelfDescribe => match e {
            ProbeEvent::Ran(o) => r.0.stage == ProbeStage::Finished && match r.1 {
                ProbeStep::Done(rep) => reports_known(
                    rep,
                    st,
                    if manifest_accepted(o) {
                        DiscoveryMethod::JsonCapabilityManifest
                    } else {
                        DiscoveryMethod::HelpTextHeuristic
                    },
                    manifest_accepted(o),
                ),
                _ => false,
            },
            _ => false,
        },
        ProbeStage::Finished => false,
    }
}

/// The capability manifest a self-description run yields, if it is kept.
fn accept_manifest(o: Option<ProcessOutput>) -> (r: Option<serde_json::Value>)
    ensures
        (r is Some) == manifest_accepted(o),
{
    match o {
        Some(p) => {
            if !p.success {
                return None;
            }
            let chars = chars_of(p.text.as_str());
            assert(chars@.subrange(0, chars@.len() as int) =~= chars@);
            if range_utf8_len(&chars, 0, chars.len()) > 65536 {
                return None;
            }
            parse_json_value(p.text.as_str())
        },
        None => None,
    }
}

fn finished(st: &ProbeState) -> (r: ProbeState)
    ensures
        same_probe(r, *st),
        r.stage == ProbeStage::Finished,
{
    ProbeState {
        tool: copy_string(&st.tool),
        binary: copy_string(&st.binary),
        has_repo: st.has_repo,
        stage: ProbeStage::Finished,
        binary_path: String::new(),
        version: None,
        commands: Vec::new(),
    }
}

/// Advances a probe by the answer to its last step.
pub fn probe_advance(st: ProbeState, e: ProbeEvent) -> (r: (ProbeState, ProbeStep))
    requires
        event_fits(st.stage, e),
    ensures
        probe_transition(st, e, r),
{
    let ghost st0 = st;
    match st.stage {
        ProbeStage::Locating => match e {
            ProbeEvent::Located(None) => {
                let mut reason: Vec<char> = Vec::new();
                push_str_chars(&mut reason, "no `");
                push_str_chars(&mut reason, st.binary.as_str());
                push_str_chars(&mut reason, "` binary found on PATH");
                let rep = unavailable(&st.tool, &st.binary, string_from_chars(&reason));
                (finished(&st), ProbeStep::Done(rep))
            },
            ProbeEvent::Located(Some(p)) => {
                let mut args: Vec<String> = Vec::new();
                args.push("--help".to_string());
                assert(args_view(args@) =~= seq!["--help"@]);
                let next = ProbeState { stage: ProbeStage::AwaitingHelp, binary_path: p, version: None, ..st };
                (next, ProbeStep::Run(args))
            },
            ProbeEvent::Ran(_) => {
                assert(false);
                (finished(&st), ProbeStep::Locate(String::new()))
            },
        },
        ProbeStage::AwaitingHelp => match e {
            ProbeEvent::Ran(None) => {
                let mut reason: Vec<char> = Vec::new();
                push_str_chars(&mut reason, "`");
                push_str_chars(&mut reason, st.binary.as_str());
                push_str_chars(&mut reason, " --help` did not return within 5s or failed to run");
                let rep = unavailable(&st.tool, &st.binary, string_from_chars(&reason));
                (finished(&st), ProbeStep::Done(rep))
            },
            ProbeEvent::Ran(Some(o)) => {
                let (version, commands) = parse_help_text(o.text.as_str());
                assert(commands_view(commands@) =~= help_commands(o.text@));
                match version {
                    None => {
                        let mut args: Vec<String> = Vec::new();
                        args.push("--version".to_string());
                        assert(args_view(args@) =~= seq!["--version"@]);
                        let next = ProbeState {
                            stage: ProbeStage::AwaitingVersion,
                            version: None,
                            commands,
                            ..st
                        };
                        (next, ProbeStep::Run(args))
                    },
                    Some(v) => {
                        let mid = ProbeState {
                            stage: ProbeStage::AwaitingVersion,
                            version: Some(v),
                            commands,
                            ..st
                        };
                        let ghost m = mid;
                        let r = settle(mid);
                        assert(settled(m, r));
                        r
                    },
                }
            },
            ProbeEvent::Located(_) => {
                assert(false);
                (finished(&st), ProbeStep::Locate(String::new()))
            },
        },
        ProbeStage::AwaitingVersion => match e {
            ProbeEvent::Ran(o) => {
                let version = accept_version_output(o);
                let mid = ProbeState { stage: ProbeStage::AwaitingVersion, version, ..st };
                let ghost m = mid;
                let r = settle(mid);
                assert(settled(m, r));
                r
            },
            ProbeEvent::Located(_) => {
                assert(false);
                (finished(&st), ProbeStep::Locate(String::new()))
            },
        },
        ProbeStage::AwaitingSelfDescribe => match e {
            ProbeEvent::Ran(o) => {
                let ghost accepted = manifest_accepted(o);
                let manifest = accept_manifest(o);
                let method = if manifest.is_some() {
                    DiscoveryMethod::JsonCapabilityManifest
                } else {
                    DiscoveryMethod::HelpTextHeuristic
                };
                let next = finished(&st);
                let rep = known(st, method, manifest);
                (next, ProbeStep::Done(rep))
            },
            ProbeEvent::Located(_) => {
                assert(false);
                (finished(&st), ProbeStep::Locate(String::new()))
            },
        },
        ProbeStage::Finished => {
            assert(false);
            (finished(&st), ProbeStep::Locate(String::new()))
        },
    }
}

/// The names of `xs` in order, each kept at its first occurrence.
pub open spec fn first_occurrences(xs: Seq<Seq<char>>) -> Seq<Seq<char>>
    decreases xs.len(),
{
    if xs.len() == 0 {
        seq![]
    } else if xs.drop_last().contains(xs.last()) {
        first_occurrences(xs.drop_last())
    } else {
        first_occurrences(xs.drop_last()).push(xs.last())
    }
}

proof fn lemma_first_occurrences_members(xs: Seq<Seq<char>>)
    ensures
        forall|x: Seq<char>| first_occurrences(xs).contains(x) <==> xs.contains(x),
    decreases xs.len(),
{
    if xs.len() > 0 {
        lemma_first_occurrences_members(xs.drop_last());
        assert forall|x: Seq<char>| first_occurrences(xs).contains(x) <==> xs.contains(x) by {
            if xs.contains(x) {
                let i = choose|i: int| 0 <= i < xs.len() && xs[i] == x;
                if i < xs.len() - 1 {
                    assert(xs.drop_last()[i] == x);
                }
            }
            if xs.drop_last().contains(x) {
                let i = choose|i: int| 0 <= i < xs.drop_last().len() && xs.drop_last()[i] == x;
                assert(xs[i] == x);
            }
            if first_occurrences(xs.drop_last()).push(xs.last()).contains(x) && x != xs.last() {
                let i = choose|i: int|
                    0 <= i < first_occurrences(xs.drop_last()).push(xs.last()).len() && first_occurrences(
                        xs.drop_last(),
                    ).push(xs.last())[i] == x;
                assert(first_occurrences(xs.drop_last())[i] == x);
            }
            if first_occurrences(xs.drop_last()).contains(x) {
                let i = choose|i: int| 0 <= i < first_occurrences(xs.drop_last()).len() && first_occurrences(xs.drop_last())[i] == x;
                assert(first_occurrences(xs.drop_last()).push(xs.last())[i] == x);
            }
            if x == xs.last() {
                assert(xs[xs.len() - 1] == x);
                assert(first_occurrences(xs.drop_last()).push(xs.last())[first_occurrences(xs.drop_last()).len() as int] == x);
            }
        }
    }
}

/// Candidate binary names in order, duplicates dropped (the first
/// occurrence stays).
pub fn distinct_candidates(candidates: &Vec<String>) -> (r: Vec<String>)
    ensures
        strings_view(r@) == first_occurrences(strings_view(candidates@)),
{
    let ghost cv = strings_view(candidates@);
    let mut out: Vec<String> = Vec::new();
    let mut k: usize = 0;
    while k < candidates.len()
        invariant
            k <= candidates@.len(),
            cv == strings_view(candidates@),
            strings_view(out@) == first_occurrences(cv.take(k as int)),
        decreases candidates@.len() - k,
    {
        let ghost pre = cv.take(k as int);
        assert(cv.take(k + 1).drop_last() =~= pre);
        assert(cv.take(k + 1).last() == candidates@[k as int]@);
        proof {
            lemma_first_occurrences_members(pre);
        }
        if !contains_string(&out, candidates[k].as_str()) {
            let ghost before = strings_view(out@);
            out.push(copy_string(&candidates[k]));
            assert(strings_view(out@) =~= before.push(candidates@[k as int]@));
        }
        k = k + 1;
    }
    assert(cv.take(k as int) =~= cv);
    out
}

/// The outcome of probing every candidate: the reports of the binaries
/// found, or, when none was, a single report saying what was tried.
pub fn finish_candidates(tool: &str, tried: &Vec<String>, found: Vec<ConnectorReport>) -> (r: Vec<ConnectorReport>)
    ensures
        found@.len() > 0 ==> r@ == found@,
        found@.len() == 0 ==> r@.len() == 1 && reports_unavailable(
            r@[0],
            tool@,
            tool@,
            "no matching binary found on PATH (tried: "@ + join(strings_view(tried@), ", "@) + ")"@,
        ),
{
    if found.len() > 0 {
        return found;
    }
    let mut reason: Vec<char> = Vec::new();
    push_str_chars(&mut reason, "no matching binary found on PATH (tried: ");
    let ghost r0 = reason@;
    let ghost tv = strings_view(tried@);
    let mut k: usize = 0;
    while k < tried.len()
        invariant
            k <= tried@.len(),
            tv == strings_view(tried@),
            reason@ == r0 + join(tv.take(k as int), ", "@),
        decreases tried@.len() - k,
    {
        proof {
            lemma_join_push(tv.take(k as int), tv[k as int], ", "@);
            assert(tv.take(k + 1) =~= tv.take(k as int).push(tv[k as int]));
        }
        if k > 0 {
            push_str_chars(&mut reason, ", ");
        }
        push_str_chars(&mut reason, tried[k].as_str());
        k = k + 1;
    }
    assert(tv.take(k as int) =~= tv);
    push_str_chars(&mut reason, ")");
    let rep = ConnectorReport {
        tool: tool.to_string(),
        binary: tool.to_string(),
        availability: Availability::Unavailable { reason: string_from_chars(&reason) },
    };
    let mut out: Vec<ConnectorReport> = Vec::new();
    out.push(rep);
    out
}

/// No report found a binary.
pub open spec fn all_unavailable(rs: Seq<ConnectorReport>) -> bool {
    forall|i: int| 0 <= i < rs.len() ==> (#[trigger] rs[i]).availability is Unavailable
}

/// Whether a tool whose binaries were probed should be installed on
/// demand now: none was found, installing is allowed in this run, and the
/// tool's `.orb` marks it installable.
pub fn should_install(reports: &Vec<ConnectorReport>, allow_install: bool, installable: bool) -> (r: bool)
    ensures
        r == (all_unavailable(reports@) && allow_install && installable),
{
    if !(allow_install && installable) {
        return false;
    }
    let mut k: usize = 0;
    while k < reports.len()
        invariant
            k <= reports@.len(),
            forall|i: int| 0 <= i < k ==> (#[trigger] reports@[i]).availability is Unavailable,
        decreases reports@.len() - k,
    {
        match &reports[k].availability {
            Availability::Unavailable { .. } => {},
            _ => {
                return false;
            },
        }
        k = k + 1;
    }
    true
}

/// The binary an on-demand install targets: the first candidate, or the
/// repository name when there is none.
pub fn primary_binary(candidates: &Vec<String>, repo_name: &str) -> (r: String)
    ensures
        r@ == if candidates@.len() > 0 {
            candidates@[0]@
        } else {
            repo_name@
        },
{
    if candidates.len() > 0 {
        copy_string(&candidates[0])
    } else {
        repo_name.to_string()
    }
}

/// The report for a tool whose on-demand install failed with `error`.
pub fn install_failed_report(tool: &str, binary: String, error: &str) -> (r: ConnectorReport)
    ensures
        reports_unavailable(r, tool@, binary@, "not installed, and on-demand install failed: "@ + error@),
{
    let mut reason: Vec<char> = Vec::new();
    push_str_chars(&mut reason, "not installed, and on-demand install failed: ");
    push_str_chars(&mut reason, error);
    ConnectorReport {
        tool: tool.to_string(),
        binary,
        availability: Availability::Unavailable { reason: string_from_chars(&reason) },
    }
}

} // verus!
