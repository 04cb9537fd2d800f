use orbweaver::probe::{accept_version_output, parse_help_text, strip_ansi};
use orbweaver::process::ProcessOutput;

#[test]
fn parses_plain_clap_default_help_text() {
    let text = "\
Deckhand keeps build artifacts clean.

Usage: deckhand [OPTIONS] <COMMAND>

Commands:
  clean   Run cargo clean across the workspace
  status  Report workspace sea-state (disk usage)
  help    Print this message or the help of the given subcommand(s)

Options:
  -h, --help  Print help
";
    let (version, commands) = parse_help_text(text);
    assert_eq!(version, None);
    assert_eq!(commands.len(), 3);
    assert_eq!(commands[0].name, "clean");
    assert_eq!(commands[0].description.as_deref(), Some("Run cargo clean across the workspace"));
}

#[test]
fn parses_hand_styled_help_with_ansi_and_version_line() {
    let text = "\u{1b}[1mPADAGONIA\u{1b}[0m\n\nVERSION    0.1.60\n\n\u{1b}[1mCOMMANDS:\u{1b}[0m\n    \u{1b}[36mingest  \u{1b}[0m Generate a synthetic graph\n    \u{1b}[36mbfs     \u{1b}[0m Run a breadth-first search\n\n\u{1b}[1mGLOBAL OPTIONS:\u{1b}[0m\n    -h, --help  Print this help message\n";
    let (version, commands) = parse_help_text(text);
    assert_eq!(version.as_deref(), Some("0.1.60"));
    assert_eq!(commands.len(), 2);
    assert_eq!(commands[0].name, "ingest");
    assert_eq!(commands[0].description.as_deref(), Some("Generate a synthetic graph"));
    assert_eq!(commands[1].name, "bfs");
}

#[test]
fn rejects_error_output_from_a_failed_version_flag() {
    let error_text = "error: unexpected argument '--version' found\n\n  tip: a similar argument exists: '--verbose'\n\nUsage: cambrian --repository <REPOSITORY> --verbose\n\nFor more information, try '--help'.".to_string();
    let failed = ProcessOutput {
        success: false,
        text: error_text,
    };
    assert_eq!(accept_version_output(Some(failed)), None);

    let real = ProcessOutput {
        success: true,
        text: "deckhand 0.21.37\n".to_string(),
    };
    assert_eq!(accept_version_output(Some(real)), Some("deckhand 0.21.37".to_string()));

    assert_eq!(accept_version_output(None), None);
}

#[test]
fn strip_ansi_drops_escape_sequences() {
    assert_eq!(strip_ansi("\u{1b}[1mBOLD\u{1b}[0m text"), "BOLD text");
    assert_eq!(strip_ansi("plain"), "plain");
}

use orbweaver::model::Availability;
use orbweaver::probe::{
    distinct_candidates, finish_candidates, probe_advance, probe_start, should_install, DiscoveryMethod,
    ProbeEvent, ProbeStage, ProbeStep, install_failed_report, primary_binary,
};

fn run_args(step: &ProbeStep) -> Vec<String> {
    match step {
        ProbeStep::Run(args) => args.clone(),
        _ => panic!("expected a run step"),
    }
}

#[test]
fn missing_binary_is_unavailable_with_reason_not_empty_capabilities() {
    let (st, step) = probe_start("nonexistent-tool-xyz", "nonexistent-tool-xyz", false);
    assert!(matches!(step, ProbeStep::Locate(ref b) if b == "nonexistent-tool-xyz"));
    let (_, step) = probe_advance(st, ProbeEvent::Located(None));
    match step {
        ProbeStep::Done(report) => match report.availability {
            Availability::Unavailable { reason } => assert!(reason.contains("PATH")),
            _ => panic!("expected Unavailable"),
        },
        _ => panic!("expected the probe to finish"),
    }
}

#[test]
fn probe_candidates_tries_every_match_and_reports_one_line_when_none_found() {
    let candidates = vec!["nonexistent-a".to_string(), "nonexistent-b".to_string(), "nonexistent-a".to_string()];
    let ordered = distinct_candidates(&candidates);
    assert_eq!(ordered, vec!["nonexistent-a".to_string(), "nonexistent-b".to_string()]);
    let reports = finish_candidates("ghost-tool", &ordered, Vec::new());
    assert_eq!(reports.len(), 1);
    match &reports[0].availability {
        Availability::Unavailable { reason } => {
            assert_eq!(reason, "no matching binary found on PATH (tried: nonexistent-a, nonexistent-b)");
        }
        _ => panic!("expected Unavailable"),
    }
}

#[test]
fn probe_walks_help_then_version_then_self_description() {
    let (st, _) = probe_start("widget", "widget", true);
    let (st, step) = probe_advance(st, ProbeEvent::Located(Some("/usr/bin/widget".to_string())));
    assert_eq!(run_args(&step), vec!["--help".to_string()]);
    assert_eq!(st.stage, ProbeStage::AwaitingHelp);
    let help = "Usage: widget <COMMAND>\n\nCommands:\n  build         Build it\n  Capabilities  Describe this tool\n";
    let (st, step) = probe_advance(st, ProbeEvent::Ran(Some(ProcessOutput { success: true, text: help.to_string() })));
    assert_eq!(run_args(&step), vec!["--version".to_string()]);
    let (st, step) = probe_advance(st, ProbeEvent::Ran(Some(ProcessOutput { success: true, text: "widget 1.2.3\n".to_string() })));
    assert_eq!(run_args(&step), vec!["Capabilities".to_string()]);
    let manifest = "{\"capabilities\": [\"build\"]}";
    let (st, step) = probe_advance(st, ProbeEvent::Ran(Some(ProcessOutput { success: true, text: manifest.to_string() })));
    assert_eq!(st.stage, ProbeStage::Finished);
    match step {
        ProbeStep::Done(report) => match report.availability {
            Availability::Known(d) => {
                assert_eq!(d.binary_path, "/usr/bin/widget");
                assert_eq!(d.version.as_deref(), Some("widget 1.2.3"));
                assert_eq!(d.commands.len(), 2);
                assert_eq!(d.discovery_method, DiscoveryMethod::JsonCapabilityManifest);
                assert!(d.capability_manifest.is_some());
            }
            _ => panic!("expected Known"),
        },
        _ => panic!("expected the probe to finish"),
    }
}

#[test]
fn self_description_that_is_not_json_falls_back_to_help_text() {
    let (st, _) = probe_start("widget", "widget", true);
    let (st, _) = probe_advance(st, ProbeEvent::Located(Some("/bin/widget".to_string())));
    let help = "VERSION 2.0\n\nCommands:\n  describe  Describe\n";
    let (st, step) = probe_advance(st, ProbeEvent::Ran(Some(ProcessOutput { success: true, text: help.to_string() })));
    assert_eq!(run_args(&step), vec!["describe".to_string()]);
    let (_, step) = probe_advance(st, ProbeEvent::Ran(Some(ProcessOutput { success: true, text: "not json".to_string() })));
    match step {
        ProbeStep::Done(report) => match report.availability {
            Availability::Known(d) => {
                assert_eq!(d.version.as_deref(), Some("2.0"));
                assert_eq!(d.discovery_method, DiscoveryMethod::HelpTextHeuristic);
                assert!(d.capability_manifest.is_none());
            }
            _ => panic!("expected Known"),
        },
        _ => panic!("expected the probe to finish"),
    }
}

#[test]
fn probe_outside_a_repository_never_runs_self_description() {
    let (st, _) = probe_start("widget", "widget", false);
    let (st, _) = probe_advance(st, ProbeEvent::Located(Some("/bin/widget".to_string())));
    let help = "VERSION 2.0\n\nCommands:\n  describe  Describe\n";
    let (_, step) = probe_advance(st, ProbeEvent::Ran(Some(ProcessOutput { success: true, text: help.to_string() })));
    assert!(matches!(step, ProbeStep::Done(_)));
}

#[test]
fn help_that_times_out_is_unavailable() {
    let (st, _) = probe_start("widget", "widget", false);
    let (st, _) = probe_advance(st, ProbeEvent::Located(Some("/bin/widget".to_string())));
    let (_, step) = probe_advance(st, ProbeEvent::Ran(None));
    match step {
        ProbeStep::Done(report) => match report.availability {
            Availability::Unavailable { reason } => {
                assert_eq!(reason, "`widget --help` did not return within 5s or failed to run")
            }
            _ => panic!("expected Unavailable"),
        },
        _ => panic!("expected the probe to finish"),
    }
}

#[test]
fn install_decisions() {
    let none = finish_candidates("t", &vec!["t".to_string()], Vec::new());
    assert!(should_install(&none, true, true));
    assert!(!should_install(&none, false, true));
    assert!(!should_install(&none, true, false));
    assert_eq!(primary_binary(&vec!["a".to_string(), "b".to_string()], "repo"), "a");
    assert_eq!(primary_binary(&Vec::new(), "repo"), "repo");
    let failed = install_failed_report("t", "t".to_string(), "boom");
    match failed.availability {
        Availability::Unavailable { reason } => assert_eq!(reason, "not installed, and on-demand install failed: boom"),
        _ => panic!("expected Unavailable"),
    }
}
