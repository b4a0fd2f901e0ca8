use flagpick::adapters::ProbePlan;
use flagpick::cache::CacheError;
use flagpick::discovery::{
    check_command, check_probe_output, decide_probe, document_from_probe, executable_from_buffer, help_text, label_document,
    parse_target, probe_plan, probe_skipped, sanitize_help, CacheState, DiscoveryError,
    PARSER_VERSION,
};
use flagpick::parser::{GenericHelpError, GenericHelpParser};
use flagpick::probe::{CapturedOutput, ProbeError};
use flagpick::schema::{Confidence, HelpSource};

fn words(values: &[&str]) -> Vec<String> {
    values.iter().map(|value| (*value).to_owned()).collect()
}

fn invocation_message(error: DiscoveryError) -> String {
    match error {
        DiscoveryError::InvalidInvocation(message) => message,
        other => panic!("unexpected error {other:?}"),
    }
}

#[test]
fn cache_states_have_stable_names() {
    assert_eq!(CacheState::Hit.as_str(), "hit");
    assert_eq!(CacheState::Miss.as_str(), "miss");
    assert_eq!(CacheState::Skipped.as_str(), "skipped");
    assert_eq!(CacheState::Unavailable.as_str(), "unavailable");
}

#[test]
fn commands_must_be_safe_tokens() {
    assert!(matches!(check_command(&[]), Err(DiscoveryError::InvalidCommand)));
    assert!(check_command(&words(&["git", "commit"])).is_ok());
    for bad in [" git", "git ", "", "a;b", "a|b", "a&b", "a<b", "a>b", "'a'", "\"a\"", "`a`", "a\u{7}"] {
        assert_eq!(
            invocation_message(check_command(&words(&["git", bad])).unwrap_err()),
            "command and subcommand names must be nonempty safe tokens"
        );
    }
}

#[test]
fn one_word_commands_fall_back_to_generic_help() {
    let found = probe_plan(&words(&["ls"])).unwrap();
    assert_eq!(
        found,
        ProbePlan {
            argv: words(&["--help"]),
            parser: PARSER_VERSION,
            source: HelpSource::GenericHelp,
            confidence: Confidence::Medium,
            command_path: words(&["ls"]),
        }
    );
    assert_eq!(probe_plan(&words(&["git", "commit"])).unwrap().parser, "git-help-v1");
    assert_eq!(
        invocation_message(probe_plan(&words(&["git", "status"])).unwrap_err()),
        "unsupported command path; only registered adapters accept subcommands"
    );
}

#[test]
fn skipped_probes_name_the_whole_command() {
    let error = probe_skipped(&words(&["git", "commit"]));
    assert!(matches!(&error, DiscoveryError::ProbeSkipped { command } if command == "git commit"));
    assert_eq!(
        error.message(),
        "no cached schema for git commit; remove --no-exec-probe to discover it"
    );
}

#[test]
fn the_buffer_names_its_first_word() {
    assert_eq!(executable_from_buffer("  git commit -m x").unwrap(), "git");
    assert!(matches!(executable_from_buffer(" \t "), Err(DiscoveryError::InvalidCommand)));
    assert_eq!(
        invocation_message(executable_from_buffer("'git' commit").unwrap_err()),
        "shell quoting and operators are not accepted for discovery"
    );
    assert_eq!(executable_from_buffer("ls 'quoted later'").unwrap(), "ls");
}

#[test]
fn probe_output_is_used_only_when_complete() {
    assert!(check_probe_output(PARSER_VERSION, false, false, false, Some(2)).is_ok());
    assert!(check_probe_output("git-help-v1", false, false, false, Some(0)).is_ok());
    assert_eq!(
        invocation_message(check_probe_output(PARSER_VERSION, true, false, false, Some(0)).unwrap_err()),
        "probe timed out; no schema was cached"
    );
    assert_eq!(
        invocation_message(check_probe_output(PARSER_VERSION, false, false, true, Some(0)).unwrap_err()),
        "probe output exceeded its safety bound; no schema was cached"
    );
    assert_eq!(
        invocation_message(check_probe_output("git-help-v1", false, false, false, Some(-3)).unwrap_err()),
        format!("git-help-v1 adapter probe exited with status {:?}; no schema was cached", Some(-3))
    );
    assert_eq!(
        invocation_message(check_probe_output("curl-help-v1", false, false, false, None).unwrap_err()),
        "curl-help-v1 adapter probe exited with status None; no schema was cached"
    );
}

#[test]
fn help_text_drops_controls_but_keeps_layout() {
    assert_eq!(sanitize_help(b"a\x1b[1mb\tc\r\nd\x7f"), "a[1mb\tc\r\nd");
    assert_eq!(sanitize_help(b"caf\xc3\xa9 \xff!"), "caf\u{e9} \u{fffd}!");
    assert_eq!(help_text(b"", b"from stderr"), "from stderr");
    assert_eq!(help_text(b"from stdout", b"from stderr"), "from stdout");
}

#[test]
fn adapter_documents_nest_the_subcommand() {
    let plan = probe_plan(&words(&["git", "commit"])).unwrap();
    let target = parse_target(&plan, "git");
    assert_eq!(target, "commit");
    let report = GenericHelpParser::parse(target.as_str(), "Options:\n  -m, --message <MSG>  Message\n").unwrap();
    let document = label_document(report.document, "/usr/bin/git".to_owned(), &plan);
    let root = &document.root;
    assert_eq!(root.name, "git");
    assert_eq!(root.executable.name, "git");
    assert_eq!(root.executable.path.as_deref(), Some("/usr/bin/git"));
    assert!(root.options.is_empty());
    assert_eq!(root.subcommands.len(), 1);
    assert_eq!(root.subcommands[0].name, "commit");
    let child = &root.subcommands[0].command;
    assert_eq!(child.name, "commit");
    assert_eq!(child.options.len(), 1);
    assert_eq!(child.metadata.parser.as_deref(), Some("git-help-v1"));
    assert_eq!(child.metadata.source, HelpSource::FrameworkHelp);
    assert_eq!(child.metadata.confidence, Confidence::High);
    assert_eq!(root.metadata.parser.as_deref(), Some("git-help-v1"));
    assert!(document.validate().is_ok());
}

#[test]
fn generic_documents_are_labelled_in_place() {
    let plan = probe_plan(&words(&["ls"])).unwrap();
    let report = GenericHelpParser::parse("ls", "-a  All\n").unwrap();
    let document = label_document(report.document, "/bin/ls".to_owned(), &plan);
    assert_eq!(document.root.name, "ls");
    assert_eq!(document.root.options.len(), 1);
    assert!(document.root.subcommands.is_empty());
    assert_eq!(document.root.executable.path.as_deref(), Some("/bin/ls"));
    assert_eq!(document.root.metadata.parser.as_deref(), Some(PARSER_VERSION));
}

#[test]
fn discovery_errors_describe_themselves() {
    assert_eq!(DiscoveryError::InvalidCommand.message(), "an executable command is required");
    assert_eq!(
        DiscoveryError::UnavailableCommand("nope".into()).message(),
        "command is unavailable: nope"
    );
    assert_eq!(
        DiscoveryError::Cache(CacheError::RecordTooLarge).message(),
        "cache failure: cache record exceeds the safety limit"
    );
    assert_eq!(
        DiscoveryError::Probe(ProbeError::ExecutionDisabled).message(),
        "probe failed: probe execution is disabled"
    );
    assert_eq!(
        DiscoveryError::from_parse_error(&GenericHelpError::EmptyExecutable).message(),
        "help output could not be parsed: EmptyExecutable"
    );
    assert_eq!(
        DiscoveryError::Validation("x".into()).message(),
        "discovered schema is invalid: x"
    );
}

fn captured(bytes: &[u8]) -> CapturedOutput {
    CapturedOutput { bytes: bytes.to_vec(), total_bytes: bytes.len() as u64, truncated: false }
}

#[test]
fn probing_runs_only_when_enabled() {
    assert!(decide_probe(true, &words(&["ls"])).is_ok());
    assert!(matches!(
        decide_probe(false, &words(&["git", "commit"])),
        Err(DiscoveryError::ProbeSkipped { command }) if command == "git commit"
    ));
}

#[test]
fn probe_output_becomes_a_labelled_valid_document() {
    let plan = probe_plan(&words(&["ls"])).unwrap();
    let report = document_from_probe(
        &plan,
        "ls",
        "/bin/ls".to_owned(),
        false,
        &captured(b""),
        &captured(b"Options:\n  -a, --all  Show all\n"),
        Some(2),
    )
    .unwrap();
    assert_eq!(report.document.root.name, "ls");
    assert_eq!(report.document.root.options.len(), 1);
    assert_eq!(report.document.root.executable.path.as_deref(), Some("/bin/ls"));
    assert!(report.warnings.is_empty());
}

#[test]
fn unusable_or_invalid_probe_output_is_refused() {
    let plan = probe_plan(&words(&["ls"])).unwrap();
    let timed_out = document_from_probe(&plan, "ls", "/bin/ls".to_owned(), true, &captured(b"-a  All"), &captured(b""), None);
    assert_eq!(invocation_message(timed_out.unwrap_err()), "probe timed out; no schema was cached");
    let invalid = document_from_probe(
        &plan,
        "ls",
        "/bin/ls".to_owned(),
        false,
        &captured("-\u{e9}  accent\n".as_bytes()),
        &captured(b""),
        Some(0),
    );
    match invalid {
        Err(DiscoveryError::Validation(message)) => assert!(message.starts_with("$.root.options[0]")),
        other => panic!("unexpected result {other:?}"),
    }
    let adapter = probe_plan(&words(&["git", "commit"])).unwrap();
    let failed = document_from_probe(&adapter, "git", "/usr/bin/git".to_owned(), false, &captured(b"x"), &captured(b""), Some(129));
    assert_eq!(
        invocation_message(failed.unwrap_err()),
        "git-help-v1 adapter probe exited with status Some(129); no schema was cached"
    );
}

#[test]
fn probes_report_a_miss_only_when_a_cache_exists() {
    assert_eq!(CacheState::after_probe(true), CacheState::Miss);
    assert_eq!(CacheState::after_probe(false), CacheState::Unavailable);
}
