//! The decisions of command discovery: which commands may be probed and how,
//! whether a probe's output may be used, how help bytes become text, and how
//! the parsed document is labelled. Resolving executables, the cache files
//! and running the probe are left to callers.
use vstd::prelude::*;
use vstd::utf8::{decode_utf8, valid_utf8};
use crate::adapters::{self, path_file_name, plan_for, plan_result, plan_view, strings_view, PlanModel, ProbePlan};
use crate::cache::CacheError;
use crate::parser::{is_blank, report_matches, GenericHelpError, GenericHelpParser, ParseReport, MAX_HELP_BYTES};
use crate::probe::CapturedOutput;
use crate::schema::validation::{document_errors, validation_result};
use crate::text::utf8_bytes;
use crate::schema::validation::{errors_text, errors_view, ValidationErrors};
use crate::probe::ProbeError;
use crate::scan::{skip_ws, trim, trim_chars, words, words_exec};
use crate::schema::{CommandSpec, Confidence, ExecutableIdentity, HelpSource, SchemaDocument, SpecMetadata, SubcommandSpec};
use crate::text::{chars_eq, chars_of, char_is_control, decimal, is_control_char, push_char, push_decimal};

verus! {

/// The parser label of the generic help parser.
pub const PARSER_VERSION: &'static str = "generic-gnu-help-v1";

#[derive(Debug)]
pub enum DiscoveryError {
    InvalidCommand,
    InvalidInvocation(String),
    UnavailableCommand(String),
    Cache(CacheError),
    Probe(ProbeError),
    Parse(String),
    Validation(String),
    ProbeSkipped { command: String },
}

/// What a probe reported, for diagnostics.
#[derive(Clone, Debug)]
pub struct ProbeDiagnostics {
    pub source: &'static str,
    pub duration_ms: u128,
    pub code: Option<i32>,
    pub signal: Option<i32>,
    pub stdout_bytes: u64,
    pub stdout_truncated: bool,
    pub stderr_bytes: u64,
    pub stderr_truncated: bool,
}

/// Where a discovered schema came from, as far as the cache is concerned.
#[derive(Clone, Copy, Debug, PartialEq, Eq)]
pub enum CacheState {
    Hit,
    Miss,
    Skipped,
    Unavailable,
}

impl CacheState {
    pub fn as_str(self) -> (s: &'static str)
        ensures
            s@ == match self {
                CacheState::Hit => "hit"@,
                CacheState::Miss => "miss"@,
                CacheState::Skipped => "skipped"@,
                CacheState::Unavailable => "unavailable"@,
            },
    {
        match self {
            CacheState::Hit => "hit",
            CacheState::Miss => "miss",
            CacheState::Skipped => "skipped",
            CacheState::Unavailable => "unavailable",
        }
    }
}

impl CacheState {
    /// The state reported after a probe: a miss when a cache was consulted,
    /// and unavailable when there was none to consult.
    pub fn after_probe(cache_available: bool) -> (s: CacheState)
        ensures
            s == if cache_available { CacheState::Miss } else { CacheState::Unavailable },
    {
        if cache_available {
            CacheState::Miss
        } else {
            CacheState::Unavailable
        }
    }
}

/// The characters that quote or chain shell commands.
pub open spec fn is_shell_char(c: char) -> bool {
    c == '\'' || c == '"' || c == '`' || c == ';' || c == '|' || c == '&' || c == '<' || c == '>'
}

fn shell_char(c: char) -> (r: bool)
    ensures
        r == is_shell_char(c),
{
    c == '\'' || c == '"' || c == '`' || c == ';' || c == '|' || c == '&' || c == '<' || c == '>'
}

/// No character of `t` is a control character or a shell character.
pub open spec fn free_of_shell_syntax(t: Seq<char>) -> bool {
    forall|i: int| 0 <= i < t.len() ==> !is_control_char(#[trigger] t[i]) && !is_shell_char(t[i])
}

fn check_free_of_shell_syntax(t: &Vec<char>) -> (r: bool)
    ensures
        r == free_of_shell_syntax(t@),
{
    let mut i: usize = 0;
    while i < t.len()
        invariant
            0 <= i <= t.len(),
            forall|k: int| 0 <= k < i ==> !is_control_char(#[trigger] t@[k]) && !is_shell_char(t@[k]),
        decreases t.len() - i,
    {
        if char_is_control(t[i]) || shell_char(t[i]) {
            return false;
        }
        i = i + 1;
    }
    true
}

/// A command word that may be passed on: nonempty, trimmed, and free of
/// control and shell characters.
pub open spec fn is_safe_token(t: Seq<char>) -> bool {
    t.len() > 0 && trim(t) == t && free_of_shell_syntax(t)
}

pub open spec fn unsafe_tokens_message() -> Seq<char> {
    "command and subcommand names must be nonempty safe tokens"@
}

/// Checks the words of a command to discover: there must be one, and every
/// word must be a safe token.
pub fn check_command(command: &[String]) -> (r: Result<(), DiscoveryError>)
    ensures
        command@.len() == 0 ==> r matches Err(DiscoveryError::InvalidCommand),
        command@.len() > 0 && (exists|i: int| 0 <= i < command@.len() && !is_safe_token(#[trigger] command@[i]@))
            ==> (r matches Err(DiscoveryError::InvalidInvocation(m)) && m@ == unsafe_tokens_message()),
        command@.len() > 0 && (forall|i: int| 0 <= i < command@.len() ==> is_safe_token(#[trigger] command@[i]@))
            ==> r is Ok,
{
    if command.len() == 0 {
        return Err(DiscoveryError::InvalidCommand);
    }
    let mut i: usize = 0;
    while i < command.len()
        invariant
            0 <= i <= command@.len(),
            forall|k: int| 0 <= k < i ==> is_safe_token(#[trigger] command@[k]@),
        decreases command@.len() - i,
    {
        let t = chars_of(command[i].as_str());
        let trimmed = trim_chars(&t);
        if t.len() == 0 || !chars_eq(&trimmed, &t) || !check_free_of_shell_syntax(&t) {
            proof {
                assert(!is_safe_token(command@[i as int]@));
            }
            return Err(DiscoveryError::InvalidInvocation(
                "command and subcommand names must be nonempty safe tokens".to_owned(),
            ));
        }
        i = i + 1;
    }
    Ok(())
}

/// The generic plan for a one-word command: `--help`, read by the generic parser.
pub open spec fn generic_plan(command: Seq<Seq<char>>) -> PlanModel {
    PlanModel {
        argv: seq!["--help"@],
        parser: PARSER_VERSION@,
        source: HelpSource::GenericHelp,
        confidence: Confidence::Medium,
        command_path: command,
    }
}

pub open spec fn unsupported_path_message() -> Seq<char> {
    "unsupported command path; only registered adapters accept subcommands"@
}

/// The probe plan for a command: a registered adapter's plan when one
/// handles it, else the generic plan for a one-word command; any other
/// command path is refused.
pub fn probe_plan(command: &[String]) -> (r: Result<ProbePlan, DiscoveryError>)
    ensures
        ({
            let adapter = if command@.len() > 0 {
                match path_file_name(command@[0]@) {
                    Some(executable) => plan_for(executable, strings_view(command@)),
                    None => None,
                }
            } else {
                None
            };
            match adapter {
                Some(p) => r matches Ok(x) && plan_view(x) == p,
                None => if command@.len() == 1 {
                    r matches Ok(x) && plan_view(x) == generic_plan(strings_view(command@))
                } else {
                    r matches Err(DiscoveryError::InvalidInvocation(m)) && m@ == unsupported_path_message()
                },
            }
        }),
{
    match adapters::plan(command) {
        Some(plan) => Ok(plan),
        None => {
            if command.len() == 1 {
                let mut argv: Vec<String> = Vec::new();
                argv.push("--help".to_owned());
                let mut command_path: Vec<String> = Vec::new();
                command_path.push(command[0].clone());
                proof {
                    assert(strings_view(argv@) =~= seq!["--help"@]);
                    assert(strings_view(command_path@) =~= strings_view(command@));
                }
                Ok(ProbePlan {
                    argv,
                    parser: PARSER_VERSION,
                    source: HelpSource::GenericHelp,
                    confidence: Confidence::Medium,
                    command_path,
                })
            } else {
                Err(DiscoveryError::InvalidInvocation(
                    "unsupported command path; only registered adapters accept subcommands".to_owned(),
                ))
            }
        },
    }
}

/// The words joined with single spaces.
pub open spec fn joined(words: Seq<Seq<char>>) -> Seq<char>
    decreases words.len(),
{
    if words.len() == 0 {
        Seq::empty()
    } else if words.len() == 1 {
        words[0]
    } else {
        joined(words.drop_last()) + seq![' '] + words.last()
    }
}

/// The error for a command that has no cached schema while probing is off;
/// it names the command, its words joined with spaces.
pub fn probe_skipped(command: &[String]) -> (e: DiscoveryError)
    ensures
        e matches DiscoveryError::ProbeSkipped { command: c } && c@ == joined(strings_view(command@)),
{
    let mut text = String::new();
    let mut i: usize = 0;
    while i < command.len()
        invariant
            0 <= i <= command@.len(),
            text@ == joined(strings_view(command@).take(i as int)),
        decreases command@.len() - i,
    {
        proof {
            let w = strings_view(command@);
            assert(w.take(i as int + 1).drop_last() =~= w.take(i as int));
        }
        if i > 0 {
            push_char(&mut text, ' ');
        }
        text.append(command[i].as_str());
        proof {
            let w = strings_view(command@);
            if i == 0 {
                assert(text@ =~= joined(w.take(1)));
            } else {
                assert(text@ =~= joined(w.take(i as int + 1)));
            }
        }
        i = i + 1;
    }
    proof {
        assert(strings_view(command@).take(command@.len() as int) =~= strings_view(command@));
    }
    DiscoveryError::ProbeSkipped { command: text }
}

pub open spec fn shell_syntax_message() -> Seq<char> {
    "shell quoting and operators are not accepted for discovery"@
}

/// The executable named by a shell buffer: its first whitespace-separated
/// word, refused when it holds control characters or shell quoting and
/// operators.
pub fn executable_from_buffer(buffer: &str) -> (r: Result<String, DiscoveryError>)
    ensures
        words(buffer@).len() == 0 ==> r matches Err(DiscoveryError::InvalidCommand),
        words(buffer@).len() > 0 && !free_of_shell_syntax(words(buffer@)[0])
            ==> (r matches Err(DiscoveryError::InvalidInvocation(m)) && m@ == shell_syntax_message()),
        words(buffer@).len() > 0 && free_of_shell_syntax(words(buffer@)[0])
            ==> (r matches Ok(token) && token@ == words(buffer@)[0]),
{
    let chars = chars_of(buffer);
    let ws = words_exec(&chars);
    if ws.len() == 0 {
        return Err(DiscoveryError::InvalidCommand);
    }
    assert(ws@[0]@ == words(buffer@)[0]);
    if !check_free_of_shell_syntax(&ws[0]) {
        return Err(DiscoveryError::InvalidInvocation(
            "shell quoting and operators are not accepted for discovery".to_owned(),
        ));
    }
    Ok(crate::scan::string_of(&ws[0]))
}

/// Decimal representation of a signed number.
pub open spec fn signed_decimal(n: int) -> Seq<char> {
    if n < 0 {
        seq!['-'] + decimal((-n) as nat)
    } else {
        decimal(n as nat)
    }
}

/// The debug text of an optional exit code: `None` or `Some(<n>)`.
pub open spec fn code_text(code: Option<i32>) -> Seq<char> {
    match code {
        Some(n) => "Some("@ + signed_decimal(n as int) + ")"@,
        None => "None"@,
    }
}

fn push_code_text(s: &mut String, code: Option<i32>)
    ensures
        final(s)@ == old(s)@ + code_text(code),
{
    match code {
        None => {
            s.append("None");
        },
        Some(n) => {
            s.append("Some(");
            let ghost mid = s@;
            if n < 0 {
                push_char(s, '-');
                let magnitude: i64 = 0i64 - (n as i64);
                let m = magnitude as usize;
                assert(m == -(n as int));
                push_decimal(s, m);
            } else {
                let m = n as usize;
                push_decimal(s, m);
            }
            let ghost digits = s@;
            s.append(")");
            proof {
                assert(digits == mid + signed_decimal(n as int));
                assert(s@ =~= old(s)@ + code_text(code));
            }
        },
    }
}

pub open spec fn timed_out_message() -> Seq<char> {
    "probe timed out; no schema was cached"@
}

pub open spec fn truncated_message() -> Seq<char> {
    "probe output exceeded its safety bound; no schema was cached"@
}

/// The message for an adapter probe that did not exit with status 0.
pub open spec fn adapter_status_message(parser: Seq<char>, code: Option<i32>) -> Seq<char> {
    parser + " adapter probe exited with status "@ + code_text(code) + "; no schema was cached"@
}

/// Why a finished probe's output may not be used, if it may not: a
/// timed-out or truncated probe is refused, and so is an adapter probe (any
/// parser but the generic one) that did not exit with status 0.
pub open spec fn probe_refusal(parser: Seq<char>, timed_out: bool, stdout_truncated: bool, stderr_truncated: bool, code: Option<i32>) -> Option<Seq<char>> {
    if timed_out {
        Some(timed_out_message())
    } else if stdout_truncated || stderr_truncated {
        Some(truncated_message())
    } else if parser != PARSER_VERSION@ && code != Some(0i32) {
        Some(adapter_status_message(parser, code))
    } else {
        None
    }
}

/// Whether a finished probe's output may be parsed (see `probe_refusal`).
pub fn check_probe_output(parser: &str, timed_out: bool, stdout_truncated: bool, stderr_truncated: bool, code: Option<i32>) -> (r: Result<(), DiscoveryError>)
    ensures
        match probe_refusal(parser@, timed_out, stdout_truncated, stderr_truncated, code) {
            Some(message) => r matches Err(DiscoveryError::InvalidInvocation(m)) && m@ == message,
            None => r is Ok,
        },
{
    if timed_out {
        return Err(DiscoveryError::InvalidInvocation("probe timed out; no schema was cached".to_owned()));
    }
    if stdout_truncated || stderr_truncated {
        return Err(DiscoveryError::InvalidInvocation(
            "probe output exceeded its safety bound; no schema was cached".to_owned(),
        ));
    }
    let generic = crate::text::str_eq(parser, PARSER_VERSION);
    let exited_cleanly = match code {
        Some(n) => n == 0,
        None => false,
    };
    if !generic && !exited_cleanly {
        let mut m = parser.to_owned();
        m.append(" adapter probe exited with status ");
        push_code_text(&mut m, code);
        m.append("; no schema was cached");
        return Err(DiscoveryError::InvalidInvocation(m));
    }
    Ok(())
}

/// Help text keeps every character but controls, except newline, carriage
/// return and tab.
pub open spec fn keeps_help_char(c: char) -> bool {
    !is_control_char(c) || c == '\n' || c == '\r' || c == '\t'
}

/// The kept characters among the first `n` of `s`.
pub open spec fn help_chars(s: Seq<char>, n: int) -> Seq<char>
    decreases n,
{
    if n <= 0 {
        Seq::empty()
    } else if keeps_help_char(s[n - 1]) {
        help_chars(s, n - 1).push(s[n - 1])
    } else {
        help_chars(s, n - 1)
    }
}

/// What `String::from_utf8_lossy` decodes `bytes` to.
pub uninterp spec fn utf8_lossy(bytes: Seq<u8>) -> Seq<char>;

/// `String::from_utf8_lossy`: the bytes decoded as UTF-8, with each invalid
/// sequence replaced by U+FFFD. The contract names the result, and states
/// what std documents of valid input: it is decoded as it stands.
#[verifier::external_body]
fn decode_lossy(bytes: &[u8]) -> (text: String)
    ensures
        text@ == utf8_lossy(bytes@),
        valid_utf8(bytes@) ==> text@ == decode_utf8(bytes@),
{
    String::from_utf8_lossy(bytes).into_owned()
}

/// Help output as text: decoded leniently, with control characters other
/// than line breaks and tabs removed.
pub fn sanitize_help(bytes: &[u8]) -> (text: String)
    ensures
        text@ == help_chars(utf8_lossy(bytes@), utf8_lossy(bytes@).len() as int),
        valid_utf8(bytes@) ==> text@ == help_chars(decode_utf8(bytes@), decode_utf8(bytes@).len() as int),
{
    let decoded = decode_lossy(bytes);
    let chars = chars_of(decoded.as_str());
    let mut text = String::new();
    let mut i: usize = 0;
    while i < chars.len()
        invariant
            chars@ == utf8_lossy(bytes@),
            0 <= i <= chars.len(),
            text@ == help_chars(chars@, i as int),
        decreases chars.len() - i,
    {
        let c = chars[i];
        if !char_is_control(c) || c == '\n' || c == '\r' || c == '\t' {
            push_char(&mut text, c);
        }
        i = i + 1;
    }
    text
}

/// The help text of a probe: its standard output, or its standard error when
/// nothing was written to standard output.
pub fn help_text(stdout: &[u8], stderr: &[u8]) -> (text: String)
    ensures
        stdout@.len() > 0 ==> text@ == help_chars(utf8_lossy(stdout@), utf8_lossy(stdout@).len() as int),
        stdout@.len() == 0 ==> text@ == help_chars(utf8_lossy(stderr@), utf8_lossy(stderr@).len() as int),
{
    if stdout.len() == 0 {
        sanitize_help(stderr)
    } else {
        sanitize_help(stdout)
    }
}

/// The name the help is parsed for: the last word of the plan's command
/// path, or `command_name` when the path is empty.
pub fn parse_target(plan: &ProbePlan, command_name: &str) -> (name: String)
    ensures
        plan.command_path@.len() > 0 ==> name@ == plan.command_path@.last()@,
        plan.command_path@.len() == 0 ==> name@ == command_name@,
{
    if plan.command_path.len() > 0 {
        plan.command_path[plan.command_path.len() - 1].clone()
    } else {
        command_name.to_owned()
    }
}

pub open spec fn opt_text(v: Option<String>) -> Option<Seq<char>> {
    match v {
        Some(s) => Some(s@),
        None => None,
    }
}

/// `root` labelled with the executable's path and the plan's parser, source
/// and confidence; everything else is kept.
pub open spec fn labelled(root: CommandSpec, result: CommandSpec, executable_path: Seq<char>, plan: PlanModel) -> bool {
    &&& result == CommandSpec {
        executable: ExecutableIdentity { path: result.executable.path, ..root.executable },
        metadata: SpecMetadata {
            parser: result.metadata.parser,
            source: plan.source,
            confidence: plan.confidence,
            ..root.metadata
        },
        ..root
    }
    &&& opt_text(result.executable.path) == Some(executable_path)
    &&& opt_text(result.metadata.parser) == Some(plan.parser)
}

/// `result` holds `child` as its single subcommand, named by the second word
/// of the command path, under a root named by the first word that keeps the
/// child's path, description and metadata and has no usage, options or
/// positionals of its own.
pub open spec fn nested(result: CommandSpec, child: CommandSpec, path: Seq<Seq<char>>) -> bool {
    &&& result.subcommands@.len() == 1
    &&& *result.subcommands@[0].command == child
    &&& result.subcommands@[0].name@ == path[1]
    &&& result.subcommands@[0].aliases@.len() == 0
    &&& result.name@ == path[0]
    &&& result.executable.name@ == path[0]
    &&& result.executable.path == child.executable.path
    &&& result.description == child.description
    &&& result.usage@.len() == 0
    &&& result.options@.len() == 0
    &&& result.positionals@.len() == 0
    &&& result.metadata.source == child.metadata.source
    &&& result.metadata.parser == child.metadata.parser
    &&& result.metadata.confidence == child.metadata.confidence
    &&& result.metadata.executable_version == child.metadata.executable_version
    &&& result.metadata.fingerprint == child.metadata.fingerprint
    &&& result.metadata.extensions@ == child.metadata.extensions@
}

fn clone_text(v: &Option<String>) -> (r: Option<String>)
    ensures
        r == *v,
{
    match v {
        Some(s) => Some(s.clone()),
        None => None,
    }
}

/// Labels a parsed document for the plan that produced it; for a command
/// path of two or more words, the parsed command becomes the subcommand
/// named by the second word.
pub fn label_document(document: SchemaDocument, executable_path: String, plan: &ProbePlan) -> (result: SchemaDocument)
    ensures
        result.schema_version == document.schema_version,
        plan.command_path@.len() <= 1 ==> labelled(document.root, result.root, executable_path@, plan_view(*plan)),
        plan.command_path@.len() > 1 ==> labelled(document.root, *result.root.subcommands@[0].command, executable_path@, plan_view(*plan))
            && nested(result.root, *result.root.subcommands@[0].command, strings_view(plan.command_path@)),
{
    let SchemaDocument { schema_version, root } = document;
    let mut child = root;
    child.executable.path = Some(executable_path);
    child.metadata.parser = Some(plan.parser.to_owned());
    child.metadata.source = plan.source;
    child.metadata.confidence = plan.confidence;
    if plan.command_path.len() <= 1 {
        return SchemaDocument { schema_version, root: child };
    }
    let ghost path = strings_view(plan.command_path@);
    assert(path[0] == plan.command_path@[0]@ && path[1] == plan.command_path@[1]@);
    let metadata = SpecMetadata {
        source: child.metadata.source,
        parser: clone_text(&child.metadata.parser),
        confidence: child.metadata.confidence,
        executable_version: clone_text(&child.metadata.executable_version),
        fingerprint: clone_text(&child.metadata.fingerprint),
        extensions: child.metadata.extensions.clone(),
    };
    let executable = ExecutableIdentity {
        name: plan.command_path[0].clone(),
        path: clone_text(&child.executable.path),
    };
    let description = clone_text(&child.description);
    let mut subcommands: Vec<SubcommandSpec> = Vec::new();
    subcommands.push(SubcommandSpec {
        name: plan.command_path[1].clone(),
        aliases: Vec::new(),
        command: Box::new(child),
    });
    let parent = CommandSpec {
        executable,
        name: plan.command_path[0].clone(),
        description,
        usage: Vec::new(),
        subcommands,
        options: Vec::new(),
        positionals: Vec::new(),
        metadata,
    };
    SchemaDocument { schema_version, root: parent }
}

pub open spec fn has_prefix(m: Seq<char>, prefix: Seq<char>) -> bool {
    m.len() >= prefix.len() && m.subrange(0, prefix.len() as int) == prefix
}

fn prefixed(prefix: &str, text: String) -> (s: String)
    ensures
        s@ == prefix@ + text@,
{
    let mut s = prefix.to_owned();
    s.append(text.as_str());
    s
}

impl DiscoveryError {
    /// A parse failure, described by the parser error's debug form.
    pub fn from_parse_error(error: &GenericHelpError) -> (e: DiscoveryError)
        ensures
            e matches DiscoveryError::Parse(m) && m@ == error.debug_view(),
    {
        DiscoveryError::Parse(error.debug_text())
    }

    /// A validation failure, described by the validation errors' message.
    pub fn from_validation_errors(errors: &ValidationErrors) -> (e: DiscoveryError)
        ensures
            e matches DiscoveryError::Validation(m) && m@ == errors_text(errors_view(errors.errors@)),
    {
        DiscoveryError::Validation(errors.message())
    }

    /// The message that describes the error; for a cache or probe failure the
    /// underlying error's message follows the prefix.
    pub fn message(&self) -> (m: String)
        ensures
            match self {
                DiscoveryError::InvalidCommand => m@ == "an executable command is required"@,
                DiscoveryError::InvalidInvocation(message) => m@ == message@,
                DiscoveryError::UnavailableCommand(command) => m@ == "command is unavailable: "@ + command@,
                DiscoveryError::Cache(_) => has_prefix(m@, "cache failure: "@),
                DiscoveryError::Probe(_) => has_prefix(m@, "probe failed: "@),
                DiscoveryError::Parse(error) => m@ == "help output could not be parsed: "@ + error@,
                DiscoveryError::Validation(error) => m@ == "discovered schema is invalid: "@ + error@,
                DiscoveryError::ProbeSkipped { command } => m@ == "no cached schema for "@ + command@
                    + "; remove --no-exec-probe to discover it"@,
            },
    {
        match self {
            DiscoveryError::InvalidCommand => "an executable command is required".to_owned(),
            DiscoveryError::InvalidInvocation(message) => message.clone(),
            DiscoveryError::UnavailableCommand(command) => prefixed("command is unavailable: ", command.clone()),
            DiscoveryError::Cache(error) => {
                let s = prefixed("cache failure: ", error.message());
                proof {
                    assert(s@.subrange(0, "cache failure: "@.len() as int) =~= "cache failure: "@);
                }
                s
            },
            DiscoveryError::Probe(error) => {
                let s = prefixed("probe failed: ", error.message());
                proof {
                    assert(s@.subrange(0, "probe failed: "@.len() as int) =~= "probe failed: "@);
                }
                s
            },
            DiscoveryError::Parse(error) => prefixed("help output could not be parsed: ", error.clone()),
            DiscoveryError::Validation(error) => prefixed("discovered schema is invalid: ", error.clone()),
            DiscoveryError::ProbeSkipped { command } => {
                let mut s = prefixed("no cached schema for ", command.clone());
                s.append("; remove --no-exec-probe to discover it");
                s
            },
        }
    }
}

/// Sanitizing keeps no terminal control: every character of the result is
/// printable, a newline, a carriage return or a tab; and decoded text that
/// holds no control character comes through unchanged.
pub proof fn law_sanitized_help_has_no_controls(decoded: Seq<char>)
    ensures
        forall|i: int| 0 <= i < help_chars(decoded, decoded.len() as int).len()
            ==> keeps_help_char(#[trigger] help_chars(decoded, decoded.len() as int)[i]),
        (forall|i: int| 0 <= i < decoded.len() ==> !is_control_char(#[trigger] decoded[i]))
            ==> help_chars(decoded, decoded.len() as int) == decoded,
{
    lemma_help_chars(decoded, decoded.len() as int);
    assert(decoded.take(decoded.len() as int) =~= decoded);
}

proof fn lemma_help_chars(s: Seq<char>, n: int)
    requires
        0 <= n <= s.len(),
    ensures
        forall|i: int| 0 <= i < help_chars(s, n).len() ==> keeps_help_char(#[trigger] help_chars(s, n)[i]),
        (forall|i: int| 0 <= i < n ==> !is_control_char(#[trigger] s[i])) ==> help_chars(s, n) == s.take(n),
    decreases n,
{
    if n > 0 {
        lemma_help_chars(s, n - 1);
        if keeps_help_char(s[n - 1]) {
            assert(help_chars(s, n) == help_chars(s, n - 1).push(s[n - 1]));
        }
        if forall|i: int| 0 <= i < n ==> !is_control_char(#[trigger] s[i]) {
            assert(!is_control_char(s[n - 1]));
            assert(s.take(n) =~= s.take(n - 1).push(s[n - 1]));
        }
    } else {
        assert(s.take(0) =~= Seq::<char>::empty());
    }
}

/// After a cache miss: a probe may run only when probing is on; otherwise
/// the command is reported as having no cached schema.
pub fn decide_probe(execute_probe: bool, command: &[String]) -> (r: Result<(), DiscoveryError>)
    ensures
        execute_probe ==> r is Ok,
        !execute_probe ==> (r matches Err(DiscoveryError::ProbeSkipped { command: c }) && c@ == joined(strings_view(command@))),
{
    if execute_probe {
        Ok(())
    } else {
        Err(probe_skipped(command))
    }
}

/// `result` is `document` labelled for `plan` (see `label_document`).
pub open spec fn document_labelled(document: SchemaDocument, result: SchemaDocument, executable_path: Seq<char>, plan: ProbePlan) -> bool {
    &&& result.schema_version == document.schema_version
    &&& plan.command_path@.len() <= 1 ==> labelled(document.root, result.root, executable_path, plan_view(plan))
    &&& plan.command_path@.len() > 1 ==> labelled(document.root, *result.root.subcommands@[0].command, executable_path, plan_view(plan))
        && nested(result.root, *result.root.subcommands@[0].command, strings_view(plan.command_path@))
}

/// The name the help is parsed for (see `parse_target`).
pub open spec fn target_of(plan: ProbePlan, command_name: Seq<char>) -> Seq<char> {
    if plan.command_path@.len() > 0 { plan.command_path@.last()@ } else { command_name }
}

/// The help text of a probe (see `help_text`).
pub open spec fn probe_help(stdout: Seq<u8>, stderr: Seq<u8>) -> Seq<char> {
    if stdout.len() > 0 {
        help_chars(utf8_lossy(stdout), utf8_lossy(stdout).len() as int)
    } else {
        help_chars(utf8_lossy(stderr), utf8_lossy(stderr).len() as int)
    }
}

/// Turns a finished probe's output into a labelled, validated document: the
/// output must be usable (`probe_refusal`), its help text must parse, and the
/// labelled document must pass validation.
pub fn document_from_probe(
    plan: &ProbePlan,
    command_name: &str,
    executable_path: String,
    timed_out: bool,
    stdout: &CapturedOutput,
    stderr: &CapturedOutput,
    code: Option<i32>,
) -> (r: Result<ParseReport, DiscoveryError>)
    ensures
        ({
            let refusal = probe_refusal(plan.parser@, timed_out, stdout.truncated, stderr.truncated, code);
            let text = probe_help(stdout.bytes@, stderr.bytes@);
            let target = target_of(*plan, command_name@);
            &&& refusal matches Some(message) ==> (r matches Err(DiscoveryError::InvalidInvocation(m)) && m@ == message)
            &&& refusal is None && is_blank(target) ==> (r matches Err(DiscoveryError::Parse(m))
                && m@ == GenericHelpError::EmptyExecutable.debug_view())
            &&& refusal is None && !is_blank(target) && (utf8_bytes(text).len() as usize) > MAX_HELP_BYTES ==> (r matches Err(
                DiscoveryError::Parse(m),
            ) && m@ == (GenericHelpError::InputTooLarge {
                bytes: utf8_bytes(text).len() as usize,
                maximum: MAX_HELP_BYTES,
            }).debug_view())
            &&& refusal is None && !is_blank(target) && (utf8_bytes(text).len() as usize) <= MAX_HELP_BYTES ==> exists|
                parsed: ParseReport,
                document: SchemaDocument,
            |
                #![trigger report_matches(parsed, target, text), document_labelled(parsed.document, document, executable_path@, *plan)]
                {
                    &&& report_matches(parsed, target, text)
                    &&& document_labelled(parsed.document, document, executable_path@, *plan)
                    &&& document_errors(document).len() == 0 ==> (r matches Ok(report) && report.document == document
                        && report.warnings == parsed.warnings)
                    &&& document_errors(document).len() > 0 ==> (r matches Err(DiscoveryError::Validation(m)) && m@
                        == crate::schema::validation::errors_text(document_errors(document)))
                }
        }),
{
    match check_probe_output(plan.parser, timed_out, stdout.truncated, stderr.truncated, code) {
        Err(error) => {
            return Err(error);
        },
        Ok(()) => {},
    }
    let text = help_text(&stdout.bytes, &stderr.bytes);
    let target = parse_target(plan, command_name);
    let help = text.as_str();
    let parsed = match GenericHelpParser::parse(target.as_str(), help) {
        Ok(report) => report,
        Err(error) => {
            return Err(DiscoveryError::from_parse_error(&error));
        },
    };
    let ghost before = parsed;
    let ParseReport { document, warnings } = parsed;
    let document = label_document(document, executable_path, plan);
    match document.validate() {
        Ok(()) => {
            let report = ParseReport { document, warnings };
            proof {
                assert(document_errors(report.document).len() == 0);
                assert(report.warnings == before.warnings);
                assert(report_matches(before, target@, text@));
                assert(document_labelled(before.document, report.document, executable_path@, *plan));
            }
            Ok(report)
        },
        Err(errors) => {
            proof {
                assert(report_matches(before, target@, text@));
                assert(document_labelled(before.document, document, executable_path@, *plan));
                assert(document_errors(document).len() > 0);
                assert(errors_view(errors.errors@) == document_errors(document));
            }
            let e = DiscoveryError::from_validation_errors(&errors);
            proof {
                assert(e matches DiscoveryError::Validation(m) && m@ == crate::schema::validation::errors_text(document_errors(document)));
            }
            Err(e)
        },
    }
}

/// Letters, digits and the punctuation that command and subcommand names
/// are commonly made of.
pub open spec fn is_name_char(c: char) -> bool {
    ('a' <= c <= 'z') || ('A' <= c <= 'Z') || ('0' <= c <= '9') || c == '-' || c == '_' || c == '.' || c == '/'
        || c == '+' || c == ':' || c == '@' || c == '=' || c == ',' || c == '%'
}

/// A nonempty word made only of letters, digits and `-_./+:@=,%` (such as
/// `apt-get` or `/usr/bin/git`) is a safe command word, so `check_command`
/// accepts a command made of such words.
pub proof fn law_plain_names_are_safe_tokens(word: Seq<char>)
    requires
        word.len() > 0,
        forall|i: int| 0 <= i < word.len() ==> is_name_char(#[trigger] word[i]),
    ensures
        is_safe_token(word),
{
    assert(is_name_char(word[0]));
    assert(is_name_char(word[word.len() - 1]));
    assert(skip_ws(word, 0) == 0);
    assert(crate::scan::back_ws(word, 0, word.len() as int) == word.len());
    assert(trim(word) =~= word);
    assert forall|i: int| 0 <= i < word.len() implies !is_control_char(#[trigger] word[i]) && !is_shell_char(word[i]) by {
        assert(is_name_char(word[i]));
    }
}

/// Any word holding a quote, a backquote, `;`, `|`, `&`, `<` or `>` is
/// refused as a command word.
pub proof fn law_shell_syntax_makes_words_unsafe(word: Seq<char>, i: int)
    requires
        0 <= i < word.len(),
        word[i] == '\'' || word[i] == '"' || word[i] == '`' || word[i] == ';' || word[i] == '|' || word[i] == '&'
            || word[i] == '<' || word[i] == '>',
    ensures
        !is_safe_token(word),
{
}

} // verus!
