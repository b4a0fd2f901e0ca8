//! A parser for generic GNU-style `--help` output. It reads options from an
//! options section (or leading option lines), value forms, possible values,
//! usage lines and their positionals, and records a warning for each line it
//! skips.
use std::collections::BTreeMap;
use vstd::prelude::*;
use crate::scan::{
    ends_with, ends_with_exec, find_any_exec, find_any_from, find_seq, find_seq_exec, lines, lines_exec, pieces,
    pieces_exec, skip_ws, skip_ws_exec, back_set, slice_chars, split_once_any, starts_with, starts_with_exec,
    string_of, trim, trim_chars, trim_end_set, trim_end_set_exec, trim_set, trim_set_exec, words,
    words_exec,
};
use crate::schema::{
    CommandSpec, Confidence, ExecutableIdentity, HelpSource, InsertionPolicy, OptionId, OptionName,
    OptionSpec, PositionalSpec, Repeatability, SchemaDocument, Scope, SpecMetadata, ValueArity,
    ValueSpec, ValueType, SCHEMA_VERSION,
};
use crate::text::{
    ascii_lower_seq, chars_eq, chars_of, contains_exec, contains_seq, is_white_space, lemma_encode_push,
    to_ascii_lower, utf8_bytes, utf8_width, decimal, push_decimal, occurs_at,
};

verus! {

/// Largest help text, in bytes, that the parser reads.
pub const MAX_HELP_BYTES: usize = 1048576;

#[derive(Debug, Clone, PartialEq, Eq)]
pub enum GenericHelpError {
    EmptyExecutable,
    InputTooLarge { bytes: usize, maximum: usize },
}

/// A help line that the parser skipped, with the reason.
#[derive(Debug, Clone, PartialEq, Eq)]
pub struct ParseWarning {
    pub line: usize,
    pub message: String,
}

#[derive(Clone, Debug)]
pub struct ParseReport {
    pub document: SchemaDocument,
    pub warnings: Vec<ParseWarning>,
}

pub struct GenericHelpParser;

/// An option name as characters.
pub enum NameModel {
    Short(char),
    Long(Seq<char>),
    SingleDashLong(Seq<char>),
}

pub open spec fn name_spelling(name: NameModel) -> Seq<char> {
    match name {
        NameModel::Short(c) => seq!['-', c],
        NameModel::Long(v) => seq!['-', '-'] + v,
        NameModel::SingleDashLong(v) => seq!['-'] + v,
    }
}

pub open spec fn names_model(names: Seq<OptionName>) -> Seq<NameModel> {
    names.map_values(|n: OptionName| name_model(n))
}

pub open spec fn name_model(name: OptionName) -> NameModel {
    match name {
        OptionName::Short(c) => NameModel::Short(c),
        OptionName::Long(v) => NameModel::Long(v@),
        OptionName::SingleDashLong(v) => NameModel::SingleDashLong(v@),
    }
}

/// What the parser learns about an option.
pub struct OptionModel {
    pub names: Seq<NameModel>,
    pub description: Option<Seq<char>>,
    pub arity: ValueArity,
    pub value_name: Option<Seq<char>>,
    pub value_type: ValueType,
    pub possible_values: Seq<Seq<char>>,
    pub repeatable: bool,
}

pub struct PositionalModel {
    pub name: Seq<char>,
    pub required: bool,
}

/// The parser's state after a number of lines.
pub struct ParseState {
    pub in_section: bool,
    pub options: Seq<OptionModel>,
    pub last_option: Option<int>,
    pub usage: Seq<Seq<char>>,
    pub positionals: Seq<PositionalModel>,
    pub warnings: Seq<(int, Seq<char>)>,
}

pub open spec fn opt_view(v: Option<String>) -> Option<Seq<char>> {
    match v {
        Some(s) => Some(s@),
        None => None,
    }
}

/// The characters `=`, `[` and `<` that end an option name.
pub open spec fn value_delimiters() -> Seq<char> {
    seq!['=', '[', '<']
}

/// `token` with surrounding commas removed, parsed as an option name.
pub open spec fn parse_name(token: Seq<char>) -> Option<NameModel> {
    let t = trim_set(token, seq![',']);
    if starts_with(t, seq!['-', '-']) {
        let v = t.skip(2);
        let name = match split_once_any(v, value_delimiters()) {
            Some((a, _)) => a,
            None => v,
        };
        if name.len() > 0 { Some(NameModel::Long(name)) } else { None }
    } else if starts_with(t, seq!['-']) {
        let v = t.skip(1);
        if v.len() == 0 {
            None
        } else if v.len() == 1 {
            Some(NameModel::Short(v[0]))
        } else {
            let name = match split_once_any(v, value_delimiters()) {
                Some((a, _)) => a,
                None => v,
            };
            Some(NameModel::SingleDashLong(name))
        }
    } else {
        None
    }
}

/// The names parsed from the first `n` tokens, skipping tokens that are no names.
pub open spec fn parsed_names(tokens: Seq<Seq<char>>, n: int) -> Seq<NameModel>
    decreases n,
{
    if n <= 0 {
        Seq::empty()
    } else {
        match parse_name(tokens[n - 1]) {
            Some(name) => parsed_names(tokens, n - 1).push(name),
            None => parsed_names(tokens, n - 1),
        }
    }
}

/// The value form that one token shows, if any.
pub open spec fn value_arity(token: Seq<char>) -> Option<ValueArity> {
    if contains_seq(token, seq!['[', '=']) || contains_seq(token, seq!['[', '<']) {
        Some(ValueArity::Optional)
    } else if contains_seq(token, seq!['=']) || contains_seq(token, seq!['<']) {
        Some(ValueArity::Required)
    } else if ends_with(token, seq!['.', '.', '.']) {
        Some(ValueArity::Multiple)
    } else {
        None
    }
}

/// The value form of the first token from position `k` on that shows one.
pub open spec fn first_arity(tokens: Seq<Seq<char>>, k: int) -> Option<ValueArity>
    decreases tokens.len() - k,
{
    if k < 0 || k >= tokens.len() {
        None
    } else if value_arity(tokens[k]) is Some {
        value_arity(tokens[k])
    } else {
        first_arity(tokens, k + 1)
    }
}

/// The value name that one token shows, if any.
pub open spec fn token_value_name(token: Seq<char>) -> Option<Seq<char>> {
    let candidate = if starts_with(token, seq!['<']) || starts_with(token, seq!['[']) {
        Some(token)
    } else {
        match split_once_any(token, value_delimiters()) {
            Some((_, b)) => Some(b),
            None => None,
        }
    };
    match candidate {
        Some(c) => {
            let v = trim_end_set(trim_end_set(c, seq![']']), seq!['>']);
            if v.len() > 0 { Some(v) } else { None }
        },
        None => None,
    }
}

/// The value name of the first token from position `k` on that shows one.
pub open spec fn first_value_name(tokens: Seq<Seq<char>>, k: int) -> Option<Seq<char>>
    decreases tokens.len() - k,
{
    if k < 0 || k >= tokens.len() {
        None
    } else if token_value_name(tokens[k]) is Some {
        token_value_name(tokens[k])
    } else {
        first_value_name(tokens, k + 1)
    }
}

/// The nonempty pieces among the first `n`.
pub open spec fn nonempty_pieces(p: Seq<Seq<char>>, n: int) -> Seq<Seq<char>>
    decreases n,
{
    if n <= 0 {
        Seq::empty()
    } else if p[n - 1].len() > 0 {
        nonempty_pieces(p, n - 1).push(p[n - 1])
    } else {
        nonempty_pieces(p, n - 1)
    }
}

/// The tokens of the first `n` words: each word split at commas, empty pieces dropped.
pub open spec fn word_tokens(ws: Seq<Seq<char>>, n: int) -> Seq<Seq<char>>
    decreases n,
{
    if n <= 0 {
        Seq::empty()
    } else {
        let p = pieces(ws[n - 1], seq![',']);
        word_tokens(ws, n - 1) + nonempty_pieces(p, p.len() as int)
    }
}

/// A trimmed nonempty text, if any.
pub open spec fn nonempty_text(v: Seq<char>) -> Option<Seq<char>> {
    if trim(v).len() > 0 { Some(trim(v)) } else { None }
}

/// An option line split into its specification tokens and its description,
/// which follows the first run of two spaces.
pub open spec fn split_option_line(line: Seq<char>) -> Option<(Seq<Seq<char>>, Option<Seq<char>>)> {
    let (specification, description) = match find_seq(line, seq![' ', ' ']) {
        Some(k) => (line.take(k), line.skip(k + 2)),
        None => (line, Seq::empty()),
    };
    let spec_start = specification.skip(skip_ws(specification, 0));
    if !starts_with(spec_start, seq!['-']) {
        None
    } else {
        let ws = words(specification);
        Some((word_tokens(ws, ws.len() as int), nonempty_text(description)))
    }
}

/// A description marks an option repeatable when it says "repeatable" or
/// "multiple times" and holds none of the words "not", "no" and "never".
pub open spec fn says_repeatable(description: Option<Seq<char>>) -> bool {
    match description {
        Some(text) => {
            let lower = ascii_lower_seq(text);
            let ws = words(lower);
            !(exists|i: int| 0 <= i < ws.len() && (ws[i] == "not"@ || ws[i] == "no"@ || ws[i] == "never"@))
                && (contains_seq(lower, "repeatable"@) || contains_seq(lower, "multiple times"@))
        },
        None => false,
    }
}

pub open spec fn is_section_heading(t: Seq<char>) -> bool {
    let u = ascii_lower_seq(trim_end_set(t, seq![':']));
    u == "options"@ || u == "flags"@
}

pub open spec fn is_heading(t: Seq<char>) -> bool {
    t.len() > 0 && t[0] != '-' && t.last() == ':' && utf8_bytes(t).len() < 80
}

pub open spec fn is_usage_line(t: Seq<char>) -> bool {
    let lower = ascii_lower_seq(t);
    starts_with(lower, "usage:"@) || starts_with(lower, "synopsis:"@)
}

pub open spec fn is_name_char(c: char) -> bool {
    ('a' <= c <= 'z') || ('A' <= c <= 'Z') || ('0' <= c <= '9') || c == '_'
}

/// The positional that one usage token names, if any.
pub open spec fn usage_positional(token: Seq<char>) -> Option<PositionalModel> {
    let optional = starts_with(token, seq!['[']);
    let t = trim_set(token, seq!['[', ']']);
    if t.len() == 0 || starts_with(t, seq!['-']) || ascii_lower_seq(t) == "options"@ {
        None
    } else {
        let name = trim_set(t, seq!['<', '>']);
        if forall|i: int| 0 <= i < name.len() ==> is_name_char(#[trigger] name[i]) {
            Some(PositionalModel { name, required: !optional })
        } else {
            None
        }
    }
}

pub open spec fn usage_positionals_of(tokens: Seq<Seq<char>>, n: int) -> Seq<PositionalModel>
    decreases n,
{
    if n <= 0 {
        Seq::empty()
    } else {
        match usage_positional(tokens[n - 1]) {
            Some(p) => usage_positionals_of(tokens, n - 1).push(p),
            None => usage_positionals_of(tokens, n - 1),
        }
    }
}

/// The positionals of a usage line: the words after its first colon.
pub open spec fn usage_positionals(line: Seq<char>) -> Seq<PositionalModel> {
    match split_once_any(line, seq![':']) {
        Some((_, rest)) => usage_positionals_of(words(rest), words(rest).len() as int),
        None => Seq::empty(),
    }
}

/// The trimmed nonempty pieces among the first `n`.
pub open spec fn trimmed_values(p: Seq<Seq<char>>, n: int) -> Seq<Seq<char>>
    decreases n,
{
    if n <= 0 {
        Seq::empty()
    } else if trim(p[n - 1]).len() > 0 {
        trimmed_values(p, n - 1).push(trim(p[n - 1]))
    } else {
        trimmed_values(p, n - 1)
    }
}

/// The values of a possible-values list, separated by `,` or `|`.
pub open spec fn possible_values_of(v: Seq<char>) -> Seq<Seq<char>> {
    let p = pieces(v, seq![',', '|']);
    trimmed_values(p, p.len() as int)
}

pub open spec fn marker() -> Seq<char> {
    "possible values:"@
}

/// One of `names` is spelled `spelling`.
pub open spec fn has_spelling(names: Seq<NameModel>, spelling: Seq<char>) -> bool {
    exists|k: int| 0 <= k < names.len() && name_spelling(#[trigger] names[k]) == spelling
}

/// Some option among `options` has a name spelled `spelling`.
pub open spec fn spelling_taken(options: Seq<OptionModel>, spelling: Seq<char>) -> bool {
    exists|o: int| 0 <= o < options.len() && has_spelling(#[trigger] options[o].names, spelling)
}

/// The first option from position `o` on with a name spelled `spelling`.
pub open spec fn find_option_with(options: Seq<OptionModel>, spelling: Seq<char>, o: int) -> Option<int>
    decreases options.len() - o,
{
    if o < 0 || o >= options.len() {
        None
    } else if has_spelling(options[o].names, spelling) {
        Some(o)
    } else {
        find_option_with(options, spelling, o + 1)
    }
}

pub open spec fn warn(state: ParseState, number: int, message: Seq<char>) -> ParseState {
    ParseState { warnings: state.warnings.push((number, message)), ..state }
}

/// The parser's handling of an option line `t` (already found eligible).
pub open spec fn option_line_step(s: ParseState, t: Seq<char>, number: int) -> ParseState {
    match split_option_line(t) {
        None => warn(s, number, "ambiguous option line skipped"@),
        Some((tokens, description)) => {
            let names = parsed_names(tokens, tokens.len() as int);
            if names.len() == 0 {
                warn(s, number, "unsupported option spelling skipped"@)
            } else if exists|k: int| 0 <= k < names.len() && spelling_taken(s.options, name_spelling(#[trigger] names[k])) {
                warn(s, number, "duplicate option spelling skipped"@)
            } else {
                let option = OptionModel {
                    names,
                    description,
                    arity: match first_arity(tokens, 0) {
                        Some(a) => a,
                        None => ValueArity::NoValue,
                    },
                    value_name: first_value_name(tokens, 0),
                    value_type: ValueType::Unknown,
                    possible_values: Seq::empty(),
                    repeatable: says_repeatable(description),
                };
                ParseState { options: s.options.push(option), last_option: Some(s.options.len() as int), ..s }
            }
        },
    }
}

/// The parser's handling of help line `line`, numbered from 1.
pub open spec fn line_step(state: ParseState, line: Seq<char>, number: int) -> ParseState {
    let t = trim(line);
    let lower = ascii_lower_seq(t);
    if is_section_heading(t) {
        ParseState { in_section: true, ..state }
    } else {
        let s1 = if state.in_section && is_heading(t) { ParseState { in_section: false, ..state } } else { state };
        let s2 = if is_usage_line(t) {
            ParseState { usage: s1.usage.push(t), positionals: s1.positionals + usage_positionals(t), ..s1 }
        } else {
            s1
        };
        match find_seq(lower, marker()) {
            Some(m) => match s2.last_option {
                Some(ix) => {
                    let o = s2.options[ix];
                    let values = trim(t.skip(m + marker().len()));
                    ParseState {
                        options: s2.options.update(ix, OptionModel { value_type: ValueType::Enum, possible_values: possible_values_of(values), ..o }),
                        ..s2
                    }
                },
                None => warn(s2, number, "possible-values marker has no preceding option"@),
            },
            None => {
                let eligible = s2.in_section || (s2.options.len() == 0 && starts_with(t, seq!['-']));
                if !eligible || !starts_with(t, seq!['-']) {
                    if s2.in_section && t.len() > 0 {
                        warn(s2, number, "non-option line in options section skipped"@)
                    } else {
                        s2
                    }
                } else {
                    option_line_step(s2, t, number)
                }
            },
        }
    }
}

pub open spec fn initial_state() -> ParseState {
    ParseState {
        in_section: false,
        options: Seq::empty(),
        last_option: None,
        usage: Seq::empty(),
        positionals: Seq::empty(),
        warnings: Seq::empty(),
    }
}

/// The state after the first `n` lines.
pub open spec fn run_lines(ls: Seq<Seq<char>>, n: int) -> ParseState
    decreases n,
{
    if n <= 0 {
        initial_state()
    } else {
        line_step(run_lines(ls, n - 1), ls[n - 1], n)
    }
}

/// The base of the last `--no-<base>` name among the first `n` names, if any.
pub open spec fn negated_base(names: Seq<NameModel>, n: int) -> Option<Seq<char>>
    decreases n,
{
    if n <= 0 {
        None
    } else {
        match names[n - 1] {
            NameModel::Long(v) => if starts_with(v, "no-"@) {
                Some(v.skip(3))
            } else {
                negated_base(names, n - 1)
            },
            _ => negated_base(names, n - 1),
        }
    }
}

/// The ID of an option: the spelling of its first name.
pub open spec fn option_id(option: OptionModel) -> Seq<char> {
    name_spelling(option.names[0])
}

/// The option that a `--no-<base>` option negates: the first with a name spelled `--<base>`.
pub open spec fn negation_target(options: Seq<OptionModel>, i: int) -> Option<Seq<char>> {
    match negated_base(options[i].names, options[i].names.len() as int) {
        Some(base) => match find_option_with(options, seq!['-', '-'] + base, 0) {
            Some(o) => Some(option_id(options[o])),
            None => None,
        },
        None => None,
    }
}

/// The whole help text is blank.
pub open spec fn is_blank(s: Seq<char>) -> bool {
    trim(s).len() == 0
}

/// An exec option and its model agree, and the option's other fields hold
/// the parser's fixed values.
pub open spec fn option_matches(o: OptionSpec, m: OptionModel, negates: Option<Seq<char>>) -> bool {
    &&& o.id.view_id() == option_id(m)
    &&& names_model(o.names@) == m.names
    &&& opt_view(o.description) == m.description
    &&& o.value.arity == m.arity
    &&& opt_view(o.value.name) == m.value_name
    &&& o.value.value_type == m.value_type
    &&& o.value.possible_values@.map_values(|v: String| v@) == m.possible_values
    &&& (o.repeatability == Repeatability::Repeatable) == m.repeatable
    &&& (o.repeatability == Repeatability::Repeatable || o.repeatability == Repeatability::Unknown)
    &&& !o.required
    &&& o.scope == Scope::Unknown
    &&& !o.hidden
    &&& match o.negates {
        Some(id) => negates == Some(id.view_id()),
        None => negates is None,
    }
    &&& o.conflicts_with@.len() == 0
    &&& o.requires@.len() == 0
    &&& o.insertion_policy == InsertionPolicy::Append
    &&& o.source_span is None
}

pub open spec fn positional_matches(p: PositionalSpec, m: PositionalModel) -> bool {
    &&& p.name@ == m.name
    &&& p.description is None
    &&& p.arity == ValueArity::Unknown
    &&& p.value_type == ValueType::Unknown
    &&& p.required == m.required
    &&& p.possible_values@.len() == 0
    &&& p.source_span is None
}

/// The report describes the state reached after all lines of the help text.
pub open spec fn report_matches(report: ParseReport, executable: Seq<char>, help: Seq<char>) -> bool {
    let ls = lines(help);
    let state = run_lines(ls, ls.len() as int);
    let root = report.document.root;
    &&& report.document.schema_version == SCHEMA_VERSION
    &&& root.executable.name@ == executable
    &&& root.executable.path is None
    &&& root.name@ == executable
    &&& root.description is None
    &&& root.usage@.map_values(|u: String| u@) == state.usage
    &&& root.subcommands@.len() == 0
    &&& root.options@.len() == state.options.len()
    &&& forall|i: int| 0 <= i < state.options.len() ==> option_matches(#[trigger] root.options@[i], state.options[i], negation_target(state.options, i))
    &&& root.positionals@.len() == state.positionals.len()
    &&& forall|i: int| 0 <= i < state.positionals.len() ==> positional_matches(#[trigger] root.positionals@[i], state.positionals[i])
    &&& root.metadata.source == HelpSource::GenericHelp
    &&& opt_view(root.metadata.parser) == Some("generic-gnu-help"@)
    &&& root.metadata.confidence == Confidence::Medium
    &&& root.metadata.executable_version is None
    &&& root.metadata.fingerprint is None
    &&& root.metadata.extensions@ == Map::<String, serde_json::Value>::empty()
    &&& report.warnings@.len() == state.warnings.len()
    &&& forall|i: int| 0 <= i < state.warnings.len() ==> #[trigger] report.warnings@[i].line == state.warnings[i].0
        && report.warnings@[i].message@ == state.warnings[i].1
}

/// The characters of a short literal.
fn lit(s: &str) -> (v: Vec<char>)
    ensures
        v@ == s@,
{
    chars_of(s)
}

fn lower_chars(s: &Vec<char>) -> (r: Vec<char>)
    ensures
        r@ == ascii_lower_seq(s@),
{
    let mut r: Vec<char> = Vec::new();
    let mut i: usize = 0;
    while i < s.len()
        invariant
            0 <= i <= s.len(),
            r@ == ascii_lower_seq(s@.take(i as int)),
        decreases s.len() - i,
    {
        proof {
            assert(s@.take(i as int + 1) =~= s@.take(i as int).push(s@[i as int]));
            assert(ascii_lower_seq(s@.take(i as int + 1)) =~= ascii_lower_seq(s@.take(i as int)).push(crate::text::ascii_lower(s@[i as int])));
        }
        r.push(to_ascii_lower(s[i]));
        i = i + 1;
    }
    proof {
        assert(s@.take(s@.len() as int) =~= s@);
    }
    r
}

/// The part of `v` before the first value delimiter, or all of `v`.
fn name_part(v: &Vec<char>) -> (r: Vec<char>)
    ensures
        r@ == match split_once_any(v@, value_delimiters()) {
            Some((a, _)) => a,
            None => v@,
        },
{
    let delimiters = lit("=[<");
    proof {
        reveal_strlit("=[<");
        assert(delimiters@ =~= value_delimiters());
    }
    let k = find_any_exec(v, &delimiters, 0);
    if k >= v.len() {
        proof {
            assert(v@.subrange(0, v@.len() as int) =~= v@);
        }
        slice_chars(v, 0, v.len())
    } else {
        slice_chars(v, 0, k)
    }
}

fn parse_name_exec(token: &Vec<char>) -> (r: Option<OptionName>)
    ensures
        match parse_name(token@) {
            Some(m) => r matches Some(n) && name_model(n) == m,
            None => r is None,
        },
{
    let comma = lit(",");
    proof {
        reveal_strlit(",");
        assert(comma@ =~= seq![',']);
    }
    let t = trim_set_exec(token, &comma);
    let two = lit("--");
    proof {
        reveal_strlit("--");
        assert(two@ =~= seq!['-', '-']);
    }
    let one = lit("-");
    proof {
        reveal_strlit("-");
        assert(one@ =~= seq!['-']);
    }
    if starts_with_exec(&t, &two) {
        let v = slice_chars(&t, 2, t.len());
        proof {
            assert(v@ =~= t@.skip(2));
        }
        let name = name_part(&v);
        if name.len() > 0 {
            Some(OptionName::Long(string_of(&name)))
        } else {
            None
        }
    } else if starts_with_exec(&t, &one) {
        let v = slice_chars(&t, 1, t.len());
        proof {
            assert(v@ =~= t@.skip(1));
        }
        if v.len() == 0 {
            None
        } else if v.len() == 1 {
            Some(OptionName::Short(v[0]))
        } else {
            let name = name_part(&v);
            Some(OptionName::SingleDashLong(string_of(&name)))
        }
    } else {
        None
    }
}

fn value_arity_exec(token: &Vec<char>) -> (r: Option<ValueArity>)
    ensures
        r == value_arity(token@),
{
    let open_eq = lit("[=");
    let open_lt = lit("[<");
    let eq = lit("=");
    let lt = lit("<");
    let dots = lit("...");
    proof {
        reveal_strlit("[=");
        reveal_strlit("[<");
        reveal_strlit("=");
        reveal_strlit("<");
        reveal_strlit("...");
        assert(open_eq@ =~= seq!['[', '=']);
        assert(open_lt@ =~= seq!['[', '<']);
        assert(eq@ =~= seq!['=']);
        assert(lt@ =~= seq!['<']);
        assert(dots@ =~= seq!['.', '.', '.']);
    }
    if contains_exec(token, &open_eq) || contains_exec(token, &open_lt) {
        Some(ValueArity::Optional)
    } else if contains_exec(token, &eq) || contains_exec(token, &lt) {
        Some(ValueArity::Required)
    } else if ends_with_exec(token, &dots) {
        Some(ValueArity::Multiple)
    } else {
        None
    }
}

pub open spec fn chars_view(v: Seq<Vec<char>>) -> Seq<Seq<char>> {
    v.map_values(|w: Vec<char>| w@)
}

fn first_arity_exec(tokens: &Vec<Vec<char>>) -> (r: Option<ValueArity>)
    ensures
        r == first_arity(chars_view(tokens@), 0),
{
    let ghost ts = chars_view(tokens@);
    let mut k: usize = 0;
    while k < tokens.len()
        invariant
            ts == chars_view(tokens@),
            0 <= k <= tokens.len(),
            first_arity(ts, k as int) == first_arity(ts, 0),
        decreases tokens.len() - k,
    {
        let a = value_arity_exec(&tokens[k]);
        assert(ts[k as int] == tokens@[k as int]@);
        if a.is_some() {
            return a;
        }
        k = k + 1;
    }
    None
}

fn token_value_name_exec(token: &Vec<char>) -> (r: Option<Vec<char>>)
    ensures
        match token_value_name(token@) {
            Some(v) => r matches Some(x) && x@ == v,
            None => r is None,
        },
{
    let lt = lit("<");
    let open = lit("[");
    let close = lit("]");
    let gt = lit(">");
    let delimiters = lit("=[<");
    proof {
        reveal_strlit("<");
        reveal_strlit("[");
        reveal_strlit("]");
        reveal_strlit(">");
        reveal_strlit("=[<");
        assert(lt@ =~= seq!['<']);
        assert(open@ =~= seq!['[']);
        assert(close@ =~= seq![']']);
        assert(gt@ =~= seq!['>']);
        assert(delimiters@ =~= value_delimiters());
    }
    let candidate = if starts_with_exec(token, &lt) || starts_with_exec(token, &open) {
        slice_chars(token, 0, token.len())
    } else {
        let k = find_any_exec(token, &delimiters, 0);
        if k >= token.len() {
            return None;
        }
        slice_chars(token, k + 1, token.len())
    };
    proof {
        assert(token@.subrange(0, token@.len() as int) =~= token@);
    }
    let v1 = trim_end_set_exec(&candidate, &close);
    let v = trim_end_set_exec(&v1, &gt);
    if v.len() > 0 {
        Some(v)
    } else {
        None
    }
}

fn first_value_name_exec(tokens: &Vec<Vec<char>>) -> (r: Option<Vec<char>>)
    ensures
        match first_value_name(chars_view(tokens@), 0) {
            Some(v) => r matches Some(x) && x@ == v,
            None => r is None,
        },
{
    let ghost ts = chars_view(tokens@);
    let mut k: usize = 0;
    while k < tokens.len()
        invariant
            ts == chars_view(tokens@),
            0 <= k <= tokens.len(),
            first_value_name(ts, k as int) == first_value_name(ts, 0),
        decreases tokens.len() - k,
    {
        let v = token_value_name_exec(&tokens[k]);
        assert(ts[k as int] == tokens@[k as int]@);
        if v.is_some() {
            return v;
        }
        k = k + 1;
    }
    None
}

pub open spec fn opt_chars(v: Option<Vec<char>>) -> Option<Seq<char>> {
    match v {
        Some(x) => Some(x@),
        None => None,
    }
}

/// Appends the nonempty pieces of `p` to `out`.
fn push_nonempty(out: &mut Vec<Vec<char>>, p: Vec<Vec<char>>)
    ensures
        chars_view(final(out)@) == chars_view(old(out)@) + nonempty_pieces(chars_view(p@), p@.len() as int),
{
    let ghost start = chars_view(out@);
    let ghost pv = chars_view(p@);
    let mut j: usize = 0;
    while j < p.len()
        invariant
            pv == chars_view(p@),
            0 <= j <= p.len(),
            chars_view(out@) == start + nonempty_pieces(pv, j as int),
        decreases p.len() - j,
    {
        assert(pv[j as int] == p@[j as int]@);
        if p[j].len() > 0 {
            let piece = slice_chars(&p[j], 0, p[j].len());
            proof {
                assert(p@[j as int]@.subrange(0, p@[j as int]@.len() as int) =~= p@[j as int]@);
            }
            let ghost before = out@;
            out.push(piece);
            proof {
                assert(out@ == before.push(piece));
                assert(chars_view(out@) =~= chars_view(before).push(pv[j as int]));
                assert(nonempty_pieces(pv, j as int + 1) == nonempty_pieces(pv, j as int).push(pv[j as int]));
                assert(chars_view(out@) =~= start + nonempty_pieces(pv, j as int + 1));
            }
        } else {
            proof {
                assert(nonempty_pieces(pv, j as int + 1) == nonempty_pieces(pv, j as int));
            }
        }
        j = j + 1;
    }
}

/// The tokens of the words `ws`: each split at commas, with empty pieces dropped.
fn word_tokens_exec(ws: &Vec<Vec<char>>) -> (r: Vec<Vec<char>>)
    ensures
        chars_view(r@) == word_tokens(chars_view(ws@), ws@.len() as int),
{
    let ghost wv = chars_view(ws@);
    let comma = lit(",");
    proof {
        reveal_strlit(",");
        assert(comma@ =~= seq![',']);
    }
    let mut out: Vec<Vec<char>> = Vec::new();
    let mut i: usize = 0;
    proof {
        assert(chars_view(out@) =~= word_tokens(wv, 0));
    }
    while i < ws.len()
        invariant
            wv == chars_view(ws@),
            comma@ == seq![','],
            0 <= i <= ws.len(),
            chars_view(out@) == word_tokens(wv, i as int),
        decreases ws.len() - i,
    {
        assert(wv[i as int] == ws@[i as int]@);
        let p = pieces_exec(&ws[i], &comma);
        push_nonempty(&mut out, p);
        i = i + 1;
    }
    out
}

fn split_option_line_exec(line: &Vec<char>) -> (r: Option<(Vec<Vec<char>>, Option<Vec<char>>)>)
    ensures
        match split_option_line(line@) {
            Some((tokens, description)) => r matches Some((ts, d)) && chars_view(ts@) == tokens
                && opt_chars(d) == description,
            None => r is None,
        },
{
    let two = lit("  ");
    let dash = lit("-");
    proof {
        reveal_strlit("  ");
        reveal_strlit("-");
        assert(two@ =~= seq![' ', ' ']);
        assert(dash@ =~= seq!['-']);
        crate::scan::lemma_find_seq_from_bounds(line@, two@, 0);
    }
    let (specification, description) = match find_seq_exec(line, &two) {
        Some(k) => {
            let n = line.len();
            assert(k + 2 <= n);
            let a = slice_chars(line, 0, k);
            let b = slice_chars(line, k + 2, n);
            (a, b)
        },
        None => {
            proof {
                assert(line@.subrange(0, line@.len() as int) =~= line@);
            }
            (slice_chars(line, 0, line.len()), Vec::new())
        },
    };
    proof {
        assert(description@ =~= match find_seq(line@, seq![' ', ' ']) {
            Some(k) => line@.skip(k + 2),
            None => Seq::<char>::empty(),
        });
    }
    let a = skip_ws_exec(&specification, 0);
    let start = slice_chars(&specification, a, specification.len());
    if !starts_with_exec(&start, &dash) {
        return None;
    }
    let ws = words_exec(&specification);
    let tokens = word_tokens_exec(&ws);
    let d = trim_chars(&description);
    let desc = if d.len() > 0 { Some(d) } else { None };
    Some((tokens, desc))
}

fn says_repeatable_exec(description: &Option<Vec<char>>) -> (r: bool)
    ensures
        r == says_repeatable(opt_chars(*description)),
{
    match description {
        None => false,
        Some(text) => {
            let lower = lower_chars(text);
            let ws = words_exec(&lower);
            let ghost wv = chars_view(ws@);
            let not_word = lit("not");
            let no_word = lit("no");
            let never_word = lit("never");
            let mut i: usize = 0;
            while i < ws.len()
                invariant
                    wv == chars_view(ws@),
                    wv == words(lower@),
                    lower@ == ascii_lower_seq(text@),
                    opt_chars(*description) == Some(text@),
                    not_word@ == "not"@,
                    no_word@ == "no"@,
                    never_word@ == "never"@,
                    0 <= i <= ws.len(),
                    forall|k: int| 0 <= k < i ==> !(wv[k] == "not"@ || wv[k] == "no"@ || wv[k] == "never"@),
                decreases ws.len() - i,
            {
                assert(wv[i as int] == ws@[i as int]@);
                if chars_eq(&ws[i], &not_word) || chars_eq(&ws[i], &no_word) || chars_eq(&ws[i], &never_word) {
                    proof {
                        let ghost wl = words(ascii_lower_seq(text@));
                        assert(wl[i as int] == wv[i as int]);
                        assert(0 <= i < wl.len() && (wl[i as int] == "not"@ || wl[i as int] == "no"@ || wl[i as int] == "never"@));
                        assert(exists|j: int| 0 <= j < wl.len() && (wl[j] == "not"@ || wl[j] == "no"@ || wl[j] == "never"@));
                        assert(opt_chars(*description) == Some(text@));
                    }
                    return false;
                }
                i = i + 1;
            }
            let repeatable = lit("repeatable");
            let multiple = lit("multiple times");
            contains_exec(&lower, &repeatable) || contains_exec(&lower, &multiple)
        },
    }
}

fn is_section_heading_exec(t: &Vec<char>) -> (r: bool)
    ensures
        r == is_section_heading(t@),
{
    let colon = lit(":");
    proof {
        reveal_strlit(":");
        assert(colon@ =~= seq![':']);
    }
    let u = lower_chars(&trim_end_set_exec(t, &colon));
    chars_eq(&u, &lit("options")) || chars_eq(&u, &lit("flags"))
}

/// Whether the UTF-8 encoding of `t` is shorter than `limit` bytes.
fn byte_len_below(t: &Vec<char>, limit: usize) -> (r: bool)
    ensures
        r == (utf8_bytes(t@).len() < limit),
{
    if limit == 0 {
        return false;
    }
    let mut total: usize = 0;
    let mut i: usize = 0;
    while i < t.len()
        invariant
            0 <= i <= t.len(),
            total == utf8_bytes(t@.take(i as int)).len(),
            total < limit,
        decreases t.len() - i,
    {
        proof {
            lemma_encode_push(t@.take(i as int), t@[i as int]);
            assert(t@.take(i as int).push(t@[i as int]) =~= t@.take(i as int + 1));
        }
        let w = utf8_width(t[i]);
        if w >= limit - total {
            proof {
                crate::text::lemma_encode_take_le(t@, i as int + 1);
            }
            return false;
        }
        total = total + w;
        i = i + 1;
    }
    proof {
        assert(t@.take(t@.len() as int) =~= t@);
    }
    true
}

fn is_heading_exec(t: &Vec<char>) -> (r: bool)
    ensures
        r == is_heading(t@),
{
    t.len() > 0 && t[0] != '-' && t[t.len() - 1] == ':' && byte_len_below(t, 80)
}

fn is_usage_line_exec(t: &Vec<char>) -> (r: bool)
    ensures
        r == is_usage_line(t@),
{
    let lower = lower_chars(t);
    starts_with_exec(&lower, &lit("usage:")) || starts_with_exec(&lower, &lit("synopsis:"))
}

fn all_name_chars(name: &Vec<char>) -> (r: bool)
    ensures
        r == (forall|i: int| 0 <= i < name@.len() ==> is_name_char(#[trigger] name@[i])),
{
    let mut i: usize = 0;
    while i < name.len()
        invariant
            0 <= i <= name.len(),
            forall|k: int| 0 <= k < i ==> is_name_char(#[trigger] name@[k]),
        decreases name.len() - i,
    {
        let c = name[i];
        if !(('a' <= c && c <= 'z') || ('A' <= c && c <= 'Z') || ('0' <= c && c <= '9') || c == '_') {
            return false;
        }
        i = i + 1;
    }
    true
}

fn usage_positional_exec(token: &Vec<char>) -> (r: Option<PositionalSpec>)
    ensures
        match usage_positional(token@) {
            Some(m) => r matches Some(p) && positional_matches(p, m),
            None => r is None,
        },
{
    let open = lit("[");
    let brackets = lit("[]");
    let angles = lit("<>");
    let dash = lit("-");
    proof {
        reveal_strlit("[");
        reveal_strlit("[]");
        reveal_strlit("<>");
        reveal_strlit("-");
        assert(open@ =~= seq!['[']);
        assert(brackets@ =~= seq!['[', ']']);
        assert(angles@ =~= seq!['<', '>']);
        assert(dash@ =~= seq!['-']);
    }
    let optional = starts_with_exec(token, &open);
    let t = trim_set_exec(token, &brackets);
    if t.len() == 0 || starts_with_exec(&t, &dash) || chars_eq(&lower_chars(&t), &lit("options")) {
        return None;
    }
    let name = trim_set_exec(&t, &angles);
    if all_name_chars(&name) {
        Some(PositionalSpec {
            name: string_of(&name),
            description: None,
            arity: ValueArity::Unknown,
            value_type: ValueType::Unknown,
            required: !optional,
            possible_values: Vec::new(),
            source_span: None,
        })
    } else {
        None
    }
}

pub open spec fn positionals_match(ps: Seq<PositionalSpec>, ms: Seq<PositionalModel>) -> bool {
    ps.len() == ms.len() && forall|i: int| 0 <= i < ms.len() ==> positional_matches(#[trigger] ps[i], ms[i])
}

/// Appends the positionals of a usage line to `out`.
fn push_usage_positionals(out: &mut Vec<PositionalSpec>, line: &Vec<char>, Ghost(ms): Ghost<Seq<PositionalModel>>)
    requires
        positionals_match(old(out)@, ms),
    ensures
        positionals_match(final(out)@, ms + usage_positionals(line@)),
{
    let colon = lit(":");
    proof {
        reveal_strlit(":");
        assert(colon@ =~= seq![':']);
    }
    let k = find_any_exec(line, &colon, 0);
    if k >= line.len() {
        proof {
            assert(ms + usage_positionals(line@) =~= ms);
        }
        return;
    }
    let rest = slice_chars(line, k + 1, line.len());
    let ws = words_exec(&rest);
    let ghost wv = chars_view(ws@);
    let mut i: usize = 0;
    proof {
        assert(ms + usage_positionals_of(wv, 0) =~= ms);
    }
    while i < ws.len()
        invariant
            wv == chars_view(ws@),
            wv == words(rest@),
            rest@ == line@.subrange(k + 1, line@.len() as int),
            k < line@.len(),
            k == find_any_from(line@, seq![':'], 0),
            0 <= i <= ws.len(),
            positionals_match(out@, ms + usage_positionals_of(wv, i as int)),
        decreases ws.len() - i,
    {
        assert(wv[i as int] == ws@[i as int]@);
        let p = usage_positional_exec(&ws[i]);
        match p {
            Some(spec) => {
                let ghost before = out@;
                out.push(spec);
                proof {
                    let m = usage_positional(wv[i as int])->0;
                    assert(usage_positionals_of(wv, i as int + 1) == usage_positionals_of(wv, i as int).push(m));
                    assert(ms + usage_positionals_of(wv, i as int + 1) =~= (ms + usage_positionals_of(wv, i as int)).push(m));
                    assert(out@ == before.push(spec));
                }
            },
            None => {
                proof {
                    assert(usage_positionals_of(wv, i as int + 1) == usage_positionals_of(wv, i as int));
                }
            },
        }
        i = i + 1;
    }
}

/// The values of a possible-values list as strings.
fn possible_values_exec(values: &Vec<char>) -> (r: Vec<String>)
    ensures
        r@.map_values(|v: String| v@) == possible_values_of(values@),
{
    let separators = lit(",|");
    proof {
        reveal_strlit(",|");
        assert(separators@ =~= seq![',', '|']);
    }
    let p = pieces_exec(values, &separators);
    let ghost pv = chars_view(p@);
    let mut out: Vec<String> = Vec::new();
    let mut j: usize = 0;
    proof {
        assert(out@.map_values(|v: String| v@) =~= trimmed_values(pv, 0));
    }
    while j < p.len()
        invariant
            pv == chars_view(p@),
            pv == pieces(values@, seq![',', '|']),
            0 <= j <= p.len(),
            out@.map_values(|v: String| v@) == trimmed_values(pv, j as int),
        decreases p.len() - j,
    {
        assert(pv[j as int] == p@[j as int]@);
        let v = trim_chars(&p[j]);
        if v.len() > 0 {
            let ghost before = out@;
            out.push(string_of(&v));
            proof {
                assert(out@.map_values(|v: String| v@) =~= before.map_values(|v: String| v@).push(v@));
            }
        }
        j = j + 1;
    }
    out
}

/// The spelling of a name as characters.
fn spelling_chars(name: &OptionName) -> (r: Vec<char>)
    ensures
        r@ == name_spelling(name_model(*name)),
{
    let mut r: Vec<char> = Vec::new();
    r.push('-');
    match name {
        OptionName::Short(c) => {
            r.push(*c);
        },
        OptionName::Long(value) => {
            r.push('-');
            let mut v = chars_of(value.as_str());
            r.append(&mut v);
        },
        OptionName::SingleDashLong(value) => {
            let mut v = chars_of(value.as_str());
            r.append(&mut v);
        },
    }
    proof {
        assert(r@ =~= name_spelling(name_model(*name)));
    }
    r
}

fn names_have_spelling(names: &Vec<OptionName>, spelling: &Vec<char>) -> (r: bool)
    ensures
        r == has_spelling(names_model(names@), spelling@),
{
    let ghost nm = names_model(names@);
    let mut k: usize = 0;
    while k < names.len()
        invariant
            nm == names_model(names@),
            0 <= k <= names.len(),
            forall|j: int| 0 <= j < k ==> name_spelling(#[trigger] nm[j]) != spelling@,
        decreases names.len() - k,
    {
        let sp = spelling_chars(&names[k]);
        if chars_eq(&sp, spelling) {
            proof {
                assert(name_spelling(nm[k as int]) == spelling@);
            }
            return true;
        }
        k = k + 1;
    }
    false
}

pub open spec fn options_match(os: Seq<OptionSpec>, ms: Seq<OptionModel>) -> bool {
    os.len() == ms.len() && forall|i: int| 0 <= i < ms.len() ==> option_matches(#[trigger] os[i], ms[i], None)
}

/// The first option with a name spelled `spelling`.
fn find_option_exec(options: &Vec<OptionSpec>, spelling: &Vec<char>, Ghost(ms): Ghost<Seq<OptionModel>>) -> (r: Option<usize>)
    requires
        options@.len() == ms.len(),
        forall|i: int| 0 <= i < ms.len() ==> names_model(#[trigger] options@[i].names@) == ms[i].names,
    ensures
        match find_option_with(ms, spelling@, 0) {
            Some(o) => r matches Some(x) && x == o,
            None => r is None,
        },
        r matches Some(x) ==> x < options@.len(),
{
    let mut o: usize = 0;
    while o < options.len()
        invariant
            options@.len() == ms.len(),
            forall|i: int| 0 <= i < ms.len() ==> names_model(#[trigger] options@[i].names@) == ms[i].names,
            0 <= o <= options.len(),
            find_option_with(ms, spelling@, o as int) == find_option_with(ms, spelling@, 0),
        decreases options.len() - o,
    {
        assert(names_model(options@[o as int].names@) == ms[o as int].names);
        if names_have_spelling(&options[o].names, spelling) {
            return Some(o);
        }
        o = o + 1;
    }
    None
}

fn spelling_taken_exec(options: &Vec<OptionSpec>, spelling: &Vec<char>, Ghost(ms): Ghost<Seq<OptionModel>>) -> (r: bool)
    requires
        options@.len() == ms.len(),
        forall|i: int| 0 <= i < ms.len() ==> names_model(#[trigger] options@[i].names@) == ms[i].names,
    ensures
        r == spelling_taken(ms, spelling@),
{
    let mut o: usize = 0;
    while o < options.len()
        invariant
            options@.len() == ms.len(),
            forall|i: int| 0 <= i < ms.len() ==> names_model(#[trigger] options@[i].names@) == ms[i].names,
            0 <= o <= options.len(),
            forall|j: int| 0 <= j < o ==> !has_spelling(#[trigger] ms[j].names, spelling@),
        decreases options.len() - o,
    {
        assert(names_model(options@[o as int].names@) == ms[o as int].names);
        if names_have_spelling(&options[o].names, spelling) {
            return true;
        }
        o = o + 1;
    }
    false
}

/// The parser's state while it reads the help text.
struct Builder {
    in_section: bool,
    options: Vec<OptionSpec>,
    last_option: Option<usize>,
    usage: Vec<String>,
    positionals: Vec<PositionalSpec>,
    warnings: Vec<ParseWarning>,
}

pub open spec fn warnings_match(ws: Seq<ParseWarning>, ms: Seq<(int, Seq<char>)>) -> bool {
    ws.len() == ms.len() && forall|i: int| 0 <= i < ms.len() ==> #[trigger] ws[i].line == ms[i].0 && ws[i].message@ == ms[i].1
}

spec fn builder_matches(b: Builder, s: ParseState) -> bool {
    &&& b.in_section == s.in_section
    &&& options_match(b.options@, s.options)
    &&& forall|i: int| 0 <= i < s.options.len() ==> (#[trigger] s.options[i]).names.len() > 0
    &&& match b.last_option {
        Some(k) => s.last_option == Some(k as int) && k < b.options@.len(),
        None => s.last_option is None,
    }
    &&& b.usage@.map_values(|u: String| u@) == s.usage
    &&& positionals_match(b.positionals@, s.positionals)
    &&& warnings_match(b.warnings@, s.warnings)
}

fn warn_exec(b: &mut Builder, number: usize, message: &str, Ghost(s): Ghost<ParseState>)
    requires
        builder_matches(*old(b), s),
    ensures
        builder_matches(*final(b), warn(s, number as int, message@)),
{
    let ghost before = b.warnings@;
    b.warnings.push(ParseWarning { line: number, message: message.to_owned() });
    proof {
        let w = warn(s, number as int, message@);
        assert(b.warnings@ == before.push(b.warnings@.last()));
        assert forall|i: int| 0 <= i < w.warnings.len() implies #[trigger] b.warnings@[i].line == w.warnings[i].0 && b.warnings@[i].message@ == w.warnings[i].1 by {
            if i < before.len() {
                assert(b.warnings@[i] == before[i]);
            }
        }
    }
}

fn option_line_exec(b: &mut Builder, t: &Vec<char>, number: usize, Ghost(s): Ghost<ParseState>)
    requires
        builder_matches(*old(b), s),
    ensures
        builder_matches(*final(b), option_line_step(s, t@, number as int)),
{
    let split = split_option_line_exec(t);
    let (tokens, description) = match split {
        None => {
            warn_exec(b, number, "ambiguous option line skipped", Ghost(s));
            return;
        },
        Some(pair) => pair,
    };
    let ghost tv = chars_view(tokens@);
    let ghost sl = split_option_line(t@);
    assert(sl == Some((tv, opt_chars(description))));
    let mut names: Vec<OptionName> = Vec::new();
    let mut k: usize = 0;
    while k < tokens.len()
        invariant
            tv == chars_view(tokens@),
            sl == Some((tv, opt_chars(description))),
            sl == split_option_line(t@),
            0 <= k <= tokens.len(),
            names_model(names@) == parsed_names(tv, k as int),
        decreases tokens.len() - k,
    {
        assert(tv[k as int] == tokens@[k as int]@);
        match parse_name_exec(&tokens[k]) {
            Some(name) => {
                let ghost before = names@;
                names.push(name);
                proof {
                    assert(names_model(names@) =~= names_model(before).push(name_model(name)));
                }
            },
            None => {},
        }
        k = k + 1;
    }
    let ghost nm = names_model(names@);
    if names.len() == 0 {
        warn_exec(b, number, "unsupported option spelling skipped", Ghost(s));
        return;
    }
    let mut j: usize = 0;
    while j < names.len()
        invariant
            builder_matches(*b, s),
            nm == names_model(names@),
            nm == parsed_names(tv, tv.len() as int),
            sl == Some((tv, opt_chars(description))),
            sl == split_option_line(t@),
            0 <= j <= names.len(),
            forall|x: int| 0 <= x < j ==> !spelling_taken(s.options, name_spelling(#[trigger] nm[x])),
        decreases names.len() - j,
    {
        let sp = spelling_chars(&names[j]);
        proof {
            assert forall|i: int| 0 <= i < s.options.len() implies names_model(#[trigger] b.options@[i].names@) == s.options[i].names by {
                assert(option_matches(b.options@[i], s.options[i], None));
            }
        }
        if spelling_taken_exec(&b.options, &sp, Ghost(s.options)) {
            proof {
                assert(spelling_taken(s.options, name_spelling(nm[j as int])));
                assert(exists|x: int| 0 <= x < nm.len() && spelling_taken(s.options, name_spelling(#[trigger] nm[x])));
            }
            warn_exec(b, number, "duplicate option spelling skipped", Ghost(s));
            return;
        }
        j = j + 1;
    }
    let arity = match first_arity_exec(&tokens) {
        Some(a) => a,
        None => ValueArity::NoValue,
    };
    let value_name = match first_value_name_exec(&tokens) {
        Some(v) => Some(string_of(&v)),
        None => None,
    };
    let repeatable = says_repeatable_exec(&description);
    let id_chars = spelling_chars(&names[0]);
    let description_text = match description {
        Some(d) => Some(string_of(&d)),
        None => None,
    };
    let option = OptionSpec {
        id: OptionId(string_of(&id_chars)),
        names,
        description: description_text,
        value: ValueSpec {
            arity,
            name: value_name,
            value_type: ValueType::Unknown,
            possible_values: Vec::new(),
        },
        repeatability: if repeatable { Repeatability::Repeatable } else { Repeatability::Unknown },
        required: false,
        scope: Scope::Unknown,
        hidden: false,
        negates: None,
        conflicts_with: Vec::new(),
        requires: Vec::new(),
        insertion_policy: InsertionPolicy::Append,
        source_span: None,
    };
    let ghost before = b.options@;
    b.last_option = Some(b.options.len());
    b.options.push(option);
    proof {
        let r = option_line_step(s, t@, number as int);
        assert(names_model(option.names@) == nm);
        assert(!(exists|x: int| 0 <= x < nm.len() && spelling_taken(s.options, name_spelling(#[trigger] nm[x]))));
        assert(r.options == s.options.push(r.options.last()));
        let m = r.options.last();
        assert(m.names == nm);
        assert(option.id.view_id() == option_id(m));
        assert(opt_view(option.description) == m.description);
        assert(option.value.arity == m.arity);
        assert(opt_view(option.value.name) == m.value_name);
        assert(option.value.possible_values@.map_values(|v: String| v@) == m.possible_values);
        assert((option.repeatability == Repeatability::Repeatable) == m.repeatable);
        assert(option.conflicts_with@.len() == 0);
        assert(option_matches(option, r.options.last(), None));
        assert forall|i: int| 0 <= i < r.options.len() implies option_matches(#[trigger] b.options@[i], r.options[i], None) by {
            if i < before.len() {
                assert(b.options@[i] == before[i]);
                assert(option_matches(before[i], s.options[i], None));
            }
        }
    }
}

/// The parser's handling of one help line.
fn step_exec(b: &mut Builder, line: &Vec<char>, number: usize, Ghost(s): Ghost<ParseState>)
    requires
        builder_matches(*old(b), s),
    ensures
        builder_matches(*final(b), line_step(s, line@, number as int)),
{
    let t = trim_chars(line);
    if is_section_heading_exec(&t) {
        b.in_section = true;
        return;
    }
    let ghost s1 = if s.in_section && is_heading(t@) { ParseState { in_section: false, ..s } } else { s };
    if b.in_section && is_heading_exec(&t) {
        b.in_section = false;
    }
    assert(builder_matches(*b, s1));
    let ghost s2 = if is_usage_line(t@) {
        ParseState { usage: s1.usage.push(t@), positionals: s1.positionals + usage_positionals(t@), ..s1 }
    } else {
        s1
    };
    if is_usage_line_exec(&t) {
        let ghost before = b.usage@;
        b.usage.push(string_of(&t));
        push_usage_positionals(&mut b.positionals, &t, Ghost(s1.positionals));
        proof {
            assert(b.usage@.map_values(|u: String| u@) =~= before.map_values(|u: String| u@).push(t@));
        }
    }
    assert(builder_matches(*b, s2));
    let lower = lower_chars(&t);
    let marker_chars = lit("possible values:");
    proof {
        crate::scan::lemma_find_seq_from_bounds(lower@, marker_chars@, 0);
    }
    match find_seq_exec(&lower, &marker_chars) {
        Some(m) => {
            match b.last_option {
                Some(ix) => {
                    let n = t.len();
                    assert(m + marker_chars@.len() <= n);
                    let rest = slice_chars(&t, m + marker_chars.len(), n);
                    let values = trim_chars(&rest);
                    let pv = possible_values_exec(&values);
                    let ghost before = b.options@;
                    let mut o = b.options.remove(ix);
                    o.value.value_type = ValueType::Enum;
                    o.value.possible_values = pv;
                    b.options.insert(ix, o);
                    proof {
                        let r = line_step(s, line@, number as int);
                        assert(t@.skip(m + marker().len()) =~= rest@);
                        assert(b.options@ == before.update(ix as int, o));
                        assert forall|i: int| 0 <= i < r.options.len() implies option_matches(#[trigger] b.options@[i], r.options[i], None) by {
                            assert(option_matches(before[i], s2.options[i], None));
                        }
                        assert forall|i: int| 0 <= i < r.options.len() implies (#[trigger] r.options[i]).names.len() > 0 by {
                            assert(s2.options[i].names.len() > 0);
                        }
                    }
                },
                None => {
                    warn_exec(b, number, "possible-values marker has no preceding option", Ghost(s2));
                },
            }
        },
        None => {
            let dash = lit("-");
            proof {
                reveal_strlit("-");
                assert(dash@ =~= seq!['-']);
            }
            let starts = starts_with_exec(&t, &dash);
            let eligible = b.in_section || (b.options.len() == 0 && starts);
            if !eligible || !starts {
                if b.in_section && t.len() > 0 {
                    warn_exec(b, number, "non-option line in options section skipped", Ghost(s2));
                }
            } else {
                option_line_exec(b, &t, number, Ghost(s2));
            }
        },
    }
}

fn negated_base_exec(names: &Vec<OptionName>) -> (r: Option<Vec<char>>)
    ensures
        opt_chars(r) == negated_base(names_model(names@), names@.len() as int),
{
    let ghost nm = names_model(names@);
    let prefix = lit("no-");
    let mut last: Option<Vec<char>> = None;
    let mut i: usize = 0;
    while i < names.len()
        invariant
            nm == names_model(names@),
            prefix@ == "no-"@,
            0 <= i <= names.len(),
            opt_chars(last) == negated_base(nm, i as int),
        decreases names.len() - i,
    {
        match &names[i] {
            OptionName::Long(value) => {
                let v = chars_of(value.as_str());
                if starts_with_exec(&v, &prefix) {
                    proof {
                        reveal_strlit("no-");
                    }
                    let base = slice_chars(&v, 3, v.len());
                    proof {
                        assert(base@ =~= v@.skip(3));
                    }
                    last = Some(base);
                }
            },
            _ => {},
        }
        i = i + 1;
    }
    last
}

/// The option that option `i` negates, as an ID.
fn negation_target_exec(options: &Vec<OptionSpec>, i: usize, Ghost(ms): Ghost<Seq<OptionModel>>) -> (r: Option<OptionId>)
    requires
        i < options@.len(),
        options@.len() == ms.len(),
        forall|j: int| 0 <= j < ms.len() ==> names_model(#[trigger] options@[j].names@) == ms[j].names,
        forall|j: int| 0 <= j < ms.len() ==> (#[trigger] options@[j]).id.view_id() == option_id(ms[j]),
    ensures
        match r {
            Some(id) => negation_target(ms, i as int) == Some(id.view_id()),
            None => negation_target(ms, i as int) is None,
        },
{
    assert(names_model(options@[i as int].names@) == ms[i as int].names);
    match negated_base_exec(&options[i].names) {
        None => None,
        Some(base) => {
            let mut spelling = lit("--");
            let mut rest = base;
            spelling.append(&mut rest);
            proof {
                reveal_strlit("--");
                assert(spelling@ =~= seq!['-', '-'] + base@);
            }
            match find_option_exec(options, &spelling, Ghost(ms)) {
                Some(o) => {
                    assert(options@[o as int].id.view_id() == option_id(ms[o as int]));
                    Some(OptionId(options[o].id.0.clone()))
                },
                None => None,
            }
        },
    }
}

impl GenericHelpParser {
    /// Parses generic help text for `executable`: a blank executable name
    /// and help text over `MAX_HELP_BYTES` bytes are refused; otherwise the
    /// report describes every line of the text (see `report_matches`).
    pub fn parse(executable: &str, help: &str) -> (r: Result<ParseReport, GenericHelpError>)
        ensures
            is_blank(executable@) ==> r matches Err(GenericHelpError::EmptyExecutable),
            !is_blank(executable@) && help.len() > MAX_HELP_BYTES ==> r == Err::<ParseReport, GenericHelpError>(
                GenericHelpError::InputTooLarge { bytes: help.len(), maximum: MAX_HELP_BYTES },
            ),
            !is_blank(executable@) && help.len() <= MAX_HELP_BYTES ==> (r matches Ok(report)
                && report_matches(report, executable@, help@)),
    {
        let exe = chars_of(executable);
        let trimmed = trim_chars(&exe);
        if trimmed.len() == 0 {
            return Err(GenericHelpError::EmptyExecutable);
        }
        if help.len() > MAX_HELP_BYTES {
            return Err(GenericHelpError::InputTooLarge { bytes: help.len(), maximum: MAX_HELP_BYTES });
        }
        let text = chars_of(help);
        let ls = lines_exec(&text);
        let ghost lv = chars_view(ls@);
        let mut b = Builder {
            in_section: false,
            options: Vec::new(),
            last_option: None,
            usage: Vec::new(),
            positionals: Vec::new(),
            warnings: Vec::new(),
        };
        proof {
            assert(b.usage@.map_values(|u: String| u@) =~= Seq::<Seq<char>>::empty());
        }
        let mut i: usize = 0;
        while i < ls.len()
            invariant
                lv == chars_view(ls@),
                lv == lines(help@),
                0 <= i <= ls.len(),
                builder_matches(b, run_lines(lv, i as int)),
            decreases ls.len() - i,
        {
            assert(lv[i as int] == ls@[i as int]@);
            step_exec(&mut b, &ls[i], i + 1, Ghost(run_lines(lv, i as int)));
            i = i + 1;
        }
        let ghost fin = run_lines(lv, lv.len() as int);
        let Builder { in_section: _, options: mut options, last_option: _, usage, positionals, warnings } = b;
        let mut k: usize = 0;
        while k < options.len()
            invariant
                options@.len() == fin.options.len(),
                0 <= k <= options@.len(),
                forall|j: int| 0 <= j < fin.options.len() ==> names_model(#[trigger] options@[j].names@) == fin.options[j].names,
                forall|j: int| 0 <= j < fin.options.len() ==> (#[trigger] options@[j]).id.view_id() == option_id(fin.options[j]),
                forall|j: int| 0 <= j < k ==> option_matches(#[trigger] options@[j], fin.options[j], negation_target(fin.options, j)),
                forall|j: int| k <= j < fin.options.len() ==> option_matches(#[trigger] options@[j], fin.options[j], None),
            decreases options@.len() - k,
        {
            let target = negation_target_exec(&options, k, Ghost(fin.options));
            let ghost before = options@;
            let mut o = options.remove(k);
            o.negates = target;
            options.insert(k, o);
            proof {
                assert(options@ == before.update(k as int, o));
                assert(option_matches(before[k as int], fin.options[k as int], None));
                assert forall|j: int| 0 <= j < fin.options.len() implies names_model(#[trigger] options@[j].names@) == fin.options[j].names by {
                    assert(names_model(before[j].names@) == fin.options[j].names);
                }
                assert forall|j: int| 0 <= j < fin.options.len() implies (#[trigger] options@[j]).id.view_id() == option_id(fin.options[j]) by {
                    assert(before[j].id.view_id() == option_id(fin.options[j]));
                }
                assert forall|j: int| 0 <= j < k + 1 implies option_matches(#[trigger] options@[j], fin.options[j], negation_target(fin.options, j)) by {
                    if j < k {
                        assert(option_matches(before[j], fin.options[j], negation_target(fin.options, j)));
                    }
                }
                assert forall|j: int| k + 1 <= j < fin.options.len() implies option_matches(#[trigger] options@[j], fin.options[j], None) by {
                    assert(option_matches(before[j], fin.options[j], None));
                }
            }
            k = k + 1;
        }
        let document = SchemaDocument {
            schema_version: SCHEMA_VERSION,
            root: CommandSpec {
                executable: ExecutableIdentity { name: executable.to_owned(), path: None },
                name: executable.to_owned(),
                description: None,
                usage,
                subcommands: Vec::new(),
                options,
                positionals,
                metadata: SpecMetadata {
                    source: HelpSource::GenericHelp,
                    parser: Some("generic-gnu-help".to_owned()),
                    confidence: Confidence::Medium,
                    executable_version: None,
                    fingerprint: None,
                    extensions: BTreeMap::new(),
                },
            },
        };
        Ok(ParseReport { document, warnings })
    }
}

impl GenericHelpError {
    /// The error as written in debug form: `EmptyExecutable`, or
    /// `InputTooLarge { bytes: <n>, maximum: <m> }`.
    pub open spec fn debug_view(self) -> Seq<char> {
        match self {
            GenericHelpError::EmptyExecutable => "EmptyExecutable"@,
            GenericHelpError::InputTooLarge { bytes, maximum } => "InputTooLarge { bytes: "@ + decimal(bytes as nat)
                + ", maximum: "@ + decimal(maximum as nat) + " }"@,
        }
    }

    pub fn debug_text(&self) -> (s: String)
        ensures
            s@ == self.debug_view(),
    {
        match self {
            GenericHelpError::EmptyExecutable => "EmptyExecutable".to_owned(),
            GenericHelpError::InputTooLarge { bytes, maximum } => {
                let mut s = "InputTooLarge { bytes: ".to_owned();
                push_decimal(&mut s, *bytes);
                s.append(", maximum: ");
                push_decimal(&mut s, *maximum);
                s.append(" }");
                s
            },
        }
    }
}

/// No two options share a spelling, and every option has a name.
pub open spec fn spellings_unique(options: Seq<OptionModel>) -> bool {
    &&& forall|i: int| 0 <= i < options.len() ==> (#[trigger] options[i]).names.len() > 0
    &&& forall|i: int, j: int, k: int, l: int|
        0 <= i < options.len() && 0 <= j < options.len() && i != j && 0 <= k < options[i].names.len() && 0 <= l
            < options[j].names.len() ==> name_spelling(#[trigger] options[i].names[k]) != name_spelling(
            #[trigger] options[j].names[l],
        )
}

proof fn lemma_option_line_keeps_unique(s: ParseState, t: Seq<char>, number: int)
    requires
        spellings_unique(s.options),
    ensures
        spellings_unique(option_line_step(s, t, number).options),
{
    let r = option_line_step(s, t, number);
    if r.options.len() != s.options.len() {
        let (tokens, description) = split_option_line(t)->0;
        let names = parsed_names(tokens, tokens.len() as int);
        assert(!(exists|k: int| 0 <= k < names.len() && spelling_taken(s.options, name_spelling(#[trigger] names[k]))));
        let n = s.options.len() as int;
        assert(r.options == s.options.push(r.options[n]));
        assert(r.options[n].names == names);
        assert forall|i: int, j: int, k: int, l: int|
            0 <= i < r.options.len() && 0 <= j < r.options.len() && i != j && 0 <= k < r.options[i].names.len() && 0
                <= l < r.options[j].names.len() implies name_spelling(#[trigger] r.options[i].names[k]) != name_spelling(
            #[trigger] r.options[j].names[l],
        ) by {
            if i == n {
                if name_spelling(r.options[i].names[k]) == name_spelling(r.options[j].names[l]) {
                    assert(has_spelling(s.options[j].names, name_spelling(names[k])));
                    assert(spelling_taken(s.options, name_spelling(names[k])));
                }
            } else if j == n {
                if name_spelling(r.options[i].names[k]) == name_spelling(r.options[j].names[l]) {
                    assert(has_spelling(s.options[i].names, name_spelling(names[l])));
                    assert(spelling_taken(s.options, name_spelling(names[l])));
                }
            } else {
                assert(r.options[i] == s.options[i] && r.options[j] == s.options[j]);
            }
        }
        assert forall|i: int| 0 <= i < r.options.len() implies (#[trigger] r.options[i]).names.len() > 0 by {
            if i < n {
                assert(r.options[i] == s.options[i]);
            }
        }
    }
}

proof fn lemma_line_keeps_unique(s: ParseState, line: Seq<char>, number: int)
    requires
        spellings_unique(s.options),
        s.last_option matches Some(ix) ==> 0 <= ix < s.options.len(),
    ensures
        spellings_unique(line_step(s, line, number).options),
        line_step(s, line, number).last_option matches Some(ix) ==> 0 <= ix < line_step(s, line, number).options.len(),
{
    let t = trim(line);
    if is_section_heading(t) {
    } else {
        let s1 = if s.in_section && is_heading(t) { ParseState { in_section: false, ..s } } else { s };
        let s2 = if is_usage_line(t) {
            ParseState { usage: s1.usage.push(t), positionals: s1.positionals + usage_positionals(t), ..s1 }
        } else {
            s1
        };
        assert(s2.options == s.options);
        let r = line_step(s, line, number);
        match find_seq(ascii_lower_seq(t), marker()) {
            Some(m) => {
                if let Some(ix) = s2.last_option {
                    assert(r.options.len() == s.options.len());
                    assert forall|i: int| 0 <= i < r.options.len() implies (#[trigger] r.options[i]).names == s.options[i].names by {
                    }
                    assert forall|i: int| 0 <= i < r.options.len() implies (#[trigger] r.options[i]).names.len() > 0 by {
                        assert(r.options[i].names == s.options[i].names);
                    }
                    assert forall|i: int, j: int, k: int, l: int|
                        0 <= i < r.options.len() && 0 <= j < r.options.len() && i != j && 0 <= k < r.options[i].names.len()
                            && 0 <= l < r.options[j].names.len() implies name_spelling(#[trigger] r.options[i].names[k])
                        != name_spelling(#[trigger] r.options[j].names[l]) by {
                        assert(r.options[i].names == s.options[i].names);
                        assert(r.options[j].names == s.options[j].names);
                    }
                }
            },
            None => {
                let eligible = s2.in_section || (s2.options.len() == 0 && starts_with(t, seq!['-']));
                if !eligible || !starts_with(t, seq!['-']) {
                } else {
                    lemma_option_line_keeps_unique(s2, t, number);
                }
            },
        }
    }
}

proof fn lemma_run_keeps_unique(ls: Seq<Seq<char>>, n: int)
    ensures
        spellings_unique(run_lines(ls, n).options),
        run_lines(ls, n).last_option matches Some(ix) ==> 0 <= ix < run_lines(ls, n).options.len(),
    decreases n,
{
    if n > 0 {
        lemma_run_keeps_unique(ls, n - 1);
        lemma_line_keeps_unique(run_lines(ls, n - 1), ls[n - 1], n);
    }
}

/// Options parsed from help text never share a rendered spelling, and each
/// has at least one name: a line whose spellings are already taken is
/// skipped, not merged.
pub proof fn law_parsed_spellings_are_unique(report: ParseReport, executable: Seq<char>, help: Seq<char>)
    requires
        report_matches(report, executable, help),
    ensures
        forall|i: int| 0 <= i < report.document.root.options@.len() ==> (#[trigger] report.document.root.options@[i]).names@.len() > 0,
        forall|i: int, j: int, k: int, l: int|
            0 <= i < report.document.root.options@.len() && 0 <= j < report.document.root.options@.len() && i != j
                && 0 <= k < report.document.root.options@[i].names@.len() && 0 <= l < report.document.root.options@[j].names@.len()
                ==> (#[trigger] report.document.root.options@[i].names@[k]).spelling_view()
                != (#[trigger] report.document.root.options@[j].names@[l]).spelling_view(),
{
    let ls = lines(help);
    let state = run_lines(ls, ls.len() as int);
    lemma_run_keeps_unique(ls, ls.len() as int);
    let os = report.document.root.options@;
    assert forall|i: int| 0 <= i < os.len() implies (#[trigger] os[i]).names@.len() > 0 by {
        assert(option_matches(os[i], state.options[i], negation_target(state.options, i)));
        assert(names_model(os[i].names@) == state.options[i].names);
        assert(state.options[i].names.len() > 0);
    }
    assert forall|i: int, j: int, k: int, l: int|
        0 <= i < os.len() && 0 <= j < os.len() && i != j && 0 <= k < os[i].names@.len() && 0 <= l < os[j].names@.len()
            implies (#[trigger] os[i].names@[k]).spelling_view() != (#[trigger] os[j].names@[l]).spelling_view() by {
        assert(option_matches(os[i], state.options[i], negation_target(state.options, i)));
        assert(option_matches(os[j], state.options[j], negation_target(state.options, j)));
        assert(names_model(os[i].names@)[k] == name_model(os[i].names@[k]));
        assert(names_model(os[j].names@)[l] == name_model(os[j].names@[l]));
        assert(name_spelling(name_model(os[i].names@[k])) == os[i].names@[k].spelling_view());
        assert(name_spelling(name_model(os[j].names@[l])) == os[j].names@[l].spelling_view());
        assert(name_spelling(state.options[i].names[k]) != name_spelling(state.options[j].names[l]));
    }
}

/// A help line that, trimmed, does not start with `-` never adds an option
/// and never renames one: prose that mentions flags is not read as options.
pub proof fn law_prose_lines_add_no_options(state: ParseState, line: Seq<char>, number: int)
    requires
        !starts_with(trim(line), seq!['-']),
        state.last_option matches Some(ix) ==> 0 <= ix < state.options.len(),
    ensures
        line_step(state, line, number).options.len() == state.options.len(),
        forall|i: int| 0 <= i < state.options.len() ==> (#[trigger] line_step(state, line, number).options[i]).names == state.options[i].names,
{
    let r = line_step(state, line, number);
    assert forall|i: int| 0 <= i < state.options.len() implies (#[trigger] r.options[i]).names == state.options[i].names by {
    }
}

proof fn lemma_trailing_colons(word: Seq<char>, colons: Seq<char>, k: int)
    requires
        word.len() > 0,
        word.last() != ':',
        forall|i: int| 0 <= i < colons.len() ==> colons[i] == ':',
        0 <= k <= colons.len(),
    ensures
        back_set(word + colons, seq![':'], 0, word.len() + k) == word.len(),
    decreases k,
{
    let t = word + colons;
    let set = seq![':'];
    if k == 0 {
        assert(t[word.len() - 1] == word.last());
        assert(!set.contains(word.last())) by {
            if set.contains(word.last()) {
                let x = choose|x: int| 0 <= x < set.len() && set[x] == word.last();
                assert(set[x] == ':');
            }
        }
    } else {
        lemma_trailing_colons(word, colons, k - 1);
        assert(t[word.len() + k - 1] == colons[k - 1]);
        assert(set[0] == ':');
        assert(set.contains(':'));
    }
}

/// A section-heading word followed by colons is a section heading.
proof fn lemma_heading_word(word: Seq<char>, colons: Seq<char>)
    requires
        ascii_lower_seq(word) == "flags"@ || ascii_lower_seq(word) == "options"@,
        forall|i: int| 0 <= i < colons.len() ==> colons[i] == ':',
    ensures
        is_section_heading(word + colons),
{
    reveal_strlit("flags");
    reveal_strlit("options");
    assert(word.len() == ascii_lower_seq(word).len());
    assert(word.len() > 0);
    assert(ascii_lower_seq(word)[word.len() - 1] == crate::text::ascii_lower(word.last()));
    assert(word.last() != ':') by {
        if word.last() == ':' {
            assert(crate::text::ascii_lower(':') == ':');
        }
    }
    lemma_trailing_colons(word, colons, colons.len() as int);
    assert(trim_end_set(word + colons, seq![':']) =~= word);
}

/// A heading line `Flags` (in any ASCII case, followed by any number of
/// colons, with any surrounding whitespace) opens an options section and
/// changes nothing else: the lines after it are read as option lines.
pub proof fn law_flags_heading_opens_options_section(state: ParseState, line: Seq<char>, number: int, word: Seq<char>, colons: Seq<char>)
    requires
        trim(line) == word + colons,
        ascii_lower_seq(word) == "flags"@,
        forall|i: int| 0 <= i < colons.len() ==> colons[i] == ':',
    ensures
        line_step(state, line, number) == (ParseState { in_section: true, ..state }),
{
    lemma_heading_word(word, colons);
}

/// `Flags` and `Options` headings are read alike: from any state, a line of
/// either kind leads to the same state.
pub proof fn law_flags_and_options_headings_agree(
    state: ParseState,
    flags_line: Seq<char>,
    options_line: Seq<char>,
    number: int,
    flags_word: Seq<char>,
    options_word: Seq<char>,
    colons1: Seq<char>,
    colons2: Seq<char>,
)
    requires
        trim(flags_line) == flags_word + colons1,
        ascii_lower_seq(flags_word) == "flags"@,
        trim(options_line) == options_word + colons2,
        ascii_lower_seq(options_word) == "options"@,
        forall|i: int| 0 <= i < colons1.len() ==> colons1[i] == ':',
        forall|i: int| 0 <= i < colons2.len() ==> colons2[i] == ':',
    ensures
        line_step(state, flags_line, number) == line_step(state, options_line, number),
{
    lemma_heading_word(flags_word, colons1);
    lemma_heading_word(options_word, colons2);
}

/// A token with no `=` and no `<` that ends in `...` (such as `DIR...`)
/// shows a value given several times.
pub proof fn law_trailing_dots_mean_multiple(token: Seq<char>)
    requires
        forall|i: int| 0 <= i < token.len() ==> token[i] != '=' && token[i] != '<',
        token.len() >= 3,
        token[token.len() - 3] == '.',
        token[token.len() - 2] == '.',
        token[token.len() - 1] == '.',
    ensures
        value_arity(token) == Some(ValueArity::Multiple),
{
    assert forall|at: int| !occurs_at(token, seq!['[', '='], at) by {
        if occurs_at(token, seq!['[', '='], at) {
            assert(token.subrange(at, at + 2)[1] == token[at + 1]);
        }
    }
    assert forall|at: int| !occurs_at(token, seq!['[', '<'], at) by {
        if occurs_at(token, seq!['[', '<'], at) {
            assert(token.subrange(at, at + 2)[1] == token[at + 1]);
        }
    }
    assert forall|at: int| !occurs_at(token, seq!['='], at) by {
        if occurs_at(token, seq!['='], at) {
            assert(token.subrange(at, at + 1)[0] == token[at]);
        }
    }
    assert forall|at: int| !occurs_at(token, seq!['<'], at) by {
        if occurs_at(token, seq!['<'], at) {
            assert(token.subrange(at, at + 1)[0] == token[at]);
        }
    }
    assert(token.subrange(token.len() - 3, token.len() as int) =~= seq!['.', '.', '.']);
}

/// A description that says "multiple times" (in any ASCII case) and has none
/// of the words "not", "no" and "never" marks its option repeatable.
pub proof fn law_multiple_times_means_repeatable(description: Seq<char>, at: int)
    requires
        0 <= at,
        at + 14 <= description.len(),
        ascii_lower_seq(description.subrange(at, at + 14)) == "multiple times"@,
        forall|i: int| 0 <= i < words(ascii_lower_seq(description)).len() ==> {
            let w = #[trigger] words(ascii_lower_seq(description))[i];
            w != "not"@ && w != "no"@ && w != "never"@
        },
    ensures
        says_repeatable(Some(description)),
{
    reveal_strlit("multiple times");
    let lower = ascii_lower_seq(description);
    assert(lower.subrange(at, at + 14) =~= ascii_lower_seq(description.subrange(at, at + 14)));
    assert(occurs_at(lower, "multiple times"@, at));
    assert(contains_seq(lower, "multiple times"@));
}

/// A description that holds one of the words "not", "no" or "never" (in any
/// ASCII case) never marks its option repeatable.
pub proof fn law_negated_descriptions_are_not_repeatable(description: Seq<char>, i: int)
    requires
        0 <= i < words(ascii_lower_seq(description)).len(),
        words(ascii_lower_seq(description))[i] == "not"@ || words(ascii_lower_seq(description))[i] == "no"@
            || words(ascii_lower_seq(description))[i] == "never"@,
    ensures
        !says_repeatable(Some(description)),
{
}

} // verus!
