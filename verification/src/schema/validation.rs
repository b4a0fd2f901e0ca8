//! Validation of schema documents. Every rule that a document breaks yields
//! one error with a JSON-like path, a stable code and a message; errors come
//! in traversal order.
use vstd::prelude::*;
use crate::schema::{
    CommandSpec, OptionId, OptionName, OptionSpec, PositionalSpec, SchemaDocument, SourceSpan,
    SpecMetadata, SubcommandSpec, ValueArity, ValueType, MAX_COMMAND_DEPTH, SCHEMA_VERSION,
};
use crate::text::{
    check_token, check_trimmed, concat3, decimal, is_token, is_trimmed, push_char, push_decimal,
};

verus! {

#[derive(Clone, Debug, PartialEq, Eq)]
pub struct ValidationError {
    pub path: String,
    pub code: &'static str,
    pub message: String,
}

#[derive(Clone, Debug, PartialEq, Eq)]
pub struct ValidationErrors {
    pub errors: Vec<ValidationError>,
}

impl ValidationErrors {
    /// One line per error, `path: message (code)`, in order.
    pub fn message(&self) -> (m: String)
        ensures
            m@ == errors_text(errors_view(self.errors@)),
    {
        let mut text = String::new();
        let mut i: usize = 0;
        while i < self.errors.len()
            invariant
                0 <= i <= self.errors.len(),
                text@ == errors_text(errors_view(self.errors@.take(i as int))),
            decreases self.errors.len() - i,
        {
            let e = &self.errors[i];
            let ghost before = text@;
            if i != 0 {
                push_char(&mut text, '\n');
            }
            text.append(e.path.as_str());
            text.append(": ");
            text.append(e.message.as_str());
            text.append(" (");
            text.append(e.code);
            push_char(&mut text, ')');
            proof {
                let prefix = self.errors@.take(i as int + 1);
                assert(prefix.drop_last() =~= self.errors@.take(i as int));
                assert(errors_view(prefix).drop_last() =~= errors_view(self.errors@.take(i as int)));
                assert(errors_view(prefix).last() == error_view(*e));
                assert(text@ =~= errors_text(errors_view(prefix)));
            }
            i = i + 1;
        }
        proof {
            assert(self.errors@.take(self.errors@.len() as int) =~= self.errors@);
        }
        text
    }
}

/// `path: message (code)`
pub open spec fn error_line(e: ErrorView) -> Seq<char> {
    e.0 + ": "@ + e.2 + " ("@ + e.1 + seq![')']
}

/// The lines of all errors, separated by newlines.
pub open spec fn errors_text(errors: Seq<ErrorView>) -> Seq<char>
    decreases errors.len(),
{
    if errors.len() == 0 {
        Seq::empty()
    } else if errors.len() == 1 {
        error_line(errors[0])
    } else {
        errors_text(errors.drop_last()).push('\n') + error_line(errors.last())
    }
}

/// An error as path, code and message.
pub type ErrorView = (Seq<char>, Seq<char>, Seq<char>);

pub open spec fn error_view(e: ValidationError) -> ErrorView {
    (e.path@, e.code@, e.message@)
}

pub open spec fn errors_view(errors: Seq<ValidationError>) -> Seq<ErrorView> {
    errors.map_values(|e: ValidationError| error_view(e))
}

pub open spec fn one(path: Seq<char>, code: Seq<char>, message: Seq<char>) -> Seq<ErrorView> {
    seq![(path, code, message)]
}

pub open spec fn when(condition: bool, errors: Seq<ErrorView>) -> Seq<ErrorView> {
    if condition {
        errors
    } else {
        Seq::empty()
    }
}

/// `path.name`
pub open spec fn field(path: Seq<char>, name: Seq<char>) -> Seq<char> {
    path.push('.') + name
}

/// `path[index]`
pub open spec fn indexed(path: Seq<char>, index: nat) -> Seq<char> {
    path.push('[') + decimal(index) + seq![']']
}

pub open spec fn token_errors(value: Seq<char>, path: Seq<char>, code: Seq<char>) -> Seq<ErrorView> {
    when(
        !is_token(value),
        one(path, code, "token must be nonempty, trimmed, and contain no whitespace or controls"@),
    )
}

pub open spec fn trimmed_errors(value: Seq<char>, path: Seq<char>, code: Seq<char>) -> Seq<ErrorView> {
    when(!is_trimmed(value), one(path, code, "value must be nonempty and trimmed"@))
}

pub open spec fn optional_trimmed_errors(value: Option<String>, path: Seq<char>, code: Seq<char>) -> Seq<ErrorView> {
    match value {
        Some(v) => trimmed_errors(v@, path, code),
        None => Seq::empty(),
    }
}

pub open spec fn metadata_errors(metadata: SpecMetadata, path: Seq<char>) -> Seq<ErrorView> {
    optional_trimmed_errors(metadata.parser, field(path, "parser"@), "invalid_metadata"@)
        + optional_trimmed_errors(metadata.executable_version, field(path, "executable_version"@), "invalid_metadata"@)
        + optional_trimmed_errors(metadata.fingerprint, field(path, "fingerprint"@), "invalid_metadata"@)
}

pub open spec fn span_errors(span: Option<SourceSpan>, path: Seq<char>) -> Seq<ErrorView> {
    match span {
        Some(s) => when(s.start >= s.end, one(path, "invalid_source_span"@, "source span start must be less than end"@)),
        None => Seq::empty(),
    }
}

/// Option IDs are nonempty ASCII `[A-Za-z0-9._-]+`.
pub open spec fn is_id_char(c: char) -> bool {
    ('a' <= c <= 'z') || ('A' <= c <= 'Z') || ('0' <= c <= '9') || c == '.' || c == '_' || c == '-'
}

pub open spec fn valid_option_id(id: Seq<char>) -> bool {
    id.len() > 0 && forall|i: int| 0 <= i < id.len() ==> is_id_char(#[trigger] id[i])
}

pub open spec fn is_ascii_graphic(c: char) -> bool {
    '!' <= c <= '~'
}

pub open spec fn valid_long_name(v: Seq<char>) -> bool {
    v.len() > 0 && v[0] != '-' && forall|i: int| 0 <= i < v.len() ==> is_ascii_graphic(#[trigger] v[i])
}

pub open spec fn valid_option_name(name: OptionName) -> bool {
    match name {
        OptionName::Short(c) => is_ascii_graphic(c) && c != '-',
        OptionName::Long(v) => valid_long_name(v@),
        OptionName::SingleDashLong(v) => v@.len() >= 2 && valid_long_name(v@),
    }
}

pub open spec fn strings_view(values: Seq<String>) -> Seq<Seq<char>> {
    values.map_values(|v: String| v@)
}

/// `values[k]` already occurs before position `k`.
pub open spec fn repeated_before(values: Seq<Seq<char>>, k: int) -> bool {
    exists|j: int| 0 <= j < k && values[j] == values[k]
}

pub open spec fn possible_value_errors(values: Seq<Seq<char>>, path: Seq<char>, n: int) -> Seq<ErrorView>
    decreases n,
{
    if n <= 0 {
        Seq::empty()
    } else {
        let k = n - 1;
        let p = indexed(field(path, "possible_values"@), k as nat);
        possible_value_errors(values, path, k) + trimmed_errors(values[k], p, "invalid_possible_value"@)
            + when(repeated_before(values, k), one(p, "duplicate_enum_value"@, "possible value `"@ + values[k] + "` is repeated"@))
    }
}

/// With `none` arity, no value metadata may be given (nor the arity itself where not allowed).
pub open spec fn none_arity_errors(
    arity: ValueArity,
    name: Option<String>,
    value_type: ValueType,
    possible: Seq<Seq<char>>,
    path: Seq<char>,
    allow_none: bool,
) -> Seq<ErrorView> {
    when(
        arity == ValueArity::NoValue,
        when(!allow_none, one(field(path, "arity"@), "invalid_value_arity"@, "this value may not use none arity"@))
            + when(
            !(value_type == ValueType::Bool || value_type == ValueType::Unknown),
            one(field(path, "value_type"@), "contradictory_value_metadata"@, "none arity permits only bool or unknown value types"@),
        ) + when(name is Some, one(field(path, "name"@), "contradictory_value_metadata"@, "none arity may not define a value name"@))
            + when(possible.len() > 0, one(field(path, "possible_values"@), "contradictory_value_metadata"@, "none arity may not define possible values"@)),
    )
}

/// Bool values take no value (or an unknown arity).
pub open spec fn bool_arity_errors(arity: ValueArity, value_type: ValueType, path: Seq<char>) -> Seq<ErrorView> {
    when(
        value_type == ValueType::Bool && !(arity == ValueArity::NoValue || arity == ValueArity::Unknown),
        one(field(path, "arity"@), "contradictory_value_metadata"@, "bool values permit only none or unknown arity"@),
    )
}

/// Enums need distinct trimmed possible values; other known types may not list any.
pub open spec fn possible_values_rule_errors(value_type: ValueType, possible: Seq<Seq<char>>, path: Seq<char>) -> Seq<ErrorView> {
    if value_type == ValueType::Enum {
        when(possible.len() == 0, one(field(path, "possible_values"@), "missing_enum_values"@, "enum values require at least one possible value"@))
            + possible_value_errors(possible, path, possible.len() as int)
    } else {
        when(
            value_type != ValueType::Unknown && possible.len() > 0,
            one(field(path, "possible_values"@), "contradictory_value_metadata"@, "only enum or unknown value types may define possible values"@),
        )
    }
}

/// The rules on a value description: `none` arity excludes value metadata,
/// bool values take no value, a value name is trimmed, enums need distinct
/// possible values and only enum or unknown types may list possible values.
pub open spec fn value_errors(
    arity: ValueArity,
    name: Option<String>,
    value_type: ValueType,
    possible: Seq<Seq<char>>,
    path: Seq<char>,
    allow_none: bool,
) -> Seq<ErrorView> {
    none_arity_errors(arity, name, value_type, possible, path, allow_none)
        + bool_arity_errors(arity, value_type, path)
        + optional_trimmed_errors(name, field(path, "name"@), "invalid_value_name"@)
        + possible_values_rule_errors(value_type, possible, path)
}

pub open spec fn option_path(path: Seq<char>, index: int) -> Seq<char> {
    indexed(field(path, "options"@), index as nat)
}

/// Some earlier option of the command has the same ID as option `i`.
pub open spec fn id_repeated(options: Seq<OptionSpec>, i: int) -> bool {
    exists|j: int| 0 <= j < i && options[j].id.view_id() == options[i].id.view_id()
}

/// Some name of an earlier option, or an earlier name of option `i`, renders
/// to the same token as name `k` of option `i`.
pub open spec fn spelling_repeated(options: Seq<OptionSpec>, i: int, k: int) -> bool {
    exists|j: int, m: int|
        ((0 <= j < i && 0 <= m < options[j].names@.len()) || (j == i && 0 <= m < k))
            && (#[trigger] options[j].names@[m]).spelling_view() == options[i].names@[k].spelling_view()
}

pub open spec fn name_errors(options: Seq<OptionSpec>, i: int, path: Seq<char>, n: int) -> Seq<ErrorView>
    decreases n,
{
    if n <= 0 {
        Seq::empty()
    } else {
        let k = n - 1;
        let p = indexed(field(option_path(path, i), "names"@), k as nat);
        let name = options[i].names@[k];
        name_errors(options, i, path, k) + when(!valid_option_name(name), one(p, "invalid_option_name"@, "option name has an invalid spelling"@))
            + when(
            spelling_repeated(options, i, k),
            one(p, "duplicate_option_spelling"@, "option spelling `"@ + name.spelling_view() + "` is already used in this command"@),
        )
    }
}

/// The rules on option `i`'s ID and names list: a valid ID, not used by an
/// earlier option, and at least one name.
pub open spec fn option_identity_errors(options: Seq<OptionSpec>, i: int, path: Seq<char>) -> Seq<ErrorView> {
    let option = options[i];
    let op = option_path(path, i);
    let id = option.id.view_id();
    when(!valid_option_id(id), one(field(op, "id"@), "invalid_option_id"@, "option ID must be nonempty ASCII [A-Za-z0-9._-]+"@))
        + when(id_repeated(options, i), one(field(op, "id"@), "duplicate_option_id"@, "option ID `"@ + id + "` is already used in this command"@))
        + when(option.names@.len() == 0, one(field(op, "names"@), "missing_option_name"@, "option records must define at least one name"@))
}

/// The rules that option `i` must meet on its own and against earlier options.
pub open spec fn option_errors(options: Seq<OptionSpec>, i: int, path: Seq<char>) -> Seq<ErrorView> {
    let option = options[i];
    let op = option_path(path, i);
    option_identity_errors(options, i, path)
        + name_errors(options, i, path, option.names@.len() as int)
        + value_errors(option.value.arity, option.value.name, option.value.value_type, strings_view(option.value.possible_values@), field(op, "value"@), true)
        + span_errors(option.source_span, field(op, "source_span"@))
}

pub open spec fn options_errors(options: Seq<OptionSpec>, path: Seq<char>, n: int) -> Seq<ErrorView>
    decreases n,
{
    if n <= 0 {
        Seq::empty()
    } else {
        options_errors(options, path, n - 1) + option_errors(options, n - 1, path)
    }
}

/// Some option of the command has the ID `id`.
pub open spec fn known_id(options: Seq<OptionSpec>, id: Seq<char>) -> bool {
    exists|j: int| 0 <= j < options.len() && options[j].id.view_id() == id
}

/// The rules on one option reference: not to its owner, not repeated in its
/// list, and to an option of the same command.
pub open spec fn reference_errors(owner: Seq<char>, reference: Seq<char>, options: Seq<OptionSpec>, path: Seq<char>, repeated: bool) -> Seq<ErrorView> {
    when(reference == owner, one(path, "self_option_reference"@, "option references must not refer to themselves"@))
        + when(repeated, one(path, "duplicate_option_reference"@, "option ID `"@ + reference + "` is listed more than once"@))
        + when(!known_id(options, reference), one(path, "unknown_option_reference"@, "option ID `"@ + reference + "` does not exist in this command"@))
}

pub open spec fn ids_view(ids: Seq<OptionId>) -> Seq<Seq<char>> {
    ids.map_values(|id: OptionId| id.view_id())
}

pub open spec fn references_errors(owner: Seq<char>, references: Seq<Seq<char>>, options: Seq<OptionSpec>, path: Seq<char>, n: int) -> Seq<ErrorView>
    decreases n,
{
    if n <= 0 {
        Seq::empty()
    } else {
        let k = n - 1;
        references_errors(owner, references, options, path, k) + reference_errors(
            owner,
            references[k],
            options,
            indexed(path, k as nat),
            repeated_before(references, k),
        )
    }
}

/// The rules on the references of option `i`.
pub open spec fn option_reference_errors(options: Seq<OptionSpec>, i: int, path: Seq<char>) -> Seq<ErrorView> {
    let option = options[i];
    let op = option_path(path, i);
    let owner = option.id.view_id();
    (match option.negates {
        Some(r) => reference_errors(owner, r.view_id(), options, field(op, "negates"@), false),
        None => Seq::empty(),
    }) + references_errors(owner, ids_view(option.conflicts_with@), options, field(op, "conflicts_with"@), option.conflicts_with@.len() as int)
        + references_errors(owner, ids_view(option.requires@), options, field(op, "requires"@), option.requires@.len() as int)
}

pub open spec fn options_reference_errors(options: Seq<OptionSpec>, path: Seq<char>, n: int) -> Seq<ErrorView>
    decreases n,
{
    if n <= 0 {
        Seq::empty()
    } else {
        options_reference_errors(options, path, n - 1) + option_reference_errors(options, n - 1, path)
    }
}

/// The rules on a positional: a trimmed name, a value arity other than
/// `none`, and the value rules without a value name.
pub open spec fn positional_errors(positional: PositionalSpec, path: Seq<char>) -> Seq<ErrorView> {
    trimmed_errors(positional.name@, field(path, "name"@), "invalid_positional_name"@)
        + when(positional.arity == ValueArity::NoValue, one(field(path, "arity"@), "invalid_positional_arity"@, "positionals may not use none arity"@))
        + value_errors(positional.arity, None, positional.value_type, strings_view(positional.possible_values@), path, false)
        + span_errors(positional.source_span, field(path, "source_span"@))
}

pub open spec fn positionals_errors(positionals: Seq<PositionalSpec>, path: Seq<char>, n: int) -> Seq<ErrorView>
    decreases n,
{
    if n <= 0 {
        Seq::empty()
    } else {
        positionals_errors(positionals, path, n - 1) + positional_errors(
            positionals[n - 1],
            indexed(field(path, "positionals"@), (n - 1) as nat),
        )
    }
}

pub open spec fn usage_errors(usage: Seq<String>, path: Seq<char>, n: int) -> Seq<ErrorView>
    decreases n,
{
    if n <= 0 {
        Seq::empty()
    } else {
        usage_errors(usage, path, n - 1) + trimmed_errors(usage[n - 1]@, indexed(field(path, "usage"@), (n - 1) as nat), "invalid_usage"@)
    }
}

/// Token `k` of subcommand `i`: its name for `k == 0`, else alias `k - 1`.
pub open spec fn subcommand_token(subcommands: Seq<SubcommandSpec>, i: int, k: int) -> Seq<char> {
    if k == 0 {
        subcommands[i].name@
    } else {
        subcommands[i].aliases@[k - 1]@
    }
}

/// Some earlier subcommand token (names and aliases, in order) equals token `k` of subcommand `i`.
pub open spec fn token_repeated(subcommands: Seq<SubcommandSpec>, i: int, k: int) -> bool {
    exists|j: int, m: int|
        ((0 <= j < i && 0 <= m <= subcommands[j].aliases@.len()) || (j == i && 0 <= m < k))
            && #[trigger] subcommand_token(subcommands, j, m) == subcommand_token(subcommands, i, k)
}

pub open spec fn subcommand_path(path: Seq<char>, i: int) -> Seq<char> {
    indexed(field(path, "subcommands"@), i as nat)
}

pub open spec fn repeated_token_error(subcommands: Seq<SubcommandSpec>, i: int, k: int, path: Seq<char>) -> Seq<ErrorView> {
    when(
        token_repeated(subcommands, i, k),
        one(path, "duplicate_subcommand_token"@, "subcommand token `"@ + subcommand_token(subcommands, i, k) + "` is already used in this command"@),
    )
}

pub open spec fn alias_errors(subcommands: Seq<SubcommandSpec>, i: int, path: Seq<char>, n: int) -> Seq<ErrorView>
    decreases n,
{
    if n <= 0 {
        Seq::empty()
    } else {
        let a = n - 1;
        let p = indexed(field(subcommand_path(path, i), "aliases"@), a as nat);
        alias_errors(subcommands, i, path, a) + token_errors(subcommands[i].aliases@[a]@, p, "invalid_subcommand_alias"@)
            + repeated_token_error(subcommands, i, a + 1, p)
    }
}

/// Errors of a command node at `depth` under `path`, in traversal order:
/// identity, usage, metadata, options, option references, positionals, then
/// subcommands with their nested commands.
pub open spec fn command_errors(command: CommandSpec, path: Seq<char>, depth: nat) -> Seq<ErrorView>
    decreases MAX_COMMAND_DEPTH + 1 - depth, command.subcommands@.len() + 1,
{
    if depth > MAX_COMMAND_DEPTH {
        Seq::empty()
    } else {
        let options = command.options@;
        token_errors(command.name@, field(path, "name"@), "invalid_command_name"@)
            + token_errors(command.executable.name@, field(path, "executable.name"@), "invalid_executable_name"@)
            + optional_trimmed_errors(command.executable.path, field(path, "executable.path"@), "invalid_executable_path"@)
            + usage_errors(command.usage@, path, command.usage@.len() as int)
            + metadata_errors(command.metadata, field(path, "metadata"@))
            + options_errors(options, path, options.len() as int)
            + options_reference_errors(options, path, options.len() as int)
            + positionals_errors(command.positionals@, path, command.positionals@.len() as int)
            + subcommands_errors(command, path, depth, command.subcommands@.len() as int)
    }
}

/// Errors of the first `n` subcommands of `command` (at `depth`).
pub open spec fn subcommands_errors(command: CommandSpec, path: Seq<char>, depth: nat, n: int) -> Seq<ErrorView>
    decreases MAX_COMMAND_DEPTH + 1 - depth, n,
{
    if n <= 0 || n > command.subcommands@.len() || depth > MAX_COMMAND_DEPTH {
        Seq::empty()
    } else {
        let i = n - 1;
        let subs = command.subcommands@;
        let sp = subcommand_path(path, i);
        let child = field(sp, "command"@);
        subcommands_errors(command, path, depth, i) + token_errors(subs[i].name@, field(sp, "name"@), "invalid_subcommand_name"@)
            + repeated_token_error(subs, i, 0, field(sp, "name"@))
            + alias_errors(subs, i, path, subs[i].aliases@.len() as int)
            + if depth + 1 > MAX_COMMAND_DEPTH {
            one(child, "max_depth_exceeded"@, "command depth must not exceed 32"@)
        } else {
            command_errors(*subs[i].command, child, depth + 1)
        }
    }
}

pub open spec fn root_path() -> Seq<char> {
    "$.root"@
}

/// Errors of a whole document: its version, then its root command.
pub open spec fn document_errors(document: SchemaDocument) -> Seq<ErrorView> {
    when(
        document.schema_version != SCHEMA_VERSION,
        one("$.schema_version"@, "unsupported_schema_version"@, "schema version "@ + decimal(document.schema_version as nat) + " is unsupported; expected 1"@),
    ) + command_errors(document.root, root_path(), 0)
}

/// What validation returns for a list of errors.
pub open spec fn validation_result(errors: Seq<ErrorView>, result: Result<(), ValidationErrors>) -> bool {
    if errors.len() == 0 {
        result is Ok
    } else {
        result is Err && errors_view(result->Err_0.errors@) == errors
    }
}

/// `path.name`
fn field_path(path: &str, name: &str) -> (s: String)
    ensures
        s@ == field(path@, name@),
{
    let mut s = path.to_owned();
    push_char(&mut s, '.');
    s.append(name);
    s
}

/// `path[index]`
fn indexed_path(path: &str, index: usize) -> (s: String)
    ensures
        s@ == indexed(path@, index as nat),
{
    let mut s = path.to_owned();
    push_char(&mut s, '[');
    push_decimal(&mut s, index);
    push_char(&mut s, ']');
    proof {
        assert(s@ =~= indexed(path@, index as nat));
    }
    s
}

fn is_id_char_exec(c: char) -> (r: bool)
    ensures
        r == is_id_char(c),
{
    ('a' <= c && c <= 'z') || ('A' <= c && c <= 'Z') || ('0' <= c && c <= '9') || c == '.' || c == '_' || c == '-'
}

fn valid_option_id_exec(id: &str) -> (r: bool)
    ensures
        r == valid_option_id(id@),
{
    let chars = crate::text::chars_of(id);
    if chars.len() == 0 {
        return false;
    }
    let mut i: usize = 0;
    while i < chars.len()
        invariant
            chars@ == id@,
            0 <= i <= chars.len(),
            forall|k: int| 0 <= k < i ==> is_id_char(#[trigger] chars@[k]),
        decreases chars.len() - i,
    {
        if !is_id_char_exec(chars[i]) {
            return false;
        }
        i = i + 1;
    }
    true
}

fn valid_long_name_exec(value: &str) -> (r: bool)
    ensures
        r == valid_long_name(value@),
        r ==> value@.len() > 0,
{
    let chars = crate::text::chars_of(value);
    if chars.len() == 0 || chars[0] == '-' {
        return false;
    }
    let mut i: usize = 0;
    while i < chars.len()
        invariant
            chars@ == value@,
            0 <= i <= chars.len(),
            forall|k: int| 0 <= k < i ==> is_ascii_graphic(#[trigger] chars@[k]),
        decreases chars.len() - i,
    {
        if !('!' <= chars[i] && chars[i] <= '~') {
            return false;
        }
        i = i + 1;
    }
    true
}

fn valid_option_name_exec(name: &OptionName) -> (r: bool)
    ensures
        r == valid_option_name(*name),
{
    match name {
        OptionName::Short(c) => '!' <= *c && *c <= '~' && *c != '-',
        OptionName::Long(value) => valid_long_name_exec(value.as_str()),
        OptionName::SingleDashLong(value) => {
            let count = crate::text::chars_of(value.as_str()).len();
            count >= 2 && valid_long_name_exec(value.as_str())
        },
    }
}

/// Collects errors in traversal order.
struct Validator {
    errors: Vec<ValidationError>,
}

impl Validator {
    spec fn log(&self) -> Seq<ErrorView> {
        errors_view(self.errors@)
    }

    fn error(&mut self, path: String, code: &'static str, message: String)
        ensures
            final(self).log() == old(self).log() + one(path@, code@, message@),
    {
        let e = ValidationError { path, code, message };
        self.errors.push(e);
        proof {
            assert(final(self).log() =~= old(self).log() + one(e.path@, e.code@, e.message@));
        }
    }

    fn token(&mut self, value: &str, path: String, code: &'static str)
        ensures
            final(self).log() == old(self).log() + token_errors(value@, path@, code@),
    {
        if !check_token(value) {
            self.error(path, code, "token must be nonempty, trimmed, and contain no whitespace or controls".to_owned());
        } else {
            assert(final(self).log() =~= old(self).log() + token_errors(value@, path@, code@));
        }
    }

    fn trimmed(&mut self, value: &str, path: String, code: &'static str)
        ensures
            final(self).log() == old(self).log() + trimmed_errors(value@, path@, code@),
    {
        if !check_trimmed(value) {
            self.error(path, code, "value must be nonempty and trimmed".to_owned());
        } else {
            assert(final(self).log() =~= old(self).log() + trimmed_errors(value@, path@, code@));
        }
    }

    fn optional_trimmed(&mut self, value: &Option<String>, path: String, code: &'static str)
        ensures
            final(self).log() == old(self).log() + optional_trimmed_errors(*value, path@, code@),
    {
        match value {
            Some(v) => self.trimmed(v.as_str(), path, code),
            None => {
                assert(final(self).log() =~= old(self).log() + optional_trimmed_errors(*value, path@, code@));
            },
        }
    }

    fn metadata(&mut self, metadata: &SpecMetadata, path: &str)
        ensures
            final(self).log() == old(self).log() + metadata_errors(*metadata, path@),
    {
        self.optional_trimmed(&metadata.parser, field_path(path, "parser"), "invalid_metadata");
        self.optional_trimmed(&metadata.executable_version, field_path(path, "executable_version"), "invalid_metadata");
        self.optional_trimmed(&metadata.fingerprint, field_path(path, "fingerprint"), "invalid_metadata");
        assert(final(self).log() =~= old(self).log() + metadata_errors(*metadata, path@));
    }

    fn span(&mut self, span: &Option<SourceSpan>, path: String)
        ensures
            final(self).log() == old(self).log() + span_errors(*span, path@),
    {
        match span {
            Some(s) => {
                if s.start >= s.end {
                    self.error(path, "invalid_source_span", "source span start must be less than end".to_owned());
                } else {
                    assert(final(self).log() =~= old(self).log() + span_errors(*span, path@));
                }
            },
            None => {
                assert(final(self).log() =~= old(self).log() + span_errors(*span, path@));
            },
        }
    }
}

fn string_repeated_before(values: &Vec<String>, k: usize) -> (r: bool)
    requires
        k < values.len(),
    ensures
        r == repeated_before(strings_view(values@), k as int),
{
    let ghost view = strings_view(values@);
    let mut j: usize = 0;
    while j < k
        invariant
            k < values.len(),
            view == strings_view(values@),
            0 <= j <= k,
            forall|m: int| 0 <= m < j ==> view[m] != view[k as int],
        decreases k - j,
    {
        if values[j] == values[k] {
            assert(view[j as int] == view[k as int]);
            return true;
        }
        j = j + 1;
    }
    false
}

fn id_repeated_before(ids: &Vec<OptionId>, k: usize) -> (r: bool)
    requires
        k < ids.len(),
    ensures
        r == repeated_before(ids_view(ids@), k as int),
{
    let ghost view = ids_view(ids@);
    let mut j: usize = 0;
    while j < k
        invariant
            k < ids.len(),
            view == ids_view(ids@),
            0 <= j <= k,
            forall|m: int| 0 <= m < j ==> view[m] != view[k as int],
        decreases k - j,
    {
        if ids[j].0 == ids[k].0 {
            assert(view[j as int] == view[k as int]);
            return true;
        }
        j = j + 1;
    }
    false
}

fn option_id_repeated(options: &Vec<OptionSpec>, i: usize) -> (r: bool)
    requires
        i < options.len(),
    ensures
        r == id_repeated(options@, i as int),
{
    let mut j: usize = 0;
    while j < i
        invariant
            i < options.len(),
            0 <= j <= i,
            forall|m: int| 0 <= m < j ==> options@[m].id.view_id() != options@[i as int].id.view_id(),
        decreases i - j,
    {
        if options[j].id.0 == options[i].id.0 {
            return true;
        }
        j = j + 1;
    }
    false
}

fn id_known(options: &Vec<OptionSpec>, id: &OptionId) -> (r: bool)
    ensures
        r == known_id(options@, id.view_id()),
{
    let mut j: usize = 0;
    while j < options.len()
        invariant
            0 <= j <= options.len(),
            forall|m: int| 0 <= m < j ==> options@[m].id.view_id() != id.view_id(),
        decreases options.len() - j,
    {
        if options[j].id.0 == id.0 {
            return true;
        }
        j = j + 1;
    }
    false
}

fn spelling_repeated_exec(options: &Vec<OptionSpec>, i: usize, k: usize) -> (r: bool)
    requires
        i < options.len(),
        k < options@[i as int].names@.len(),
    ensures
        r == spelling_repeated(options@, i as int, k as int),
{
    let target = options[i].names[k].spelling();
    let mut j: usize = 0;
    while j <= i
        invariant
            i < options.len(),
            k < options@[i as int].names@.len(),
            target@ == options@[i as int].names@[k as int].spelling_view(),
            0 <= j <= i + 1,
            forall|a: int, m: int|
                ((0 <= a < j && a < i && 0 <= m < options@[a].names@.len()) || (a == i && j > i && 0 <= m < k))
                    ==> (#[trigger] options@[a].names@[m]).spelling_view() != target@,
        decreases i + 1 - j,
    {
        let limit = if j < i {
            options[j].names.len()
        } else {
            k
        };
        let mut m: usize = 0;
        while m < limit
            invariant
                i < options.len(),
                k < options@[i as int].names@.len(),
                j <= i,
                limit == (if j < i { options@[j as int].names@.len() } else { k as nat }),
                target@ == options@[i as int].names@[k as int].spelling_view(),
                0 <= m <= limit,
                forall|a: int, n: int|
                    ((0 <= a < j && a < i && 0 <= n < options@[a].names@.len()))
                        ==> (#[trigger] options@[a].names@[n]).spelling_view() != target@,
                forall|n: int| 0 <= n < m ==> (#[trigger] options@[j as int].names@[n]).spelling_view() != target@,
            decreases limit - m,
        {
            let spelled = options[j].names[m].spelling();
            if spelled == target {
                proof {
                    let jj = j as int;
                    let mm = m as int;
                    assert((#[trigger] options@[jj].names@[mm]).spelling_view() == options@[i as int].names@[k as int].spelling_view());
                }
                return true;
            }
            m = m + 1;
        }
        j = j + 1;
    }
    false
}

impl Validator {
    fn possible_values(&mut self, values: &Vec<String>, path: &str)
        ensures
            final(self).log() == old(self).log() + possible_value_errors(strings_view(values@), path@, values.len() as int),
    {
        let ghost view = strings_view(values@);
        let mut k: usize = 0;
        while k < values.len()
            invariant
                view == strings_view(values@),
                0 <= k <= values.len(),
                self.log() == old(self).log() + possible_value_errors(view, path@, k as int),
            decreases values.len() - k,
        {
            let ghost before = self.log();
            let p = indexed_path(field_path(path, "possible_values").as_str(), k);
            assert(view[k as int] == values@[k as int]@);
            self.trimmed(values[k].as_str(), p.clone(), "invalid_possible_value");
            if string_repeated_before(values, k) {
                let message = concat3("possible value `", values[k].as_str(), "` is repeated");
                self.error(p, "duplicate_enum_value", message);
            }
            proof {
                assert(self.log() =~= old(self).log() + possible_value_errors(view, path@, k + 1));
            }
            k = k + 1;
        }
    }

    fn none_arity(&mut self, arity: ValueArity, name: &Option<String>, value_type: ValueType, possible: &Vec<String>, path: &str, allow_none: bool)
        ensures
            final(self).log() == old(self).log() + none_arity_errors(arity, *name, value_type, strings_view(possible@), path@, allow_none),
    {
        let ghost start = self.log();
        if matches!(arity, ValueArity::NoValue) {
            if !allow_none {
                self.error(field_path(path, "arity"), "invalid_value_arity", "this value may not use none arity".to_owned());
            }
            let ghost s1 = self.log();
            if !(matches!(value_type, ValueType::Bool) || matches!(value_type, ValueType::Unknown)) {
                self.error(field_path(path, "value_type"), "contradictory_value_metadata", "none arity permits only bool or unknown value types".to_owned());
            }
            let ghost s2 = self.log();
            if name.is_some() {
                self.error(field_path(path, "name"), "contradictory_value_metadata", "none arity may not define a value name".to_owned());
            }
            let ghost s3 = self.log();
            if possible.len() > 0 {
                self.error(field_path(path, "possible_values"), "contradictory_value_metadata", "none arity may not define possible values".to_owned());
            }
            proof {
                let pv = strings_view(possible@);
                assert(pv.len() == possible@.len());
                assert(self.log() =~= start + none_arity_errors(arity, *name, value_type, pv, path@, allow_none));
            }
        } else {
            assert(self.log() =~= start + none_arity_errors(arity, *name, value_type, strings_view(possible@), path@, allow_none));
        }
    }

    fn bool_arity(&mut self, arity: ValueArity, value_type: ValueType, path: &str)
        ensures
            final(self).log() == old(self).log() + bool_arity_errors(arity, value_type, path@),
    {
        if matches!(value_type, ValueType::Bool) && !(matches!(arity, ValueArity::NoValue) || matches!(arity, ValueArity::Unknown)) {
            self.error(field_path(path, "arity"), "contradictory_value_metadata", "bool values permit only none or unknown arity".to_owned());
        } else {
            assert(final(self).log() =~= old(self).log() + bool_arity_errors(arity, value_type, path@));
        }
    }

    fn possible_values_rule(&mut self, value_type: ValueType, possible: &Vec<String>, path: &str)
        ensures
            final(self).log() == old(self).log() + possible_values_rule_errors(value_type, strings_view(possible@), path@),
    {
        let ghost start = self.log();
        let ghost pv = strings_view(possible@);
        assert(pv.len() == possible@.len());
        if matches!(value_type, ValueType::Enum) {
            if possible.len() == 0 {
                self.error(field_path(path, "possible_values"), "missing_enum_values", "enum values require at least one possible value".to_owned());
            }
            let ghost mid = self.log();
            self.possible_values(possible, path);
            assert(self.log() =~= start + possible_values_rule_errors(value_type, pv, path@));
        } else if !matches!(value_type, ValueType::Unknown) && possible.len() > 0 {
            self.error(field_path(path, "possible_values"), "contradictory_value_metadata", "only enum or unknown value types may define possible values".to_owned());
        } else {
            assert(self.log() =~= start + possible_values_rule_errors(value_type, pv, path@));
        }
    }

    fn value(&mut self, arity: ValueArity, name: &Option<String>, value_type: ValueType, possible: &Vec<String>, path: &str, allow_none: bool)
        ensures
            final(self).log() == old(self).log() + value_errors(arity, *name, value_type, strings_view(possible@), path@, allow_none),
    {
        let ghost start = self.log();
        self.none_arity(arity, name, value_type, possible, path, allow_none);
        self.bool_arity(arity, value_type, path);
        self.optional_trimmed(name, field_path(path, "name"), "invalid_value_name");
        self.possible_values_rule(value_type, possible, path);
        assert(self.log() =~= start + value_errors(arity, *name, value_type, strings_view(possible@), path@, allow_none));
    }
}

fn subcommand_token_exec(subcommands: &Vec<SubcommandSpec>, i: usize, k: usize) -> (t: &String)
    requires
        i < subcommands.len(),
        k <= subcommands@[i as int].aliases@.len(),
    ensures
        t@ == subcommand_token(subcommands@, i as int, k as int),
{
    if k == 0 {
        &subcommands[i].name
    } else {
        &subcommands[i].aliases[k - 1]
    }
}

fn token_repeated_exec(subcommands: &Vec<SubcommandSpec>, i: usize, k: usize) -> (r: bool)
    requires
        i < subcommands.len(),
        k <= subcommands@[i as int].aliases@.len(),
    ensures
        r == token_repeated(subcommands@, i as int, k as int),
{
    let target = subcommand_token_exec(subcommands, i, k);
    let mut j: usize = 0;
    while j <= i
        invariant
            i < subcommands.len(),
            k <= subcommands@[i as int].aliases@.len(),
            target@ == subcommand_token(subcommands@, i as int, k as int),
            0 <= j <= i + 1,
            forall|a: int, m: int|
                ((0 <= a < j && a < i && 0 <= m <= subcommands@[a].aliases@.len()) || (a == i && j > i && 0 <= m < k))
                    ==> #[trigger] subcommand_token(subcommands@, a, m) != target@,
        decreases i + 1 - j,
    {
        if j < i || 0 < k {
            if subcommands[j].name == *target {
                proof {
                    assert(subcommand_token(subcommands@, j as int, 0) == subcommand_token(subcommands@, i as int, k as int));
                }
                return true;
            }
        }
        let count = if j < i {
            subcommands[j].aliases.len()
        } else if k > 0 {
            k - 1
        } else {
            0
        };
        let mut a: usize = 0;
        while a < count
            invariant
                i < subcommands.len(),
                k <= subcommands@[i as int].aliases@.len(),
                j <= i,
                count == (if j < i { subcommands@[j as int].aliases@.len() as int } else if k > 0 { k - 1 } else { 0 }),
                target@ == subcommand_token(subcommands@, i as int, k as int),
                0 <= a <= count,
                forall|n: int| 1 <= n <= a ==> #[trigger] subcommand_token(subcommands@, j as int, n) != target@,
            decreases count - a,
        {
            if subcommands[j].aliases[a] == *target {
                proof {
                    assert(subcommand_token(subcommands@, j as int, a + 1) == subcommand_token(subcommands@, i as int, k as int));
                }
                return true;
            }
            a = a + 1;
        }
        j = j + 1;
    }
    false
}

impl Validator {
    fn names(&mut self, options: &Vec<OptionSpec>, i: usize, path: &str)
        requires
            i < options.len(),
        ensures
            final(self).log() == old(self).log() + name_errors(options@, i as int, path@, options@[i as int].names@.len() as int),
    {
        let names = &options[i].names;
        let opath = indexed_path(field_path(path, "options").as_str(), i);
        let names_path = field_path(opath.as_str(), "names");
        let mut k: usize = 0;
        while k < names.len()
            invariant
                i < options.len(),
                names@ == options@[i as int].names@,
                names_path@ == field(option_path(path@, i as int), "names"@),
                0 <= k <= names.len(),
                self.log() == old(self).log() + name_errors(options@, i as int, path@, k as int),
            decreases names.len() - k,
        {
            let ghost before = self.log();
            let name_path = indexed_path(names_path.as_str(), k);
            if !valid_option_name_exec(&names[k]) {
                self.error(name_path.clone(), "invalid_option_name", "option name has an invalid spelling".to_owned());
            }
            let ghost mid = self.log();
            if spelling_repeated_exec(options, i, k) {
                let spelled = names[k].spelling();
                let message = concat3("option spelling `", spelled.as_str(), "` is already used in this command");
                self.error(name_path, "duplicate_option_spelling", message);
            }
            proof {
                assert(self.log() =~= old(self).log() + name_errors(options@, i as int, path@, k + 1));
            }
            k = k + 1;
        }
    }

    fn option_identity(&mut self, options: &Vec<OptionSpec>, i: usize, path: &str)
        requires
            i < options.len(),
        ensures
            final(self).log() == old(self).log() + option_identity_errors(options@, i as int, path@),
    {
        let ghost start = self.log();
        let option = &options[i];
        let opath = indexed_path(field_path(path, "options").as_str(), i);
        let id = option.id.as_str();
        if !valid_option_id_exec(id) {
            self.error(field_path(opath.as_str(), "id"), "invalid_option_id", "option ID must be nonempty ASCII [A-Za-z0-9._-]+".to_owned());
        }
        let ghost s1 = self.log();
        if option_id_repeated(options, i) {
            let message = concat3("option ID `", id, "` is already used in this command");
            self.error(field_path(opath.as_str(), "id"), "duplicate_option_id", message);
        }
        let ghost s2 = self.log();
        if option.names.len() == 0 {
            self.error(field_path(opath.as_str(), "names"), "missing_option_name", "option records must define at least one name".to_owned());
        }
        proof {
            assert(self.log() =~= start + option_identity_errors(options@, i as int, path@));
        }
    }

    fn option(&mut self, options: &Vec<OptionSpec>, i: usize, path: &str)
        requires
            i < options.len(),
        ensures
            final(self).log() == old(self).log() + option_errors(options@, i as int, path@),
    {
        let ghost start = self.log();
        let option = &options[i];
        let opath = indexed_path(field_path(path, "options").as_str(), i);
        self.option_identity(options, i, path);
        let ghost s3 = self.log();
        self.names(options, i, path);
        let ghost s4 = self.log();
        let value_path = field_path(opath.as_str(), "value");
        self.value(option.value.arity, &option.value.name, option.value.value_type, &option.value.possible_values, value_path.as_str(), true);
        let ghost s5 = self.log();
        self.span(&option.source_span, field_path(opath.as_str(), "source_span"));
        proof {
            assert(self.log() =~= start + option_errors(options@, i as int, path@));
        }
    }

    fn options(&mut self, options: &Vec<OptionSpec>, path: &str)
        ensures
            final(self).log() == old(self).log() + options_errors(options@, path@, options.len() as int),
    {
        let mut i: usize = 0;
        while i < options.len()
            invariant
                0 <= i <= options.len(),
                self.log() == old(self).log() + options_errors(options@, path@, i as int),
            decreases options.len() - i,
        {
            self.option(options, i, path);
            proof {
                assert(self.log() =~= old(self).log() + options_errors(options@, path@, i + 1));
            }
            i = i + 1;
        }
    }

    fn reference(&mut self, owner: &OptionId, reference: &OptionId, options: &Vec<OptionSpec>, path: String, repeated: bool)
        ensures
            final(self).log() == old(self).log() + reference_errors(owner.view_id(), reference.view_id(), options@, path@, repeated),
    {
        let ghost start = self.log();
        if reference.0 == owner.0 {
            self.error(path.clone(), "self_option_reference", "option references must not refer to themselves".to_owned());
        }
        let ghost s1 = self.log();
        if repeated {
            let message = concat3("option ID `", reference.as_str(), "` is listed more than once");
            self.error(path.clone(), "duplicate_option_reference", message);
        }
        let ghost s2 = self.log();
        if !id_known(options, reference) {
            let message = concat3("option ID `", reference.as_str(), "` does not exist in this command");
            self.error(path, "unknown_option_reference", message);
        }
        proof {
            assert(self.log() =~= start + reference_errors(owner.view_id(), reference.view_id(), options@, path@, repeated));
        }
    }

    fn references(&mut self, owner: &OptionId, references: &Vec<OptionId>, options: &Vec<OptionSpec>, path: &str)
        ensures
            final(self).log() == old(self).log() + references_errors(owner.view_id(), ids_view(references@), options@, path@, references.len() as int),
    {
        let ghost view = ids_view(references@);
        let mut k: usize = 0;
        while k < references.len()
            invariant
                view == ids_view(references@),
                0 <= k <= references.len(),
                self.log() == old(self).log() + references_errors(owner.view_id(), view, options@, path@, k as int),
            decreases references.len() - k,
        {
            let repeated = id_repeated_before(references, k);
            assert(view[k as int] == references@[k as int].view_id());
            self.reference(owner, &references[k], options, indexed_path(path, k), repeated);
            proof {
                assert(self.log() =~= old(self).log() + references_errors(owner.view_id(), view, options@, path@, k + 1));
            }
            k = k + 1;
        }
    }

    fn option_references(&mut self, options: &Vec<OptionSpec>, i: usize, path: &str)
        requires
            i < options.len(),
        ensures
            final(self).log() == old(self).log() + option_reference_errors(options@, i as int, path@),
    {
        let ghost start = self.log();
        let option = &options[i];
        let opath = indexed_path(field_path(path, "options").as_str(), i);
        match &option.negates {
            Some(reference) => {
                self.reference(&option.id, reference, options, field_path(opath.as_str(), "negates"), false);
            },
            None => {},
        }
        let ghost s1 = self.log();
        let conflicts_path = field_path(opath.as_str(), "conflicts_with");
        self.references(&option.id, &option.conflicts_with, options, conflicts_path.as_str());
        let ghost s2 = self.log();
        let requires_path = field_path(opath.as_str(), "requires");
        self.references(&option.id, &option.requires, options, requires_path.as_str());
        proof {
            assert(ids_view(option.conflicts_with@).len() == option.conflicts_with@.len());
            assert(self.log() =~= start + option_reference_errors(options@, i as int, path@));
        }
    }

    fn options_references(&mut self, options: &Vec<OptionSpec>, path: &str)
        ensures
            final(self).log() == old(self).log() + options_reference_errors(options@, path@, options.len() as int),
    {
        let mut i: usize = 0;
        while i < options.len()
            invariant
                0 <= i <= options.len(),
                self.log() == old(self).log() + options_reference_errors(options@, path@, i as int),
            decreases options.len() - i,
        {
            self.option_references(options, i, path);
            proof {
                assert(self.log() =~= old(self).log() + options_reference_errors(options@, path@, i + 1));
            }
            i = i + 1;
        }
    }

    fn positional(&mut self, positional: &PositionalSpec, path: &str)
        ensures
            final(self).log() == old(self).log() + positional_errors(*positional, path@),
    {
        let ghost start = self.log();
        self.trimmed(positional.name.as_str(), field_path(path, "name"), "invalid_positional_name");
        if matches!(positional.arity, ValueArity::NoValue) {
            self.error(field_path(path, "arity"), "invalid_positional_arity", "positionals may not use none arity".to_owned());
        }
        let ghost s1 = self.log();
        let no_name: Option<String> = None;
        self.value(positional.arity, &no_name, positional.value_type, &positional.possible_values, path, false);
        self.span(&positional.source_span, field_path(path, "source_span"));
        proof {
            assert(self.log() =~= start + positional_errors(*positional, path@));
        }
    }

    fn positionals(&mut self, positionals: &Vec<PositionalSpec>, path: &str)
        ensures
            final(self).log() == old(self).log() + positionals_errors(positionals@, path@, positionals.len() as int),
    {
        let mut i: usize = 0;
        while i < positionals.len()
            invariant
                0 <= i <= positionals.len(),
                self.log() == old(self).log() + positionals_errors(positionals@, path@, i as int),
            decreases positionals.len() - i,
        {
            let p = indexed_path(field_path(path, "positionals").as_str(), i);
            self.positional(&positionals[i], p.as_str());
            proof {
                assert(self.log() =~= old(self).log() + positionals_errors(positionals@, path@, i + 1));
            }
            i = i + 1;
        }
    }

    fn usage(&mut self, usage: &Vec<String>, path: &str)
        ensures
            final(self).log() == old(self).log() + usage_errors(usage@, path@, usage.len() as int),
    {
        let mut i: usize = 0;
        while i < usage.len()
            invariant
                0 <= i <= usage.len(),
                self.log() == old(self).log() + usage_errors(usage@, path@, i as int),
            decreases usage.len() - i,
        {
            let p = indexed_path(field_path(path, "usage").as_str(), i);
            self.trimmed(usage[i].as_str(), p, "invalid_usage");
            proof {
                assert(self.log() =~= old(self).log() + usage_errors(usage@, path@, i + 1));
            }
            i = i + 1;
        }
    }

    fn aliases(&mut self, subcommands: &Vec<SubcommandSpec>, i: usize, path: &str)
        requires
            i < subcommands.len(),
        ensures
            final(self).log() == old(self).log() + alias_errors(subcommands@, i as int, path@, subcommands@[i as int].aliases@.len() as int),
    {
        let aliases = &subcommands[i].aliases;
        let aliases_path = field_path(indexed_path(field_path(path, "subcommands").as_str(), i).as_str(), "aliases");
        let mut a: usize = 0;
        while a < aliases.len()
            invariant
                i < subcommands.len(),
                aliases@ == subcommands@[i as int].aliases@,
                aliases_path@ == field(subcommand_path(path@, i as int), "aliases"@),
                0 <= a <= aliases.len(),
                self.log() == old(self).log() + alias_errors(subcommands@, i as int, path@, a as int),
            decreases aliases.len() - a,
        {
            let p = indexed_path(aliases_path.as_str(), a);
            self.token(aliases[a].as_str(), p.clone(), "invalid_subcommand_alias");
            if token_repeated_exec(subcommands, i, a + 1) {
                let message = concat3("subcommand token `", aliases[a].as_str(), "` is already used in this command");
                self.error(p, "duplicate_subcommand_token", message);
            }
            proof {
                assert(subcommand_token(subcommands@, i as int, a + 1) == aliases@[a as int]@);
                assert(self.log() =~= old(self).log() + alias_errors(subcommands@, i as int, path@, a + 1));
            }
            a = a + 1;
        }
    }

    #[verifier::rlimit(40)]
    fn command(&mut self, command: &CommandSpec, path: &str, depth: usize)
        requires
            depth <= MAX_COMMAND_DEPTH,
        ensures
            final(self).log() == old(self).log() + command_errors(*command, path@, depth as nat),
        decreases MAX_COMMAND_DEPTH + 1 - depth, command.subcommands@.len() + 1,
    {
        let ghost start = self.log();
        let ghost p = path@;
        let ghost options = command.options@;
        self.token(command.name.as_str(), field_path(path, "name"), "invalid_command_name");
        let ghost l1 = self.log();
        self.token(command.executable.name.as_str(), field_path(path, "executable.name"), "invalid_executable_name");
        let ghost l2 = self.log();
        self.optional_trimmed(&command.executable.path, field_path(path, "executable.path"), "invalid_executable_path");
        let ghost l3 = self.log();
        self.usage(&command.usage, path);
        let ghost l4 = self.log();
        let metadata_path = field_path(path, "metadata");
        self.metadata(&command.metadata, metadata_path.as_str());
        let ghost l5 = self.log();
        self.options(&command.options, path);
        let ghost l6 = self.log();
        self.options_references(&command.options, path);
        let ghost l7 = self.log();
        self.positionals(&command.positionals, path);
        let ghost l8 = self.log();
        self.subcommands(command, path, depth);
        proof {
            let e1 = token_errors(command.name@, field(p, "name"@), "invalid_command_name"@);
            let e2 = token_errors(command.executable.name@, field(p, "executable.name"@), "invalid_executable_name"@);
            let e3 = optional_trimmed_errors(command.executable.path, field(p, "executable.path"@), "invalid_executable_path"@);
            let e4 = usage_errors(command.usage@, p, command.usage@.len() as int);
            let e5 = metadata_errors(command.metadata, field(p, "metadata"@));
            let e6 = options_errors(options, p, options.len() as int);
            let e7 = options_reference_errors(options, p, options.len() as int);
            let e8 = positionals_errors(command.positionals@, p, command.positionals@.len() as int);
            let e9 = subcommands_errors(*command, p, depth as nat, command.subcommands@.len() as int);
            assert(command_errors(*command, p, depth as nat) == e1 + e2 + e3 + e4 + e5 + e6 + e7 + e8 + e9);
            assert(self.log() =~= start + (e1 + e2 + e3 + e4 + e5 + e6 + e7 + e8 + e9));
        }
    }

    #[verifier::rlimit(40)]
    fn subcommands(&mut self, command: &CommandSpec, path: &str, depth: usize)
        requires
            depth <= MAX_COMMAND_DEPTH,
        ensures
            final(self).log() == old(self).log() + subcommands_errors(*command, path@, depth as nat, command.subcommands@.len() as int),
        decreases MAX_COMMAND_DEPTH + 1 - depth, command.subcommands@.len(),
    {
        let subcommands = &command.subcommands;
        let mut i: usize = 0;
        while i < subcommands.len()
            invariant
                depth <= MAX_COMMAND_DEPTH,
                subcommands@ == command.subcommands@,
                0 <= i <= subcommands.len(),
                self.log() == old(self).log() + subcommands_errors(*command, path@, depth as nat, i as int),
            decreases subcommands.len() - i,
        {
            let ghost before = self.log();
            let sub_path = indexed_path(field_path(path, "subcommands").as_str(), i);
            let name_path = field_path(sub_path.as_str(), "name");
            self.token(subcommands[i].name.as_str(), name_path.clone(), "invalid_subcommand_name");
            if token_repeated_exec(subcommands, i, 0) {
                let message = concat3("subcommand token `", subcommands[i].name.as_str(), "` is already used in this command");
                self.error(name_path, "duplicate_subcommand_token", message);
            }
            let ghost s1 = self.log();
            self.aliases(subcommands, i, path);
            let ghost s2 = self.log();
            let child_path = field_path(sub_path.as_str(), "command");
            if depth + 1 > MAX_COMMAND_DEPTH {
                self.error(child_path, "max_depth_exceeded", "command depth must not exceed 32".to_owned());
            } else {
                self.command(&subcommands[i].command, child_path.as_str(), depth + 1);
            }
            proof {
                assert(subcommand_token(subcommands@, i as int, 0) == subcommands@[i as int].name@);
                assert(self.log() =~= old(self).log() + subcommands_errors(*command, path@, depth as nat, i + 1));
            }
            i = i + 1;
        }
    }
}

/// Validates a whole document: its version, then its command tree.
pub fn validate_document(document: &SchemaDocument) -> (r: Result<(), ValidationErrors>)
    ensures
        validation_result(document_errors(*document), r),
{
    let mut validator = Validator { errors: Vec::new() };
    proof {
        assert(validator.log() =~= Seq::<ErrorView>::empty());
    }
    if document.schema_version != SCHEMA_VERSION {
        let mut message = "schema version ".to_owned();
        push_decimal(&mut message, document.schema_version as usize);
        message.append(" is unsupported; expected 1");
        validator.error("$.schema_version".to_owned(), "unsupported_schema_version", message);
    }
    let ghost s1 = validator.log();
    let root = "$.root".to_owned();
    validator.command(&document.root, root.as_str(), 0);
    proof {
        assert(validator.log() =~= document_errors(*document));
    }
    validator.finish()
}

/// Validates a command tree as a root command.
pub fn validate_command(command: &CommandSpec) -> (r: Result<(), ValidationErrors>)
    ensures
        validation_result(command_errors(*command, root_path(), 0), r),
{
    let mut validator = Validator { errors: Vec::new() };
    proof {
        assert(validator.log() =~= Seq::<ErrorView>::empty());
    }
    let root = "$.root".to_owned();
    validator.command(command, root.as_str(), 0);
    proof {
        assert(validator.log() =~= command_errors(*command, root_path(), 0));
    }
    validator.finish()
}

impl Validator {
    fn finish(self) -> (r: Result<(), ValidationErrors>)
        ensures
            validation_result(self.log(), r),
    {
        if self.errors.len() == 0 {
            Ok(())
        } else {
            Err(ValidationErrors { errors: self.errors })
        }
    }
}

proof fn lemma_subcommands_prefix(command: CommandSpec, path: Seq<char>, depth: nat, a: int, b: int)
    requires
        0 <= a <= b <= command.subcommands@.len(),
    ensures
        subcommands_errors(command, path, depth, a).len() <= subcommands_errors(command, path, depth, b).len(),
        subcommands_errors(command, path, depth, b).subrange(0, subcommands_errors(command, path, depth, a).len() as int)
            == subcommands_errors(command, path, depth, a),
    decreases b - a,
{
    let ea = subcommands_errors(command, path, depth, a);
    if a < b {
        lemma_subcommands_prefix(command, path, depth, a, b - 1);
        let eb1 = subcommands_errors(command, path, depth, b - 1);
        let eb = subcommands_errors(command, path, depth, b);
        if depth <= MAX_COMMAND_DEPTH {
            assert(eb.subrange(0, eb1.len() as int) =~= eb1);
            assert(eb.subrange(0, ea.len() as int) =~= eb1.subrange(0, ea.len() as int));
        }
    } else {
        assert(ea.subrange(0, ea.len() as int) =~= ea);
    }
}

/// The command tree is checked only to depth 32: every subcommand of a
/// command at that depth is reported as `max_depth_exceeded` at its path.
pub proof fn law_depth_limit(command: CommandSpec, path: Seq<char>, i: int)
    requires
        0 <= i < command.subcommands@.len(),
    ensures
        command_errors(command, path, MAX_COMMAND_DEPTH as nat).contains(
            (field(subcommand_path(path, i), "command"@), "max_depth_exceeded"@, "command depth must not exceed 32"@),
        ),
{
    let depth = MAX_COMMAND_DEPTH as nat;
    let n = command.subcommands@.len() as int;
    let target = (field(subcommand_path(path, i), "command"@), "max_depth_exceeded"@, "command depth must not exceed 32"@);
    let upto = subcommands_errors(command, path, depth, i + 1);
    assert(upto.last() == target);
    lemma_subcommands_prefix(command, path, depth, i + 1, n);
    let all = subcommands_errors(command, path, depth, n);
    assert(all[upto.len() - 1] == upto[upto.len() - 1]);
    let whole = command_errors(command, path, depth);
    let head = whole.subrange(0, whole.len() - all.len());
    assert(whole =~= head + all) by {
        let options = command.options@;
        let prefix = token_errors(command.name@, field(path, "name"@), "invalid_command_name"@)
            + token_errors(command.executable.name@, field(path, "executable.name"@), "invalid_executable_name"@)
            + optional_trimmed_errors(command.executable.path, field(path, "executable.path"@), "invalid_executable_path"@)
            + usage_errors(command.usage@, path, command.usage@.len() as int)
            + metadata_errors(command.metadata, field(path, "metadata"@))
            + options_errors(options, path, options.len() as int)
            + options_reference_errors(options, path, options.len() as int)
            + positionals_errors(command.positionals@, path, command.positionals@.len() as int);
        assert(whole == prefix + all);
        assert(head =~= prefix);
    }
    assert(whole[head.len() + upto.len() - 1] == target);
}

/// Validating a document twice gives the same outcome with the same errors.
pub proof fn law_validation_is_repeatable(document: SchemaDocument, first: Result<(), ValidationErrors>, second: Result<(), ValidationErrors>)
    requires
        validation_result(document_errors(document), first),
        validation_result(document_errors(document), second),
    ensures
        first is Ok <==> second is Ok,
        first is Err ==> errors_view(first->Err_0.errors@) == errors_view(second->Err_0.errors@),
{
}

/// The number of nesting levels below `command`: 0 for a command without
/// subcommands.
pub open spec fn height(command: CommandSpec) -> nat
    decreases command, command.subcommands@.len() + 1,
{
    subcommands_height(command, command.subcommands@.len() as int)
}

/// The height that the first `n` subcommands of `command` give it.
pub open spec fn subcommands_height(command: CommandSpec, n: int) -> nat
    decreases command, if n <= 0 { 0 } else { n as nat },
{
    if n <= 0 || n > command.subcommands@.len() {
        0
    } else {
        proof {
            assert(decreases_to!(command.subcommands => command.subcommands@));
            assert(decreases_to!(command.subcommands@ => command.subcommands@[n - 1]));
        }
        let rest = subcommands_height(command, n - 1);
        let child = 1 + height(*command.subcommands@[n - 1].command);
        if child > rest { child } else { rest }
    }
}

/// Errors of a command tree with no limit on its depth: the rules of
/// `command_errors` applied to every node.
pub open spec fn tree_errors(command: CommandSpec, path: Seq<char>) -> Seq<ErrorView>
    decreases command, command.subcommands@.len() + 1,
{
    let options = command.options@;
    token_errors(command.name@, field(path, "name"@), "invalid_command_name"@)
        + token_errors(command.executable.name@, field(path, "executable.name"@), "invalid_executable_name"@)
        + optional_trimmed_errors(command.executable.path, field(path, "executable.path"@), "invalid_executable_path"@)
        + usage_errors(command.usage@, path, command.usage@.len() as int)
        + metadata_errors(command.metadata, field(path, "metadata"@))
        + options_errors(options, path, options.len() as int)
        + options_reference_errors(options, path, options.len() as int)
        + positionals_errors(command.positionals@, path, command.positionals@.len() as int)
        + tree_subcommands_errors(command, path, command.subcommands@.len() as int)
}

/// Errors of the first `n` subcommands of `command`, with no depth limit.
pub open spec fn tree_subcommands_errors(command: CommandSpec, path: Seq<char>, n: int) -> Seq<ErrorView>
    decreases command, if n <= 0 { 0 } else { n as nat },
{
    if n <= 0 || n > command.subcommands@.len() {
        Seq::empty()
    } else {
        proof {
            assert(decreases_to!(command.subcommands => command.subcommands@));
            assert(decreases_to!(command.subcommands@ => command.subcommands@[n - 1]));
        }
        let i = n - 1;
        let subs = command.subcommands@;
        let sp = subcommand_path(path, i);
        let child = field(sp, "command"@);
        tree_subcommands_errors(command, path, i) + token_errors(subs[i].name@, field(sp, "name"@), "invalid_subcommand_name"@)
            + repeated_token_error(subs, i, 0, field(sp, "name"@))
            + alias_errors(subs, i, path, subs[i].aliases@.len() as int)
            + tree_errors(*subs[i].command, child)
    }
}

proof fn lemma_subcommands_height(command: CommandSpec, n: int, i: int)
    requires
        0 <= i < n <= command.subcommands@.len(),
    ensures
        subcommands_height(command, n) >= 1 + height(*command.subcommands@[i].command),
    decreases n,
{
    if i < n - 1 {
        lemma_subcommands_height(command, n - 1, i);
    }
}

proof fn lemma_within_limit(command: CommandSpec, path: Seq<char>, depth: nat)
    requires
        depth + height(command) <= MAX_COMMAND_DEPTH,
    ensures
        command_errors(command, path, depth) == tree_errors(command, path),
    decreases command, command.subcommands@.len() + 1,
{
    lemma_subcommands_within_limit(command, path, depth, command.subcommands@.len() as int);
}

proof fn lemma_subcommands_within_limit(command: CommandSpec, path: Seq<char>, depth: nat, n: int)
    requires
        depth + height(command) <= MAX_COMMAND_DEPTH,
        0 <= n <= command.subcommands@.len(),
    ensures
        subcommands_errors(command, path, depth, n) == tree_subcommands_errors(command, path, n),
    decreases command, n,
{
    if n > 0 {
        let i = n - 1;
        assert(decreases_to!(command.subcommands => command.subcommands@));
        assert(decreases_to!(command.subcommands@ => command.subcommands@[i]));
        lemma_subcommands_within_limit(command, path, depth, i);
        lemma_subcommands_height(command, command.subcommands@.len() as int, i);
        let child = *command.subcommands@[i].command;
        lemma_within_limit(child, field(subcommand_path(path, i), "command"@), depth + 1);
    }
}

/// Within the depth limit the limit changes nothing: a tree whose deepest
/// command sits at depth 32 or less gets exactly the errors of its nodes,
/// none of them for its depth.
pub proof fn law_depth_within_limit(command: CommandSpec, path: Seq<char>, depth: nat)
    requires
        depth + height(command) <= MAX_COMMAND_DEPTH,
    ensures
        command_errors(command, path, depth) == tree_errors(command, path),
{
    lemma_within_limit(command, path, depth);
}

/// Some error of `errors` is at `path` with `code`.
pub open spec fn has_error(errors: Seq<ErrorView>, path: Seq<char>, code: Seq<char>) -> bool {
    exists|k: int| 0 <= k < errors.len() && (#[trigger] errors[k]).0 == path && errors[k].1 == code
}

proof fn lemma_has_error_concat(a: Seq<ErrorView>, b: Seq<ErrorView>, path: Seq<char>, code: Seq<char>)
    ensures
        has_error(a, path, code) ==> has_error(a + b, path, code),
        has_error(b, path, code) ==> has_error(a + b, path, code),
{
    if has_error(a, path, code) {
        let k = choose|k: int| 0 <= k < a.len() && (#[trigger] a[k]).0 == path && a[k].1 == code;
        assert((a + b)[k] == a[k]);
    }
    if has_error(b, path, code) {
        let k = choose|k: int| 0 <= k < b.len() && (#[trigger] b[k]).0 == path && b[k].1 == code;
        assert((a + b)[a.len() + k] == b[k]);
    }
}

proof fn lemma_duplicate_id_in_options(options: Seq<OptionSpec>, path: Seq<char>, n: int, i: int, j: int)
    requires
        0 <= i < j < n <= options.len(),
        options[i].id.view_id() == options[j].id.view_id(),
    ensures
        has_error(options_errors(options, path, n), field(option_path(path, j), "id"@), "duplicate_option_id"@),
    decreases n,
{
    let target = field(option_path(path, j), "id"@);
    let code = "duplicate_option_id"@;
    if j == n - 1 {
        assert(id_repeated(options, j));
        let op = option_path(path, j);
        let id = options[j].id.view_id();
        let first = when(!valid_option_id(id), one(field(op, "id"@), "invalid_option_id"@, "option ID must be nonempty ASCII [A-Za-z0-9._-]+"@));
        let dup = one(field(op, "id"@), "duplicate_option_id"@, "option ID `"@ + id + "` is already used in this command"@);
        assert(dup[0].0 == target && dup[0].1 == code);
        lemma_has_error_concat(first, dup, target, code);
        let third = when(options[j].names@.len() == 0, one(field(op, "names"@), "missing_option_name"@, "option records must define at least one name"@));
        lemma_has_error_concat(first + dup, third, target, code);
        let identity = option_identity_errors(options, j, path);
        assert(identity == first + dup + third);
        let rest1 = name_errors(options, j, path, options[j].names@.len() as int);
        lemma_has_error_concat(identity, rest1, target, code);
        let rest2 = value_errors(options[j].value.arity, options[j].value.name, options[j].value.value_type, strings_view(options[j].value.possible_values@), field(op, "value"@), true);
        lemma_has_error_concat(identity + rest1, rest2, target, code);
        let rest3 = span_errors(options[j].source_span, field(op, "source_span"@));
        lemma_has_error_concat(identity + rest1 + rest2, rest3, target, code);
        assert(option_errors(options, j, path) == identity + rest1 + rest2 + rest3);
        lemma_has_error_concat(options_errors(options, path, n - 1), option_errors(options, j, path), target, code);
    } else {
        lemma_duplicate_id_in_options(options, path, n - 1, i, j);
        lemma_has_error_concat(options_errors(options, path, n - 1), option_errors(options, n - 1, path), target, code);
    }
}

/// Two options of one command may not share an ID: whenever options `i` and
/// `j > i` have equal IDs, validating the command (at any depth within the
/// limit) reports `duplicate_option_id` at the later option's `id` path.
pub proof fn law_duplicate_option_ids_are_reported(command: CommandSpec, path: Seq<char>, depth: nat, i: int, j: int)
    requires
        depth <= MAX_COMMAND_DEPTH,
        0 <= i < j < command.options@.len(),
        command.options@[i].id.view_id() == command.options@[j].id.view_id(),
    ensures
        has_error(command_errors(command, path, depth), field(option_path(path, j), "id"@), "duplicate_option_id"@),
{
    let target = field(option_path(path, j), "id"@);
    let code = "duplicate_option_id"@;
    let options = command.options@;
    let e1 = token_errors(command.name@, field(path, "name"@), "invalid_command_name"@);
    let e2 = token_errors(command.executable.name@, field(path, "executable.name"@), "invalid_executable_name"@);
    let e3 = optional_trimmed_errors(command.executable.path, field(path, "executable.path"@), "invalid_executable_path"@);
    let e4 = usage_errors(command.usage@, path, command.usage@.len() as int);
    let e5 = metadata_errors(command.metadata, field(path, "metadata"@));
    let e6 = options_errors(options, path, options.len() as int);
    let e7 = options_reference_errors(options, path, options.len() as int);
    let e8 = positionals_errors(command.positionals@, path, command.positionals@.len() as int);
    let e9 = subcommands_errors(command, path, depth, command.subcommands@.len() as int);
    lemma_duplicate_id_in_options(options, path, options.len() as int, i, j);
    lemma_has_error_concat(e1 + e2 + e3 + e4 + e5, e6, target, code);
    lemma_has_error_concat(e1 + e2 + e3 + e4 + e5 + e6, e7, target, code);
    lemma_has_error_concat(e1 + e2 + e3 + e4 + e5 + e6 + e7, e8, target, code);
    lemma_has_error_concat(e1 + e2 + e3 + e4 + e5 + e6 + e7 + e8, e9, target, code);
    assert(command_errors(command, path, depth) == e1 + e2 + e3 + e4 + e5 + e6 + e7 + e8 + e9);
}

/// For a whole document: two root options with equal IDs make validation
/// report `duplicate_option_id` at `$.root.options[j].id`.
pub proof fn law_duplicate_root_option_ids_are_reported(document: SchemaDocument, i: int, j: int)
    requires
        0 <= i < j < document.root.options@.len(),
        document.root.options@[i].id.view_id() == document.root.options@[j].id.view_id(),
    ensures
        has_error(document_errors(document), field(option_path(root_path(), j), "id"@), "duplicate_option_id"@),
{
    law_duplicate_option_ids_are_reported(document.root, root_path(), 0, i, j);
    let head = when(
        document.schema_version != SCHEMA_VERSION,
        one("$.schema_version"@, "unsupported_schema_version"@, "schema version "@ + decimal(document.schema_version as nat) + " is unsupported; expected 1"@),
    );
    lemma_has_error_concat(head, command_errors(document.root, root_path(), 0), field(option_path(root_path(), j), "id"@), "duplicate_option_id"@);
}

} // verus!
