//! The canonical command schema: a tree of commands with their options,
//! positionals and metadata, and its validation.
use std::collections::BTreeMap;
use vstd::prelude::*;
use crate::text::{push_char, utf8_bytes};

pub mod validation;

pub use validation::{ValidationError, ValidationErrors};

verus! {

/// A JSON value kept in metadata extensions; the schema never reads it.
#[verifier::external_type_specification]
#[verifier::external_body]
pub struct ExJsonValue(serde_json::Value);

/// `Clone` of `serde_json::Value` (derived in serde_json), which cloning a
/// schema's metadata calls. Nothing is claimed of the result: no verified
/// code reads extension values.
pub assume_specification[ <serde_json::Value as Clone>::clone ](value: &serde_json::Value) -> serde_json::Value;

pub const SCHEMA_VERSION: u16 = 1;

pub const MAX_COMMAND_DEPTH: usize = 32;

#[derive(Debug, PartialEq, Eq)]
pub struct SchemaDocument {
    pub schema_version: u16,
    pub root: CommandSpec,
}

impl SchemaDocument {
    /// A document of the current schema version.
    pub fn new(root: CommandSpec) -> (document: Self)
        ensures
            document.schema_version == SCHEMA_VERSION,
            document.root == root,
    {
        SchemaDocument { schema_version: SCHEMA_VERSION, root }
    }

    /// Checks the document against the schema rules; see `document_errors`.
    pub fn validate(&self) -> (r: Result<(), ValidationErrors>)
        ensures
            validation::validation_result(validation::document_errors(*self), r),
    {
        validation::validate_document(self)
    }
}

impl CommandSpec {
    /// Checks a command tree as a root command; see `command_errors`.
    pub fn validate(&self) -> (r: Result<(), ValidationErrors>)
        ensures
            validation::validation_result(validation::command_errors(*self, validation::root_path(), 0), r),
    {
        validation::validate_command(self)
    }
}

#[derive(Debug, PartialEq, Eq)]
pub struct CommandSpec {
    pub executable: ExecutableIdentity,
    pub name: String,
    pub description: Option<String>,
    pub usage: Vec<String>,
    pub subcommands: Vec<SubcommandSpec>,
    pub options: Vec<OptionSpec>,
    pub positionals: Vec<PositionalSpec>,
    pub metadata: SpecMetadata,
}

#[derive(Clone, Debug, PartialEq, Eq)]
pub struct ExecutableIdentity {
    pub name: String,
    pub path: Option<String>,
}

/// `copy` holds the same option as `option`: every field the same value,
/// vectors by their contents.
pub open spec fn option_copy(copy: OptionSpec, option: OptionSpec) -> bool {
    &&& copy.id == option.id
    &&& copy.names@ == option.names@
    &&& copy.description == option.description
    &&& copy.value.arity == option.value.arity
    &&& copy.value.name == option.value.name
    &&& copy.value.value_type == option.value.value_type
    &&& copy.value.possible_values@ == option.value.possible_values@
    &&& copy.repeatability == option.repeatability
    &&& copy.required == option.required
    &&& copy.scope == option.scope
    &&& copy.hidden == option.hidden
    &&& copy.negates == option.negates
    &&& copy.conflicts_with@ == option.conflicts_with@
    &&& copy.requires@ == option.requires@
    &&& copy.insertion_policy == option.insertion_policy
    &&& copy.source_span == option.source_span
}

/// `copy` holds the same positional as `positional`.
pub open spec fn positional_copy(copy: PositionalSpec, positional: PositionalSpec) -> bool {
    &&& copy.name == positional.name
    &&& copy.description == positional.description
    &&& copy.arity == positional.arity
    &&& copy.value_type == positional.value_type
    &&& copy.required == positional.required
    &&& copy.possible_values@ == positional.possible_values@
    &&& copy.source_span == positional.source_span
}

/// `copy` holds the same metadata as `metadata`; the extensions map has the
/// same contents.
pub open spec fn metadata_copy(copy: SpecMetadata, metadata: SpecMetadata) -> bool {
    &&& copy.source == metadata.source
    &&& copy.parser == metadata.parser
    &&& copy.confidence == metadata.confidence
    &&& copy.executable_version == metadata.executable_version
    &&& copy.fingerprint == metadata.fingerprint
    &&& copy.extensions@ == metadata.extensions@
}

/// `copy` holds the same command tree as `command`, node by node.
pub open spec fn command_copy(copy: CommandSpec, command: CommandSpec) -> bool
    decreases command, command.subcommands@.len() + 1,
{
    &&& copy.executable == command.executable
    &&& copy.name == command.name
    &&& copy.description == command.description
    &&& copy.usage@ == command.usage@
    &&& copy.options@.len() == command.options@.len()
    &&& (forall|i: int| 0 <= i < command.options@.len() ==> option_copy(#[trigger] copy.options@[i], command.options@[i]))
    &&& copy.positionals@.len() == command.positionals@.len()
    &&& (forall|i: int| 0 <= i < command.positionals@.len() ==> positional_copy(#[trigger] copy.positionals@[i], command.positionals@[i]))
    &&& metadata_copy(copy.metadata, command.metadata)
    &&& copy.subcommands@.len() == command.subcommands@.len()
    &&& subcommands_copy(copy, command, command.subcommands@.len() as int)
}

/// The first `n` subcommands of `copy` hold the same subcommands as those of `command`.
pub open spec fn subcommands_copy(copy: CommandSpec, command: CommandSpec, n: int) -> bool
    decreases command, if n <= 0 { 0 } else { n as nat },
{
    if n <= 0 || n > command.subcommands@.len() || n > copy.subcommands@.len() {
        true
    } else {
        proof {
            assert(decreases_to!(command.subcommands => command.subcommands@));
            assert(decreases_to!(command.subcommands@ => command.subcommands@[n - 1]));
        }
        let i = n - 1;
        &&& subcommands_copy(copy, command, i)
        &&& copy.subcommands@[i].name == command.subcommands@[i].name
        &&& copy.subcommands@[i].aliases@ == command.subcommands@[i].aliases@
        &&& command_copy(*copy.subcommands@[i].command, *command.subcommands@[i].command)
    }
}

fn clone_text(value: &Option<String>) -> (copy: Option<String>)
    ensures
        copy == *value,
{
    match value {
        Some(text) => Some(text.clone()),
        None => None,
    }
}

fn clone_strings(values: &Vec<String>) -> (copy: Vec<String>)
    ensures
        copy@ == values@,
{
    let mut copy: Vec<String> = Vec::new();
    let mut i: usize = 0;
    while i < values.len()
        invariant
            0 <= i <= values.len(),
            copy@ == values@.take(i as int),
        decreases values.len() - i,
    {
        copy.push(values[i].clone());
        proof {
            assert(values@.take(i as int + 1) =~= values@.take(i as int).push(values@[i as int]));
        }
        i = i + 1;
    }
    proof {
        assert(values@.take(values@.len() as int) =~= values@);
    }
    copy
}

fn clone_id(id: &OptionId) -> (copy: OptionId)
    ensures
        copy == *id,
{
    OptionId(id.0.clone())
}

fn clone_ids(ids: &Vec<OptionId>) -> (copy: Vec<OptionId>)
    ensures
        copy@ == ids@,
{
    let mut copy: Vec<OptionId> = Vec::new();
    let mut i: usize = 0;
    while i < ids.len()
        invariant
            0 <= i <= ids.len(),
            copy@ == ids@.take(i as int),
        decreases ids.len() - i,
    {
        copy.push(clone_id(&ids[i]));
        proof {
            assert(ids@.take(i as int + 1) =~= ids@.take(i as int).push(ids@[i as int]));
        }
        i = i + 1;
    }
    proof {
        assert(ids@.take(ids@.len() as int) =~= ids@);
    }
    copy
}

fn clone_name(name: &OptionName) -> (copy: OptionName)
    ensures
        copy == *name,
{
    match name {
        OptionName::Short(c) => OptionName::Short(*c),
        OptionName::Long(value) => OptionName::Long(value.clone()),
        OptionName::SingleDashLong(value) => OptionName::SingleDashLong(value.clone()),
    }
}

fn clone_names(names: &Vec<OptionName>) -> (copy: Vec<OptionName>)
    ensures
        copy@ == names@,
{
    let mut copy: Vec<OptionName> = Vec::new();
    let mut i: usize = 0;
    while i < names.len()
        invariant
            0 <= i <= names.len(),
            copy@ == names@.take(i as int),
        decreases names.len() - i,
    {
        copy.push(clone_name(&names[i]));
        proof {
            assert(names@.take(i as int + 1) =~= names@.take(i as int).push(names@[i as int]));
        }
        i = i + 1;
    }
    proof {
        assert(names@.take(names@.len() as int) =~= names@);
    }
    copy
}

fn clone_span(span: &Option<SourceSpan>) -> (copy: Option<SourceSpan>)
    ensures
        copy == *span,
{
    match span {
        Some(s) => Some(SourceSpan { start: s.start, end: s.end }),
        None => None,
    }
}

fn clone_option(option: &OptionSpec) -> (copy: OptionSpec)
    ensures
        option_copy(copy, *option),
{
    OptionSpec {
        id: clone_id(&option.id),
        names: clone_names(&option.names),
        description: clone_text(&option.description),
        value: ValueSpec {
            arity: option.value.arity,
            name: clone_text(&option.value.name),
            value_type: option.value.value_type,
            possible_values: clone_strings(&option.value.possible_values),
        },
        repeatability: option.repeatability,
        required: option.required,
        scope: option.scope,
        hidden: option.hidden,
        negates: match &option.negates {
            Some(id) => Some(clone_id(id)),
            None => None,
        },
        conflicts_with: clone_ids(&option.conflicts_with),
        requires: clone_ids(&option.requires),
        insertion_policy: option.insertion_policy,
        source_span: clone_span(&option.source_span),
    }
}

fn clone_positional(positional: &PositionalSpec) -> (copy: PositionalSpec)
    ensures
        positional_copy(copy, *positional),
{
    PositionalSpec {
        name: positional.name.clone(),
        description: clone_text(&positional.description),
        arity: positional.arity,
        value_type: positional.value_type,
        required: positional.required,
        possible_values: clone_strings(&positional.possible_values),
        source_span: clone_span(&positional.source_span),
    }
}

fn clone_metadata(metadata: &SpecMetadata) -> (copy: SpecMetadata)
    ensures
        metadata_copy(copy, *metadata),
{
    SpecMetadata {
        source: metadata.source,
        parser: clone_text(&metadata.parser),
        confidence: metadata.confidence,
        executable_version: clone_text(&metadata.executable_version),
        fingerprint: clone_text(&metadata.fingerprint),
        extensions: metadata.extensions.clone(),
    }
}

/// A copy of a command tree, subcommands included.
fn clone_command(command: &CommandSpec) -> (copy: CommandSpec)
    ensures
        command_copy(copy, *command),
    decreases command,
{
    let mut subcommands: Vec<SubcommandSpec> = Vec::new();
    let mut i: usize = 0;
    while i < command.subcommands.len()
        invariant
            0 <= i <= command.subcommands.len(),
            subcommands@.len() == i,
            forall|j: int| 0 <= j < i ==> (#[trigger] subcommands@[j]).name == command.subcommands@[j].name
                && subcommands@[j].aliases@ == command.subcommands@[j].aliases@
                && command_copy(*subcommands@[j].command, *command.subcommands@[j].command),
        decreases command.subcommands.len() - i,
    {
        let subcommand = &command.subcommands[i];
        proof {
            assert(decreases_to!(command.subcommands => command.subcommands@));
            assert(decreases_to!(command.subcommands@ => command.subcommands@[i as int]));
            assert(decreases_to!(*command => *command.subcommands@[i as int].command));
        }
        let ghost before = subcommands@;
        subcommands.push(SubcommandSpec {
            name: subcommand.name.clone(),
            aliases: clone_strings(&subcommand.aliases),
            command: Box::new(clone_command(&subcommand.command)),
        });
        proof {
            assert forall|j: int| 0 <= j < i ==> #[trigger] subcommands@[j] == before[j] by {}
        }
        i = i + 1;
    }
    let mut options: Vec<OptionSpec> = Vec::new();
    let mut k: usize = 0;
    while k < command.options.len()
        invariant
            0 <= k <= command.options.len(),
            options@.len() == k,
            forall|j: int| 0 <= j < k ==> option_copy(#[trigger] options@[j], command.options@[j]),
        decreases command.options.len() - k,
    {
        let ghost before = options@;
        options.push(clone_option(&command.options[k]));
        proof {
            assert forall|j: int| 0 <= j < k ==> #[trigger] options@[j] == before[j] by {}
        }
        k = k + 1;
    }
    let mut positionals: Vec<PositionalSpec> = Vec::new();
    let mut p: usize = 0;
    while p < command.positionals.len()
        invariant
            0 <= p <= command.positionals.len(),
            positionals@.len() == p,
            forall|j: int| 0 <= j < p ==> positional_copy(#[trigger] positionals@[j], command.positionals@[j]),
        decreases command.positionals.len() - p,
    {
        let ghost before = positionals@;
        positionals.push(clone_positional(&command.positionals[p]));
        proof {
            assert forall|j: int| 0 <= j < p ==> #[trigger] positionals@[j] == before[j] by {}
        }
        p = p + 1;
    }
    let copy = CommandSpec {
        executable: ExecutableIdentity { name: command.executable.name.clone(), path: clone_text(&command.executable.path) },
        name: command.name.clone(),
        description: clone_text(&command.description),
        usage: clone_strings(&command.usage),
        subcommands,
        options,
        positionals,
        metadata: clone_metadata(&command.metadata),
    };
    proof {
        lemma_subcommands_copy(copy, *command, command.subcommands@.len() as int);
    }
    copy
}

proof fn lemma_subcommands_copy(copy: CommandSpec, command: CommandSpec, n: int)
    requires
        0 <= n <= command.subcommands@.len(),
        n <= copy.subcommands@.len(),
        forall|j: int| 0 <= j < n ==> (#[trigger] copy.subcommands@[j]).name == command.subcommands@[j].name
            && copy.subcommands@[j].aliases@ == command.subcommands@[j].aliases@
            && command_copy(*copy.subcommands@[j].command, *command.subcommands@[j].command),
    ensures
        subcommands_copy(copy, command, n),
    decreases n,
{
    if n > 0 {
        lemma_subcommands_copy(copy, command, n - 1);
    }
}

impl Clone for CommandSpec {
    fn clone(&self) -> Self {
        clone_command(self)
    }
}

impl Clone for SubcommandSpec {
    fn clone(&self) -> Self {
        SubcommandSpec { name: self.name.clone(), aliases: self.aliases.clone(), command: Box::new(clone_command(&self.command)) }
    }
}

impl Clone for SchemaDocument {
    fn clone(&self) -> Self {
        SchemaDocument { schema_version: self.schema_version, root: clone_command(&self.root) }
    }
}

#[derive(Debug, PartialEq, Eq)]
pub struct SubcommandSpec {
    pub name: String,
    pub aliases: Vec<String>,
    pub command: Box<CommandSpec>,
}

#[derive(Clone, Debug, PartialEq, Eq)]
pub struct OptionSpec {
    pub id: OptionId,
    pub names: Vec<OptionName>,
    pub description: Option<String>,
    pub value: ValueSpec,
    pub repeatability: Repeatability,
    pub required: bool,
    pub scope: Scope,
    pub hidden: bool,
    pub negates: Option<OptionId>,
    pub conflicts_with: Vec<OptionId>,
    pub requires: Vec<OptionId>,
    pub insertion_policy: InsertionPolicy,
    pub source_span: Option<SourceSpan>,
}

/// Identifier of an option, local to its command node.
#[derive(Clone, Debug, PartialEq, Eq, PartialOrd, Ord)]
pub struct OptionId(pub String);

impl OptionId {
    pub open spec fn view_id(&self) -> Seq<char> {
        self.0@
    }

    pub fn new(value: &str) -> (id: Self)
        ensures
            id.view_id() == value@,
    {
        OptionId(value.to_owned())
    }

    pub fn as_str(&self) -> (s: &str)
        ensures
            s@ == self.view_id(),
    {
        self.0.as_str()
    }
}

/// How an option is spelled: `-c`, `--name` or `-name`.
#[derive(Clone, Debug, PartialEq, Eq)]
pub enum OptionName {
    Short(char),
    Long(String),
    SingleDashLong(String),
}

impl OptionName {
    /// The rendered token of the name.
    pub open spec fn spelling_view(&self) -> Seq<char> {
        match self {
            OptionName::Short(c) => seq!['-', *c],
            OptionName::Long(value) => seq!['-', '-'] + value@,
            OptionName::SingleDashLong(value) => seq!['-'] + value@,
        }
    }

    pub fn spelling(&self) -> (s: String)
        ensures
            s@ == self.spelling_view(),
    {
        let mut s = String::new();
        push_char(&mut s, '-');
        match self {
            OptionName::Short(c) => {
                push_char(&mut s, *c);
            },
            OptionName::Long(value) => {
                push_char(&mut s, '-');
                s.append(value.as_str());
            },
            OptionName::SingleDashLong(value) => {
                s.append(value.as_str());
            },
        }
        proof {
            assert(s@ =~= self.spelling_view());
        }
        s
    }
}

#[derive(Clone, Debug, PartialEq, Eq)]
pub struct ValueSpec {
    pub arity: ValueArity,
    pub name: Option<String>,
    pub value_type: ValueType,
    pub possible_values: Vec<String>,
}

#[derive(Clone, Debug, PartialEq, Eq)]
pub struct PositionalSpec {
    pub name: String,
    pub description: Option<String>,
    pub arity: ValueArity,
    pub value_type: ValueType,
    pub required: bool,
    pub possible_values: Vec<String>,
    pub source_span: Option<SourceSpan>,
}

#[derive(Clone, Debug, PartialEq, Eq)]
pub struct SourceSpan {
    pub start: usize,
    pub end: usize,
}

#[derive(Clone, Copy, Debug, PartialEq, Eq)]
pub enum ValueArity {
    /// The option takes no value (serialized as `none`).
    NoValue,
    Required,
    Optional,
    Multiple,
    Unknown,
}

#[derive(Clone, Copy, Debug, PartialEq, Eq)]
pub enum ValueType {
    Bool,
    String,
    Integer,
    Float,
    Path,
    Enum,
    KeyValue,
    Url,
    Unknown,
}

#[derive(Clone, Copy, Debug, PartialEq, Eq)]
pub enum Repeatability {
    Single,
    Repeatable,
    Unknown,
}

#[derive(Clone, Copy, Debug, PartialEq, Eq)]
pub enum Scope {
    Local,
    Global,
    Unknown,
}

#[derive(Clone, Copy, Debug, PartialEq, Eq)]
pub enum InsertionPolicy {
    Append,
    BeforePositionals,
    BeforeTerminator,
    AtCursor,
    CommandSpecific,
    Unknown,
}

#[derive(Clone, Copy, Debug, PartialEq, Eq)]
pub enum Confidence {
    High,
    Medium,
    Low,
    Unknown,
}

#[derive(Clone, Copy, Debug, PartialEq, Eq)]
pub enum HelpSource {
    BuiltIn,
    MachineReadable,
    Completion,
    FrameworkHelp,
    GenericHelp,
    ManPage,
    Fallback,
    Unknown,
}

#[derive(Clone, Debug, PartialEq, Eq)]
pub struct SpecMetadata {
    pub source: HelpSource,
    pub parser: Option<String>,
    pub confidence: Confidence,
    pub executable_version: Option<String>,
    pub fingerprint: Option<String>,
    pub extensions: BTreeMap<String, serde_json::Value>,
}

} // verus!
