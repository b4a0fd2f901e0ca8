use flagpick::buffer::{Edit, ShellBuffer};
use flagpick::picker::{
    builtin_options, options_from_schema, InsertionPoint, OptionItem, PickerError, PickerOutcome,
    PickerState,
};
use flagpick::schema::{
    CommandSpec, Confidence, ExecutableIdentity, HelpSource, InsertionPolicy, OptionId, OptionName,
    OptionSpec, Repeatability, SchemaDocument, Scope, SourceSpan, SpecMetadata, ValueArity,
    ValueSpec, ValueType,
};
use std::collections::BTreeMap;

fn state(text: &str) -> PickerState {
    PickerState::new(&ShellBuffer::new(text))
}

#[test]
fn options_have_deterministic_order() {
    assert_eq!(
        builtin_options()
            .iter()
            .map(|item| item.flag.as_str())
            .collect::<Vec<_>>(),
        vec!["--help", "--verbose", "--version"]
    );
}

#[test]
fn search_matches_names_descriptions_and_ascii_case() {
    let mut picker = state("");
    picker.push_query_char('v');
    assert_eq!(picker.selected_item().unwrap().flag, "--verbose");

    picker.pop_query_char();
    for character in "OUTPUT".chars() {
        picker.push_query_char(character);
    }
    assert_eq!(picker.selected_item().unwrap().flag, "--verbose");
}

#[test]
fn no_matches_has_no_selection_and_cannot_confirm() {
    let mut picker = state("");
    picker.push_query_char('z');
    assert!(picker.selected_item().is_none());
    assert_eq!(
        picker.confirm(InsertionPoint::Append),
        Err(PickerError::NoSelection)
    );
}

#[test]
fn navigation_wraps_in_both_directions() {
    let mut picker = state("");
    picker.move_previous();
    assert_eq!(picker.selected_item().unwrap().flag, "--version");
    picker.move_next();
    assert_eq!(picker.selected_item().unwrap().flag, "--help");
}

#[test]
fn query_deletion_restores_matches() {
    let mut picker = state("");
    for character in "help".chars() {
        picker.push_query_char(character);
    }
    assert_eq!(picker.filtered_items().len(), 1);
    picker.pop_query_char();
    assert_eq!(picker.query(), "hel");
    assert_eq!(picker.selected_item().unwrap().flag, "--help");
}

#[test]
fn append_spacing_is_conservative() {
    let empty = state("");
    assert_eq!(
        empty.confirm(InsertionPoint::Append),
        Ok(PickerOutcome::Confirm(Edit::Insert {
            at: 0,
            text: "--help".into()
        }))
    );

    let nonempty = state("git");
    assert_eq!(
        nonempty.confirm(InsertionPoint::Append),
        Ok(PickerOutcome::Confirm(Edit::Insert {
            at: 3,
            text: " --help".into()
        }))
    );

    let trailing_whitespace = state("git ");
    assert_eq!(
        trailing_whitespace.confirm(InsertionPoint::Append),
        Ok(PickerOutcome::Confirm(Edit::Insert {
            at: 4,
            text: "--help".into()
        }))
    );
}

#[test]
fn cursor_insertion_does_not_add_spacing() {
    let picker = state("git status");
    assert_eq!(
        picker.confirm(InsertionPoint::Cursor(2)),
        Ok(PickerOutcome::Confirm(Edit::Insert {
            at: 2,
            text: "--help".into()
        }))
    );
}

#[test]
fn partial_command_confirmation_returns_the_edited_buffer() {
    let buffer = ShellBuffer::new("curl https://example.com");
    let mut picker = PickerState::new(&buffer);
    for character in "verbose".chars() {
        picker.push_query_char(character);
    }

    let PickerOutcome::Confirm(edit) = picker
        .confirm(InsertionPoint::Append)
        .expect("matching option can be confirmed")
    else {
        panic!("confirmation must return an edit");
    };

    assert_eq!(
        buffer.apply(&[edit]),
        Ok("curl https://example.com --verbose".to_owned())
    );
}

#[test]
fn cancellation_returns_no_edit() {
    assert_eq!(state("curl").cancel(), PickerOutcome::Cancel);
}

#[test]
fn cursor_beyond_the_buffer_is_rejected() {
    let picker = state("git");
    assert_eq!(
        picker.confirm(InsertionPoint::Cursor(4)),
        Err(PickerError::InvalidCursor {
            cursor: 4,
            buffer_len: 3
        })
    );
}

#[test]
fn empty_query_lists_every_option_in_order() {
    let picker = state("");
    let flags: Vec<&str> = picker.filtered_items().iter().map(|item| item.flag.as_str()).collect();
    assert_eq!(flags, vec!["--help", "--verbose", "--version"]);
    assert_eq!(picker.selected_position(), Some(0));
}

#[test]
fn navigation_round_trip_keeps_the_selection() {
    let mut picker = state("");
    picker.move_next();
    picker.move_next();
    picker.move_next();
    assert_eq!(picker.selected_position(), Some(0));
    picker.move_next();
    picker.move_previous();
    assert_eq!(picker.selected_position(), Some(0));
}

#[test]
fn custom_options_are_searched_case_insensitively() {
    let options = vec![
        OptionItem { flag: "--Color ".into(), description: "Colorize".into() },
        OptionItem { flag: "-q".into(), description: "Quiet MODE".into() },
    ];
    let mut picker = PickerState::with_options(&ShellBuffer::new("ls\t"), options);
    for character in "mode".chars() {
        picker.push_query_char(character);
    }
    assert_eq!(picker.selected_item().unwrap().flag, "-q");
    assert_eq!(
        picker.confirm(InsertionPoint::Append),
        Ok(PickerOutcome::Confirm(Edit::Insert { at: 3, text: "-q".into() }))
    );
}

fn schema_option(id: &str, names: Vec<OptionName>, value: ValueSpec) -> OptionSpec {
    OptionSpec {
        id: OptionId::new(id),
        names,
        description: None,
        value,
        repeatability: Repeatability::Single,
        required: false,
        scope: Scope::Local,
        hidden: false,
        negates: None,
        conflicts_with: vec![],
        requires: vec![],
        insertion_policy: InsertionPolicy::Append,
        source_span: None,
    }
}

fn flag_value() -> ValueSpec {
    ValueSpec { arity: ValueArity::NoValue, name: None, value_type: ValueType::Bool, possible_values: vec![] }
}

/// The root options of the Git-like schema fixture.
fn git_schema() -> SchemaDocument {
    let mut verbose = schema_option(
        "verbose",
        vec![OptionName::Long("verbose".into()), OptionName::Short('v')],
        flag_value(),
    );
    verbose.description = Some("Increase verbosity".into());
    verbose.repeatability = Repeatability::Repeatable;
    verbose.scope = Scope::Global;
    verbose.insertion_policy = InsertionPolicy::BeforePositionals;
    verbose.source_span = Some(SourceSpan { start: 10, end: 22 });
    let mut color = schema_option(
        "color",
        vec![OptionName::Long("color".into())],
        ValueSpec {
            arity: ValueArity::Required,
            name: Some("WHEN".into()),
            value_type: ValueType::Enum,
            possible_values: vec!["always".into(), "auto".into(), "never".into()],
        },
    );
    color.required = true;
    let mut no_color = schema_option("no-color", vec![OptionName::Long("no-color".into())], flag_value());
    no_color.negates = Some(OptionId::new("color"));
    let version = schema_option(
        "version",
        vec![OptionName::SingleDashLong("version".into())],
        ValueSpec { arity: ValueArity::Unknown, name: None, value_type: ValueType::Unknown, possible_values: vec![] },
    );
    SchemaDocument::new(CommandSpec {
        executable: ExecutableIdentity { name: "git".into(), path: Some("/usr/bin/git".into()) },
        name: "git".into(),
        description: Some("Distributed version control".into()),
        usage: vec!["git [OPTIONS] <COMMAND>".into()],
        subcommands: vec![],
        options: vec![verbose, color, no_color, version],
        positionals: vec![],
        metadata: SpecMetadata {
            source: HelpSource::BuiltIn,
            parser: Some("fixture".into()),
            confidence: Confidence::High,
            executable_version: Some("2.0".into()),
            fingerprint: Some("fixture-v1".into()),
            extensions: BTreeMap::new(),
        },
    })
}

#[test]
fn discovered_schema_options_replace_the_builtin_list() {
    let document = git_schema();
    let options = options_from_schema(&document);
    let mut picker = PickerState::with_options(&ShellBuffer::new("git"), options);
    for character in "verbose".chars() {
        picker.push_query_char(character);
    }
    assert_eq!(
        picker.selected_item().map(|item| item.flag.as_str()),
        Some("--verbose")
    );
}

#[test]
fn schema_options_show_value_taking_flags_with_a_trailing_space() {
    let options = options_from_schema(&git_schema());
    let flags: Vec<&str> = options.iter().map(|item| item.flag.as_str()).collect();
    assert_eq!(flags, vec!["--verbose", "--color ", "--no-color", "-version "]);
    assert_eq!(options[0].description, "Increase verbosity");
    assert_eq!(options[1].description, "Discovered option");
}
