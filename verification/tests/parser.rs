use flagpick::parser::{GenericHelpError, GenericHelpParser, MAX_HELP_BYTES};
use flagpick::schema::{
    Confidence, HelpSource, OptionId, OptionName, Repeatability, ValueArity, ValueType,
};

const HELP: &str = "Usage: demo [OPTIONS] <FILE>\n\
\n\
Options:\n\
  -h, --help            Print help\n\
  -o, --output <FILE>   Write output to FILE\n\
      --color[=WHEN]    Colorize output\n\
                        possible values: auto, always, never\n\
  -v, --verbose         More output; repeatable\n\
      --no-color        Disable color\n\
  -version              Print version\n\
  this line mentions --fabricated in prose\n\
\n\
Examples:\n\
  demo --fabricated\n";

#[test]
fn rejects_empty_and_unbounded_input() {
    assert_eq!(
        GenericHelpParser::parse("", "").unwrap_err(),
        GenericHelpError::EmptyExecutable
    );
    assert!(matches!(
        GenericHelpParser::parse("demo", &"x".repeat(MAX_HELP_BYTES + 1)),
        Err(GenericHelpError::InputTooLarge { .. })
    ));
}

#[test]
fn oversized_input_reports_its_size_and_the_limit() {
    assert_eq!(
        GenericHelpParser::parse("demo", &"x".repeat(MAX_HELP_BYTES + 1)).unwrap_err(),
        GenericHelpError::InputTooLarge { bytes: MAX_HELP_BYTES + 1, maximum: MAX_HELP_BYTES }
    );
    assert_eq!(
        GenericHelpParser::parse("  \t ", "--x  X").unwrap_err(),
        GenericHelpError::EmptyExecutable
    );
    assert!(GenericHelpParser::parse("demo", &"x".repeat(MAX_HELP_BYTES)).is_ok());
}

#[test]
fn parses_options_section_values_and_usage() {
    let report = GenericHelpParser::parse("demo", HELP).unwrap();
    let root = &report.document.root;
    assert_eq!(root.name, "demo");
    assert_eq!(root.executable.name, "demo");
    assert_eq!(root.executable.path, None);
    assert_eq!(root.metadata.source, HelpSource::GenericHelp);
    assert_eq!(root.metadata.parser.as_deref(), Some("generic-gnu-help"));
    assert_eq!(root.metadata.confidence, Confidence::Medium);
    assert_eq!(root.usage, vec!["Usage: demo [OPTIONS] <FILE>".to_owned()]);

    let ids: Vec<&str> = root.options.iter().map(|option| option.id.as_str()).collect();
    assert_eq!(ids, vec!["-h", "-o", "--color", "-v", "--no-color", "-version"]);
    assert_eq!(
        root.options[0].names,
        vec![OptionName::Short('h'), OptionName::Long("help".into())]
    );
    assert_eq!(root.options[0].description.as_deref(), Some("Print help"));
    assert_eq!(root.options[0].value.arity, ValueArity::NoValue);
    assert_eq!(root.options[1].value.arity, ValueArity::Required);
    assert_eq!(root.options[1].value.name.as_deref(), Some("<FILE"));
    assert_eq!(root.options[2].value.arity, ValueArity::Optional);
    assert_eq!(root.options[2].value.name.as_deref(), Some("=WHEN"));
    assert_eq!(root.options[2].value.value_type, ValueType::Enum);
    assert_eq!(root.options[2].value.possible_values, vec!["auto", "always", "never"]);
    assert_eq!(root.options[3].repeatability, Repeatability::Repeatable);
    assert_eq!(root.options[0].repeatability, Repeatability::Unknown);
    assert_eq!(root.options[4].negates, Some(OptionId::new("--color")));
    assert_eq!(root.options[0].negates, None);
    assert_eq!(
        root.options[5].names,
        vec![OptionName::SingleDashLong("version".into())]
    );
    assert!(!root
        .options
        .iter()
        .any(|option| option.names.iter().any(|name| name.spelling() == "--fabricated")));

    let positionals: Vec<(&str, bool)> = root
        .positionals
        .iter()
        .map(|positional| (positional.name.as_str(), positional.required))
        .collect();
    assert_eq!(positionals, vec![("demo", true), ("FILE", true)]);

    assert_eq!(report.warnings.len(), 1);
    assert_eq!(report.warnings[0].line, 11);
    assert_eq!(report.warnings[0].message, "non-option line in options section skipped");
}

#[test]
fn skipped_lines_are_reported_with_their_reason() {
    let help = "possible values: a, b\nOptions:\n  -a, --all  Everything\n  -a  Again\n  --  Nothing\n  -x=, Y\n";
    let report = GenericHelpParser::parse("demo", help).unwrap();
    let root = &report.document.root;
    assert_eq!(root.options.len(), 2);
    assert_eq!(root.options[1].id.as_str(), "-x");
    let warnings: Vec<(usize, &str)> = report
        .warnings
        .iter()
        .map(|warning| (warning.line, warning.message.as_str()))
        .collect();
    assert_eq!(
        warnings,
        vec![
            (1, "possible-values marker has no preceding option"),
            (4, "duplicate option spelling skipped"),
            (5, "unsupported option spelling skipped"),
        ]
    );
}

#[test]
fn only_leading_option_lines_count_outside_a_section() {
    let report = GenericHelpParser::parse("demo", "-a  Alpha\n-b  Beta\n").unwrap();
    assert_eq!(report.document.root.options.len(), 1);
    assert_eq!(report.document.root.options[0].id.as_str(), "-a");
    assert!(report.warnings.is_empty());
}

#[test]
fn optional_usage_words_are_optional_positionals() {
    let report = GenericHelpParser::parse("demo", "usage: demo [--flag] [path] <a-b>\n").unwrap();
    let positionals: Vec<(&str, bool)> = report
        .document
        .root
        .positionals
        .iter()
        .map(|positional| (positional.name.as_str(), positional.required))
        .collect();
    assert_eq!(positionals, vec![("demo", true), ("path", false)]);
}

#[test]
fn debug_text_matches_the_derived_debug_form() {
    let error = GenericHelpError::InputTooLarge { bytes: 12, maximum: 10 };
    assert_eq!(error.debug_text(), format!("{error:?}"));
    assert_eq!(GenericHelpError::EmptyExecutable.debug_text(), "EmptyExecutable");
}
