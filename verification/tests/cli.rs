use flagpick::cli::{parse_discovery_args, parse_shell_edit_args, usage, DiscoveryArgs, ShellEditArgs};

fn parse(args: &[&str]) -> Result<ShellEditArgs, String> {
    let owned: Vec<String> = args.iter().map(|value| (*value).to_owned()).collect();
    parse_shell_edit_args(&owned)
}

fn discovery(args: &[&str], schema_command: bool) -> Result<DiscoveryArgs, String> {
    let owned: Vec<String> = args.iter().map(|value| (*value).to_owned()).collect();
    parse_discovery_args(&owned, schema_command)
}

#[test]
fn parses_append_and_cursor_modes() {
    assert_eq!(
        parse(&["shell-edit", "zsh", "--cursor", "4"]),
        Ok(ShellEditArgs {
            cursor: 4,
            at_cursor: false,
        })
    );
    assert_eq!(
        parse(&["shell-edit", "zsh", "--at-cursor", "--cursor", "2",]),
        Ok(ShellEditArgs {
            cursor: 2,
            at_cursor: true,
        })
    );
}

#[test]
fn rejects_missing_or_unknown_arguments() {
    assert!(parse(&["shell-edit", "zsh"]).is_err());
    assert!(parse(&["shell-edit", "bash", "--cursor", "0"]).is_err());
    assert!(parse(&["shell-edit", "zsh", "--cursor", "-1"]).is_err());
    assert!(parse(&["shell-edit", "zsh", "--wat"]).is_err());
}

#[test]
fn argument_errors_say_what_is_wrong() {
    assert_eq!(parse(&["shell-edit", "zsh"]), Err("--cursor is required".to_owned()));
    assert_eq!(parse(&["shell-edit"]), Err(usage()));
    assert_eq!(parse(&["shell-edit", "zsh", "--cursor"]), Err("--cursor requires a value".to_owned()));
    assert_eq!(
        parse(&["shell-edit", "zsh", "--cursor", "x"]),
        Err("--cursor must be a non-negative integer".to_owned())
    );
    assert_eq!(
        parse(&["shell-edit", "zsh", "--wat"]),
        Err(format!("unknown argument: --wat\n\n{}", usage()))
    );
    assert_eq!(parse(&["shell-edit", "zsh", "--cursor", "+7", "--cursor", "3"]).unwrap().cursor, 3);
    assert!(usage().starts_with("Usage: flagpick shell-edit zsh --cursor"));
}

#[test]
fn discovery_arguments_collect_the_command() {
    assert_eq!(
        discovery(&["--no-exec-probe", "git", "commit"], false),
        Ok(DiscoveryArgs {
            command: vec!["git".into(), "commit".into()],
            execute_probe: false,
            format_json: false,
        })
    );
    assert_eq!(
        discovery(&["ls", "--format", "json"], true),
        Ok(DiscoveryArgs {
            command: vec!["ls".into()],
            execute_probe: true,
            format_json: true,
        })
    );
    assert_eq!(discovery(&["ls"], true), Err("schema requires --format json".to_owned()));
    assert_eq!(
        discovery(&["ls", "--format", "yaml"], false),
        Err("--format currently accepts only json".to_owned())
    );
    assert_eq!(
        discovery(&["ls", "-l"], false),
        Err("unsupported argument after the command: -l; only explicit subcommand names may follow it".to_owned())
    );
    assert_eq!(discovery(&["-l", "ls"], false), Err("unknown discovery argument: -l".to_owned()));
    assert!(discovery(&["ls", "--no-exec-probe"], false).is_ok());
}

#[test]
fn inspect_rejects_extra_flags_instead_of_executing_them() {
    let error = discovery(&["echo", "-n", "dangerous"], false).unwrap_err();
    assert!(error.contains("only explicit subcommand names"));
}

#[test]
fn cursor_values_are_read_as_usize_is() {
    assert_eq!(parse(&["shell-edit", "zsh", "--cursor", "007"]).unwrap().cursor, 7);
    assert!(parse(&["shell-edit", "zsh", "--cursor", "+"]).is_err());
    assert!(parse(&["shell-edit", "zsh", "--cursor", ""]).is_err());
    assert!(parse(&["shell-edit", "zsh", "--cursor", "1 "]).is_err());
    assert!(parse(&["shell-edit", "zsh", "--cursor", "99999999999999999999999999"]).is_err());
    assert_eq!(
        parse(&["shell-edit", "zsh", "--cursor", &usize::MAX.to_string()]).unwrap().cursor,
        usize::MAX
    );
}
