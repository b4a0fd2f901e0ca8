use flagpick::adapters::{plan, plan_for_executable, ProbePlan};
use flagpick::schema::{Confidence, HelpSource};

fn words(values: &[&str]) -> Vec<String> {
    values.iter().map(|value| (*value).to_owned()).collect()
}

#[test]
fn git_subcommands_use_the_git_adapter() {
    let found = plan(&words(&["/usr/bin/git", "commit"])).expect("git commit has an adapter");
    assert_eq!(
        found,
        ProbePlan {
            argv: words(&["commit", "-h"]),
            parser: "git-help-v1",
            source: HelpSource::FrameworkHelp,
            confidence: Confidence::High,
            command_path: words(&["git", "commit"]),
        }
    );
    assert_eq!(plan(&words(&["git", "remote"])).unwrap().argv, words(&["remote", "-h"]));
}

#[test]
fn bare_curl_uses_extended_help() {
    let found = plan(&words(&["curl"])).expect("curl has an adapter");
    assert_eq!(found.argv, words(&["--help", "all"]));
    assert_eq!(found.parser, "curl-help-v1");
    assert_eq!(found.command_path, words(&["curl"]));
}

#[test]
fn other_commands_have_no_adapter() {
    assert_eq!(plan(&[]), None);
    assert_eq!(plan(&words(&["git"])), None);
    assert_eq!(plan(&words(&["git", "status"])), None);
    assert_eq!(plan(&words(&["git", "commit", "-m"])), None);
    assert_eq!(plan(&words(&["curl", "--verbose"])), None);
    assert_eq!(plan(&words(&["ls"])), None);
    assert_eq!(plan(&words(&["/"])), None);
}

#[test]
fn the_executable_name_decides_the_adapter() {
    let found = plan_for_executable("git", &words(&["./tools/git", "commit"])).unwrap();
    assert_eq!(found.command_path, words(&["git", "commit"]));
    assert_eq!(plan_for_executable("gitx", &words(&["gitx", "commit"])), None);
}
