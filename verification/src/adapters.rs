//! Probe plans for commands whose help a registered adapter reads: which
//! arguments the probe passes and how the output is labelled.
use vstd::prelude::*;
use crate::schema::{Confidence, HelpSource};
use crate::text::str_eq;

verus! {

/// How to probe a command for its help.
#[derive(Clone, Debug, PartialEq, Eq)]
pub struct ProbePlan {
    pub argv: Vec<String>,
    pub parser: &'static str,
    pub source: HelpSource,
    pub confidence: Confidence,
    pub command_path: Vec<String>,
}

/// A probe plan as values.
pub struct PlanModel {
    pub argv: Seq<Seq<char>>,
    pub parser: Seq<char>,
    pub source: HelpSource,
    pub confidence: Confidence,
    pub command_path: Seq<Seq<char>>,
}

pub open spec fn strings_view(v: Seq<String>) -> Seq<Seq<char>> {
    v.map_values(|s: String| s@)
}

pub open spec fn plan_view(p: ProbePlan) -> PlanModel {
    PlanModel {
        argv: strings_view(p.argv@),
        parser: p.parser@,
        source: p.source,
        confidence: p.confidence,
        command_path: strings_view(p.command_path@),
    }
}

/// The registered adapters, for a command whose first word names `executable`:
/// `git commit` and `git remote` read `-h` output, and a bare `curl` reads
/// `--help all`. The command path keeps the words, with the first one
/// replaced by `executable`.
pub open spec fn plan_for(executable: Seq<char>, command: Seq<Seq<char>>) -> Option<PlanModel> {
    let path = command.update(0, executable);
    if executable == "git"@ && command.len() == 2 && (command[1] == "commit"@ || command[1] == "remote"@) {
        Some(PlanModel {
            argv: seq![command[1], "-h"@],
            parser: "git-help-v1"@,
            source: HelpSource::FrameworkHelp,
            confidence: Confidence::High,
            command_path: path,
        })
    } else if executable == "curl"@ && command.len() == 1 {
        Some(PlanModel {
            argv: seq!["--help"@, "all"@],
            parser: "curl-help-v1"@,
            source: HelpSource::FrameworkHelp,
            confidence: Confidence::High,
            command_path: path,
        })
    } else {
        None
    }
}

pub open spec fn plan_result(r: Option<ProbePlan>, m: Option<PlanModel>) -> bool {
    match m {
        Some(p) => r matches Some(x) && plan_view(x) == p,
        None => r is None,
    }
}

/// What `Path::file_name` gives for a path written as `path`, as text.
pub uninterp spec fn path_file_name(path: Seq<char>) -> Option<Seq<char>>;

/// `std::path::Path::file_name` on `path`, as text (a name that came from
/// text is always valid UTF-8). The contract names the result; it says
/// nothing of which names come out.
#[verifier::external_body]
fn file_name_of(path: &str) -> (r: Option<String>)
    ensures
        match path_file_name(path@) {
            Some(name) => r matches Some(s) && s@ == name,
            None => r is None,
        },
{
    match std::path::Path::new(path).file_name() {
        Some(name) => name.to_str().map(str::to_owned),
        None => None,
    }
}

/// The plan of a registered adapter for `command`, if one handles it; the
/// first word of `command` is taken by its file name.
pub fn plan(command: &[String]) -> (r: Option<ProbePlan>)
    ensures
        command@.len() == 0 ==> r is None,
        command@.len() > 0 ==> match path_file_name(command@[0]@) {
            Some(executable) => plan_result(r, plan_for(executable, strings_view(command@))),
            None => r is None,
        },
{
    if command.len() == 0 {
        return None;
    }
    match file_name_of(command[0].as_str()) {
        Some(executable) => plan_for_executable(executable.as_str(), command),
        None => None,
    }
}

fn words_equal(a: &String, b: &str) -> (r: bool)
    ensures
        r == (a@ == b@),
{
    str_eq(a.as_str(), b)
}

/// The plan of a registered adapter for `command` whose first word names `executable`.
pub fn plan_for_executable(executable: &str, command: &[String]) -> (r: Option<ProbePlan>)
    requires
        command@.len() > 0,
    ensures
        plan_result(r, plan_for(executable@, strings_view(command@))),
{
    let mut command_path: Vec<String> = Vec::new();
    command_path.push(executable.to_owned());
    let mut i: usize = 1;
    while i < command.len()
        invariant
            1 <= i <= command@.len(),
            strings_view(command_path@) == strings_view(command@).take(i as int).update(0, executable@),
        decreases command@.len() - i,
    {
        let ghost before = command_path@;
        command_path.push(command[i].clone());
        proof {
            assert(strings_view(command_path@) =~= strings_view(before).push(command@[i as int]@));
            assert(strings_view(command@).take(i as int + 1).update(0, executable@) =~= strings_view(command@).take(
                i as int,
            ).update(0, executable@).push(command@[i as int]@));
        }
        i = i + 1;
    }
    proof {
        assert(strings_view(command@).take(command@.len() as int) =~= strings_view(command@));
    }
    if str_eq(executable, "git") && command.len() == 2 && (words_equal(&command[1], "commit") || words_equal(
        &command[1],
        "remote",
    )) {
        let mut argv: Vec<String> = Vec::new();
        argv.push(command[1].clone());
        argv.push("-h".to_owned());
        proof {
            assert(strings_view(argv@) =~= seq![command@[1]@, "-h"@]);
        }
        Some(ProbePlan {
            argv,
            parser: "git-help-v1",
            source: HelpSource::FrameworkHelp,
            confidence: Confidence::High,
            command_path,
        })
    } else if str_eq(executable, "curl") && command.len() == 1 {
        let mut argv: Vec<String> = Vec::new();
        argv.push("--help".to_owned());
        argv.push("all".to_owned());
        proof {
            assert(strings_view(argv@) =~= seq!["--help"@, "all"@]);
        }
        Some(ProbePlan {
            argv,
            parser: "curl-help-v1",
            source: HelpSource::FrameworkHelp,
            confidence: Confidence::High,
            command_path,
        })
    } else {
        None
    }
}

} // verus!
