//! Command-line arguments of the `flagpick` program: the shell-edit mode and
//! the discovery commands.
use vstd::prelude::*;
use crate::adapters::strings_view;
use crate::scan::starts_with;
use crate::text::str_eq;

verus! {

/// Arguments of `flagpick shell-edit zsh`.
#[derive(Clone, Copy, Debug, PartialEq, Eq)]
pub struct ShellEditArgs {
    pub cursor: usize,
    pub at_cursor: bool,
}

/// Arguments of `flagpick inspect` and `flagpick schema`.
#[derive(Clone, Debug, PartialEq, Eq)]
pub struct DiscoveryArgs {
    pub command: Vec<String>,
    pub execute_probe: bool,
    pub format_json: bool,
}

pub open spec fn usage_text() -> Seq<char> {
    "Usage: flagpick shell-edit zsh --cursor <character-position> [--at-cursor]\n       flagpick inspect [--no-exec-probe] <command...>\n       flagpick schema <command...> --format json"@
}

/// The program's usage text.
pub fn usage() -> (s: String)
    ensures
        s@ == usage_text(),
{
    "Usage: flagpick shell-edit zsh --cursor <character-position> [--at-cursor]\n       flagpick inspect [--no-exec-probe] <command...>\n       flagpick schema <command...> --format json".to_owned()
}

pub open spec fn is_ascii_digit(c: char) -> bool {
    '0' <= c <= '9'
}

/// The value of a run of decimal digits.
pub open spec fn digits_value(s: Seq<char>) -> int
    decreases s.len(),
{
    if s.len() == 0 {
        0
    } else {
        digits_value(s.drop_last()) * 10 + (s.last() as int - '0' as int)
    }
}

/// Every character of `s` is an ASCII digit.
pub open spec fn all_digits(s: Seq<char>) -> bool {
    forall|i: int| 0 <= i < s.len() ==> is_ascii_digit(#[trigger] s[i])
}

/// What `usize::from_str` accepts: an optional `+` followed by one or more
/// ASCII digits whose value fits in `usize`.
pub open spec fn parsed_usize(text: Seq<char>) -> Option<usize> {
    let digits = if text.len() > 0 && text[0] == '+' { text.skip(1) } else { text };
    if digits.len() > 0 && all_digits(digits) && digits_value(digits) <= usize::MAX {
        Some(digits_value(digits) as usize)
    } else {
        None
    }
}

proof fn lemma_parsed_usize_digits(text: Seq<char>, digits: Seq<char>)
    requires
        digits == if text.len() > 0 && text[0] == '+' { text.skip(1) } else { text },
    ensures
        parsed_usize(text) == if digits.len() > 0 && all_digits(digits) && digits_value(digits) <= usize::MAX {
            Some(digits_value(digits) as usize)
        } else {
            None
        },
{
}

proof fn lemma_digits_value_grows(s: Seq<char>, k: int)
    requires
        0 <= k <= s.len(),
        forall|i: int| 0 <= i < s.len() ==> is_ascii_digit(#[trigger] s[i]),
    ensures
        0 <= digits_value(s.take(k)) <= digits_value(s),
    decreases s.len(),
{
    if s.len() > 0 {
        let front = s.drop_last();
        assert forall|i: int| 0 <= i < front.len() implies is_ascii_digit(#[trigger] front[i]) by {
            assert(front[i] == s[i]);
        }
        if k == s.len() {
            assert(s.take(k) =~= s);
            lemma_digits_value_grows(front, front.len() as int);
            assert(front.take(front.len() as int) =~= front);
        } else {
            lemma_digits_value_grows(front, k);
            assert(front.take(k) =~= s.take(k));
            assert(is_ascii_digit(s.last()));
        }
    } else {
        assert(s.take(k) =~= s);
    }
}

/// Reads a decimal number as `usize::from_str` does: an optional `+`, then
/// one or more ASCII digits whose value fits in `usize`.
fn parse_usize(text: &str) -> (r: Option<usize>)
    ensures
        r == parsed_usize(text@),
{
    let chars = crate::text::chars_of(text);
    let start: usize = if chars.len() > 0 && chars[0] == '+' { 1 } else { 0 };
    let ghost digits = chars@.skip(start as int);
    assert(digits == if text@.len() > 0 && text@[0] == '+' { text@.skip(1) } else { text@ }) by {
        if start == 0 {
            assert(chars@.skip(0) =~= chars@);
        }
    }
    if start >= chars.len() {
        return None;
    }
    let mut value: usize = 0;
    let mut i: usize = start;
    assert(chars@.subrange(start as int, start as int) =~= Seq::<char>::empty());
    while i < chars.len()
        invariant
            start <= i <= chars@.len(),
            chars@ == text@,
            digits == chars@.skip(start as int),
            digits == if text@.len() > 0 && text@[0] == '+' { text@.skip(1) } else { text@ },
            value == digits_value(chars@.subrange(start as int, i as int)),
            forall|k: int| start <= k < i ==> is_ascii_digit(#[trigger] chars@[k]),
        decreases chars@.len() - i,
    {
        let c = chars[i];
        if !('0' <= c && c <= '9') {
            proof {
                assert(digits[i - start] == c);
                assert(!is_ascii_digit(digits[i - start]));
                assert(!(forall|k: int| 0 <= k < digits.len() ==> is_ascii_digit(#[trigger] digits[k])));
                lemma_parsed_usize_digits(text@, digits);
            }
            return None;
        }
        let d = ((c as u32) - 48) as usize;
        let ghost prefix = chars@.subrange(start as int, i as int + 1);
        proof {
            assert(prefix.drop_last() =~= chars@.subrange(start as int, i as int));
            assert(prefix.last() == c);
            assert(digits_value(prefix) == value * 10 + d);
        }
        let next = match value.checked_mul(10) {
            Some(m) => m.checked_add(d),
            None => None,
        };
        match next {
            Some(v) => {
                value = v;
            },
            None => {
                proof {
                    assert(digits_value(prefix) > usize::MAX);
                    if forall|k: int| 0 <= k < digits.len() ==> is_ascii_digit(#[trigger] digits[k]) {
                        assert(digits.take(i - start + 1) =~= prefix);
                        lemma_digits_value_grows(digits, i - start + 1);
                        assert(digits_value(digits) > usize::MAX);
                    }
                    lemma_parsed_usize_digits(text@, digits);
                }
                return None;
            },
        }
        i = i + 1;
    }
    proof {
        lemma_parsed_usize_digits(text@, digits);
        assert(chars@.subrange(start as int, chars@.len() as int) =~= digits);
        assert forall|k: int| 0 <= k < digits.len() implies is_ascii_digit(#[trigger] digits[k]) by {
            assert(digits[k] == chars@[k + start]);
        }
    }
    Some(value)
}

/// How the shell-edit options from position `i` on are read, given the
/// cursor and mode read so far: a later `--cursor` replaces an earlier one.
pub open spec fn shell_edit_from(args: Seq<Seq<char>>, i: int, cursor: Option<usize>, at_cursor: bool) -> Result<ShellEditArgs, Seq<char>>
    decreases args.len() - i,
{
    if i < 0 || i >= args.len() {
        match cursor {
            Some(c) => Ok(ShellEditArgs { cursor: c, at_cursor }),
            None => Err("--cursor is required"@),
        }
    } else if args[i] == "--cursor"@ {
        if i + 1 >= args.len() {
            Err("--cursor requires a value"@)
        } else {
            match parsed_usize(args[i + 1]) {
                Some(v) => shell_edit_from(args, i + 2, Some(v), at_cursor),
                None => Err("--cursor must be a non-negative integer"@),
            }
        }
    } else if args[i] == "--at-cursor"@ {
        shell_edit_from(args, i + 1, cursor, true)
    } else {
        Err("unknown argument: "@ + args[i] + "\n\n"@ + usage_text())
    }
}

/// The arguments must start with `shell-edit zsh`; a cursor is required.
pub open spec fn shell_edit_result(args: Seq<Seq<char>>) -> Result<ShellEditArgs, Seq<char>> {
    if args.len() < 2 || args[0] != "shell-edit"@ || args[1] != "zsh"@ {
        Err(usage_text())
    } else {
        shell_edit_from(args, 2, None, false)
    }
}

pub open spec fn result_text(r: Result<ShellEditArgs, String>) -> Result<ShellEditArgs, Seq<char>> {
    match r {
        Ok(a) => Ok(a),
        Err(e) => Err(e@),
    }
}

/// Reads the arguments of the shell-edit mode.
pub fn parse_shell_edit_args(args: &[String]) -> (r: Result<ShellEditArgs, String>)
    ensures
        result_text(r) == shell_edit_result(strings_view(args@)),
{
    let ghost a = strings_view(args@);
    if args.len() < 2 || !str_eq(args[0].as_str(), "shell-edit") || !str_eq(args[1].as_str(), "zsh") {
        return Err(usage());
    }
    let mut cursor: Option<usize> = None;
    let mut at_cursor = false;
    let mut i: usize = 2;
    assert(shell_edit_result(a) == shell_edit_from(a, 2, None, false));
    while i < args.len()
        invariant
            a == strings_view(args@),
            shell_edit_result(a) == shell_edit_from(a, 2, None, false),
            2 <= i <= args@.len(),
            shell_edit_from(a, i as int, cursor, at_cursor) == shell_edit_from(a, 2, None, false),
        decreases args@.len() - i,
    {
        assert(a[i as int] == args@[i as int]@);
        if str_eq(args[i].as_str(), "--cursor") {
            if i + 1 >= args.len() {
                return Err("--cursor requires a value".to_owned());
            }
            assert(a[i + 1] == args@[i + 1]@);
            match parse_usize(args[i + 1].as_str()) {
                Some(v) => {
                    cursor = Some(v);
                },
                None => {
                    return Err("--cursor must be a non-negative integer".to_owned());
                },
            }
            i = i + 2;
        } else if str_eq(args[i].as_str(), "--at-cursor") {
            at_cursor = true;
            i = i + 1;
        } else {
            let mut message = "unknown argument: ".to_owned();
            message.append(args[i].as_str());
            message.append("\n\n");
            let text = usage();
            message.append(text.as_str());
            return Err(message);
        }
    }
    match cursor {
        Some(c) => Ok(ShellEditArgs { cursor: c, at_cursor }),
        None => Err("--cursor is required".to_owned()),
    }
}

/// The refusal of a flag that follows the command's words: such flags would
/// be handed to the probed program, so only subcommand names may follow.
pub open spec fn flag_after_command_message(flag: Seq<char>) -> Seq<char> {
    "unsupported argument after the command: "@ + flag + "; only explicit subcommand names may follow it"@
}

/// How the discovery arguments from position `i` on are read, given the
/// command words and flags read so far.
pub open spec fn discovery_from(
    args: Seq<Seq<char>>,
    i: int,
    command: Seq<Seq<char>>,
    no_exec_probe: bool,
    format_json: bool,
) -> Result<(Seq<Seq<char>>, bool, bool), Seq<char>>
    decreases args.len() - i,
{
    if i < 0 || i >= args.len() {
        Ok((command, no_exec_probe, format_json))
    } else if args[i] == "--no-exec-probe"@ {
        discovery_from(args, i + 1, command, true, format_json)
    } else if args[i] == "--format"@ {
        if i + 1 < args.len() && args[i + 1] == "json"@ {
            discovery_from(args, i + 2, command, no_exec_probe, true)
        } else {
            Err("--format currently accepts only json"@)
        }
    } else if starts_with(args[i], seq!['-']) {
        if command.len() > 0 {
            Err(flag_after_command_message(args[i]))
        } else {
            Err("unknown discovery argument: "@ + args[i])
        }
    } else {
        discovery_from(args, i + 1, command.push(args[i]), no_exec_probe, format_json)
    }
}

/// The discovery arguments: the flags `--no-exec-probe` and `--format json`
/// anywhere, and the command's words in order; any other flag is refused, and
/// after the first command word with the message that only subcommand names
/// may follow. The `schema` command also requires `--format json`.
pub open spec fn discovery_result(args: Seq<Seq<char>>, schema_command: bool) -> Result<(Seq<Seq<char>>, bool, bool), Seq<char>> {
    match discovery_from(args, 0, Seq::empty(), false, false) {
        Ok((command, no_exec_probe, format_json)) => if schema_command && !format_json {
            Err("schema requires --format json"@)
        } else {
            Ok((command, !no_exec_probe, format_json))
        },
        Err(e) => Err(e),
    }
}

pub open spec fn discovery_text(r: Result<DiscoveryArgs, String>) -> Result<(Seq<Seq<char>>, bool, bool), Seq<char>> {
    match r {
        Ok(a) => Ok((strings_view(a.command@), a.execute_probe, a.format_json)),
        Err(e) => Err(e@),
    }
}

/// Reads the arguments of `inspect` (or, with `schema_command`, of `schema`).
pub fn parse_discovery_args(args: &[String], schema_command: bool) -> (r: Result<DiscoveryArgs, String>)
    ensures
        discovery_text(r) == discovery_result(strings_view(args@), schema_command),
{
    let ghost a = strings_view(args@);
    let mut no_exec_probe = false;
    let mut format_json = false;
    let mut command: Vec<String> = Vec::new();
    let mut i: usize = 0;
    assert(strings_view(command@) =~= Seq::<Seq<char>>::empty());
    while i < args.len()
        invariant
            a == strings_view(args@),
            0 <= i <= args@.len(),
            discovery_from(a, i as int, strings_view(command@), no_exec_probe, format_json) == discovery_from(
                a,
                0,
                Seq::empty(),
                false,
                false,
            ),
        decreases args@.len() - i,
    {
        assert(a[i as int] == args@[i as int]@);
        let word = args[i].as_str();
        if str_eq(word, "--no-exec-probe") {
            no_exec_probe = true;
            i = i + 1;
        } else if str_eq(word, "--format") {
            if i + 1 < args.len() && str_eq(args[i + 1].as_str(), "json") {
                assert(a[i + 1] == args@[i + 1]@);
                format_json = true;
                i = i + 2;
            } else {
                proof {
                    if i + 1 < args@.len() {
                        assert(a[i + 1] == args@[i + 1]@);
                    }
                }
                return Err("--format currently accepts only json".to_owned());
            }
        } else if starts_with_dash(word) {
            if command.len() > 0 {
                let mut message = "unsupported argument after the command: ".to_owned();
                message.append(word);
                message.append("; only explicit subcommand names may follow it");
                return Err(message);
            }
            let mut message = "unknown discovery argument: ".to_owned();
            message.append(word);
            return Err(message);
        } else {
            let ghost before = command@;
            command.push(args[i].clone());
            proof {
                assert(strings_view(command@) =~= strings_view(before).push(a[i as int]));
            }
            i = i + 1;
        }
    }
    proof {
        assert(discovery_from(a, i as int, strings_view(command@), no_exec_probe, format_json) == Ok::<(Seq<Seq<char>>, bool, bool), Seq<char>>((strings_view(command@), no_exec_probe, format_json)));
    }
    if schema_command && !format_json {
        return Err("schema requires --format json".to_owned());
    }
    Ok(DiscoveryArgs { command, execute_probe: !no_exec_probe, format_json })
}

fn starts_with_dash(word: &str) -> (r: bool)
    ensures
        r == starts_with(word@, seq!['-']),
{
    let chars = crate::text::chars_of(word);
    let r = chars.len() > 0 && chars[0] == '-';
    proof {
        if chars@.len() > 0 {
            assert(chars@.subrange(0, 1) =~= seq![chars@[0]]);
            if chars@.subrange(0, 1) == seq!['-'] {
                assert(chars@.subrange(0, 1)[0] == '-');
            }
        }
    }
    r
}

} // verus!
