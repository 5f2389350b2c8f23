//! One-shot execution: the command line for one input, and its result.

use vstd::prelude::*;

use crate::decode;
use crate::error::ShellError;
use crate::shell::profile;
use crate::text;
use crate::util;

verus! {

broadcast use vstd::string::group_string_axioms;

/// The kind of system that a command runs on.
#[derive(Debug, Clone, Copy, PartialEq, Eq, Structural)]
pub enum Platform {
    Unix,
    Windows,
}

/// What a command left behind.
#[derive(Debug, Clone)]
pub struct ExecResult {
    pub stdout: String,
    pub stderr: String,
    pub exit_code: i32,
}

impl ExecResult {
    /// What the command wrote, if it succeeded; what it wrote to its error
    /// stream, as an error, if it did not.
    pub fn ok(self) -> (r: Result<String, ShellError>)
        ensures
            r == (if self.exit_code == 0 {
                Ok(self.stdout)
            } else {
                Err(ShellError::CommandFailed(self.stderr))
            }),
    {
        if self.exit_code == 0 {
            return Ok(self.stdout);
        }
        Err(ShellError::CommandFailed(self.stderr))
    }

    /// Whether the command ended with exit code zero.
    pub fn success(&self) -> (r: bool)
        ensures
            r == (self.exit_code == 0),
    {
        self.exit_code == 0
    }

    /// Whether it did not.
    pub fn failed(&self) -> (r: bool)
        ensures
            r == (self.exit_code != 0),
    {
        !self.success()
    }
}

/// A command line with the environment variables to set for it.
#[derive(Debug)]
pub struct ExecCommand {
    pub program: String,
    pub args: Vec<String>,
    pub env: Vec<(String, String)>,
}

/// The characters of each argument.
pub open spec fn arg_texts(args: Seq<String>) -> Seq<Seq<char>> {
    args.map_values(|a: String| a@)
}

/// The characters of each variable's name and value.
pub open spec fn env_texts(env: Seq<(String, String)>) -> Seq<(Seq<char>, Seq<char>)> {
    env.map_values(|v: (String, String)| (v.0@, v.1@))
}

/// What `cmd` is to run for `input`; on Windows it switches to UTF-8 first.
pub open spec fn cmd_input(input: Seq<char>, platform: Platform) -> Seq<char> {
    match platform {
        Platform::Unix => input,
        Platform::Windows => "chcp 65001 >nul 2>&1 &  "@ + input,
    }
}

/// What PowerShell is to run for `input`; on Windows it switches to UTF-8 first.
pub open spec fn powershell_input(input: Seq<char>, platform: Platform) -> Seq<char> {
    match platform {
        Platform::Unix => input,
        Platform::Windows =>
            "[Console]::OutputEncoding = [System.Text.Encoding]::UTF8;\n                 [Console]::InputEncoding  = [System.Text.Encoding]::UTF8;\n                 $OutputEncoding           = [System.Text.Encoding]::UTF8;\n                 "@
            + input,
    }
}

/// The arguments with which the shell `name` runs `input`; none for a shell that
/// the library does not know.
pub open spec fn exec_args(name: Seq<char>, input: Seq<char>, platform: Platform) -> Option<
    Seq<Seq<char>>,
> {
    if name == "sh"@ || name == "zsh"@ || name == "bash"@ || name == "fish"@ || name == "python"@ {
        Some(seq!["-c"@, input])
    } else if name == "node"@ {
        Some(seq!["-e"@, input])
    } else if name == "cmd"@ {
        Some(seq!["/C"@, cmd_input(input, platform)])
    } else if name == "powershell"@ || name == "pwsh"@ {
        Some(seq!["-ep"@, "Bypass"@, "-nop"@, "-c"@, powershell_input(input, platform)])
    } else {
        None
    }
}

/// The environment variables that are set for the shell `name`: on Windows,
/// Python is told to use UTF-8.
pub open spec fn exec_env(name: Seq<char>, platform: Platform) -> Seq<(Seq<char>, Seq<char>)> {
    if name == "python"@ && platform == Platform::Windows {
        seq![("PYTHONUTF8"@, "1"@)]
    } else {
        Seq::empty()
    }
}

/// The list of two arguments.
fn two(a: &str, b: &str) -> (r: Vec<String>)
    ensures
        arg_texts(r@) == seq![a@, b@],
{
    let r: Vec<String> = vec![a.to_owned(), b.to_owned()];
    assert(arg_texts(r@) == seq![a@, b@]);
    r
}

/// The command line with which `shell`, a shell of the name `shell_name`, runs
/// `input`.
pub fn build_exec_command(
    shell: &str,
    shell_name: &str,
    input: &str,
    platform: Platform,
) -> (r: Result<ExecCommand, ShellError>)
    ensures
        r is Ok <==> exec_args(shell_name@, input@, platform) is Some,
        r matches Ok(c) ==> {
            &&& c.program@ == shell@
            &&& Some(arg_texts(c.args@)) == exec_args(shell_name@, input@, platform)
            &&& env_texts(c.env@) == exec_env(shell_name@, platform)
        },
        r matches Err(e) ==> (e matches ShellError::UnsupportedShell(n) && n@ == shell_name@),
{
    let mut env: Vec<(String, String)> = Vec::new();
    assert(env_texts(env@) == Seq::<(Seq<char>, Seq<char>)>::empty());
    let args: Vec<String> = if text::same(shell_name, "sh") || text::same(shell_name, "zsh")
        || text::same(shell_name, "bash") || text::same(shell_name, "fish") {
        proof {
            lemma_not_python();
        }
        two("-c", input)
    } else if text::same(shell_name, "node") {
        proof {
            lemma_not_python();
        }
        two("-e", input)
    } else if text::same(shell_name, "python") {
        if platform == Platform::Windows {
            env.push(("PYTHONUTF8".to_owned(), "1".to_owned()));
            assert(env_texts(env@) == seq![("PYTHONUTF8"@, "1"@)]);
        }
        two("-c", input)
    } else if text::same(shell_name, "cmd") {
        match platform {
            Platform::Unix => two("/C", input),
            Platform::Windows => {
                let wrapped: String = text::joined("chcp 65001 >nul 2>&1 &  ", input);
                two("/C", wrapped.as_str())
            },
        }
    } else if text::same(shell_name, "powershell") || text::same(shell_name, "pwsh") {
        let wrapped: String = match platform {
            Platform::Unix => input.to_owned(),
            Platform::Windows => text::joined(
                "[Console]::OutputEncoding = [System.Text.Encoding]::UTF8;\n                 [Console]::InputEncoding  = [System.Text.Encoding]::UTF8;\n                 $OutputEncoding           = [System.Text.Encoding]::UTF8;\n                 ",
                input,
            ),
        };
        let ghost w = wrapped@;
        let v: Vec<String> =
            vec!["-ep".to_owned(), "Bypass".to_owned(), "-nop".to_owned(), "-c".to_owned(), wrapped];
        assert(arg_texts(v@) == seq!["-ep"@, "Bypass"@, "-nop"@, "-c"@, w]);
        v
    } else {
        return Err(ShellError::UnsupportedShell(shell_name.to_owned()));
    };
    Ok(ExecCommand { program: shell.to_owned(), args, env })
}

/// No other name stands for Python.
proof fn lemma_not_python()
    ensures
        "sh"@ != "python"@,
        "zsh"@ != "python"@,
        "bash"@ != "python"@,
        "fish"@ != "python"@,
        "node"@ != "python"@,
{
    reveal_strlit("sh");
    reveal_strlit("zsh");
    reveal_strlit("bash");
    reveal_strlit("fish");
    reveal_strlit("node");
    reveal_strlit("python");
    assert("python"@.len() == 6);
    assert("sh"@.len() == 2);
    assert("zsh"@.len() == 3);
    assert("bash"@.len() == 4);
    assert("fish"@.len() == 4);
    assert("node"@.len() == 4);
}

/// The command line for `input` in the shell at the path `shell`, which may have
/// white space around it.
pub fn exec(input: &str, shell: &str, platform: Platform) -> (r: Result<ExecCommand, ShellError>)
    ensures
        ({
            let path = text::trimmed(shell@);
            let name = util::shell_name(path);
            if path.len() == 0 {
                r matches Err(ShellError::EmptyShellPath)
            } else if name.len() == 0 {
                r matches Err(ShellError::InvalidShellPath(p)) && p@ == path
            } else if exec_args(name, input@, platform) is None {
                r matches Err(ShellError::UnsupportedShell(n)) && n@ == name
            } else {
                &&& r matches Ok(c)
                &&& c.program@ == path
                &&& Some(arg_texts(c.args@)) == exec_args(name, input@, platform)
                &&& env_texts(c.env@) == exec_env(name, platform)
            }
        }),
{
    let path: &str = text::trim(shell);
    if path.is_empty() {
        return Err(ShellError::EmptyShellPath);
    }
    match util::normalize_shell_name(path) {
        Ok(name) => build_exec_command(path, name.as_str(), input, platform),
        Err(e) => Err(e),
    }
}

/// The result of a command from what it wrote and how it ended; without an exit
/// code, as after a signal, the code is -1.
pub fn to_exec_result(stdout: &[u8], stderr: &[u8], code: Option<i32>) -> (r: ExecResult)
    ensures
        r.stdout@ == decode::decoded(stdout@),
        r.stderr@ == decode::decoded(stderr@),
        r.exit_code == (match code {
            Some(c) => c,
            None => -1i32,
        }),
{
    ExecResult {
        stdout: decode::decode_bytes(stdout),
        stderr: decode::decode_bytes(stderr),
        exit_code: match code {
            Some(c) => c,
            None => -1,
        },
    }
}

/// How a command ended.
#[derive(Debug)]
pub enum ExecOutcome {
    /// With what it wrote to its two streams, and its exit code, if it had one.
    Finished(Vec<u8>, Vec<u8>, Option<i32>),
    /// Not at all, within the time given, here in words.
    TimedOut(String),
}

/// What running a command gives: its result, unless it took too long.
pub fn exec_result(outcome: ExecOutcome) -> (r: Result<ExecResult, ShellError>)
    ensures
        match outcome {
            ExecOutcome::Finished(stdout, stderr, code) => {
                &&& r matches Ok(result)
                &&& result.stdout@ == decode::decoded(stdout@)
                &&& result.stderr@ == decode::decoded(stderr@)
                &&& result.exit_code == (match code {
                    Some(c) => c,
                    None => -1i32,
                })
            },
            ExecOutcome::TimedOut(limit) => r == Err::<ExecResult, ShellError>(
                ShellError::CommandTimedOut(limit),
            ),
        },
{
    match outcome {
        ExecOutcome::Finished(stdout, stderr, code) => Ok(
            to_exec_result(stdout.as_slice(), stderr.as_slice(), code),
        ),
        ExecOutcome::TimedOut(limit) => Err(ShellError::CommandTimedOut(limit)),
    }
}

/// A shell that a session can be started with can also run a single command, and
/// the other way round.
pub proof fn same_shells_for_sessions_and_commands(
    name: Seq<char>,
    pty_mode: bool,
    input: Seq<char>,
    platform: Platform,
)
    ensures
        profile::args_of(name, pty_mode) is Some <==> exec_args(name, input, platform) is Some,
{
}

/// A shell gets the input as it is, as its last argument or as the end of it; what
/// stands before it does not depend on it, and on Unix nothing stands before it.
pub proof fn the_input_is_run_as_it_is(
    name: Seq<char>,
    input: Seq<char>,
    other: Seq<char>,
    platform: Platform,
)
    requires
        exec_args(name, input, platform) is Some,
    ensures
        ({
            let args = exec_args(name, input, platform)->0;
            let others = exec_args(name, other, platform)->0;
            let n = args.last().len() - input.len();
            &&& exec_args(name, other, platform) is Some
            &&& args.len() >= 2
            &&& args.drop_last() == others.drop_last()
            &&& n >= 0
            &&& args.last().skip(n) == input
            &&& others.last() == args.last().take(n) + other
            &&& platform == Platform::Unix ==> args.last() == input
            &&& name != "cmd"@ && name != "powershell"@ && name != "pwsh"@ ==> args.last() == input
        }),
{
    let args = exec_args(name, input, platform)->0;
    let others = exec_args(name, other, platform)->0;
    let n = args.last().len() - input.len();
    assert(args.drop_last() == others.drop_last());
    assert(args.last().skip(n) == input);
    assert(others.last() == args.last().take(n) + other);
}

/// Each shell is told by its own option to run the argument that follows: `-c`, for
/// Node `-e`, and for `cmd` `/C`. PowerShell reads no startup files, like in a session.
pub proof fn shells_are_told_to_run_the_input(
    name: Seq<char>,
    input: Seq<char>,
    platform: Platform,
)
    requires
        exec_args(name, input, platform) is Some,
    ensures
        ({
            let args = exec_args(name, input, platform)->0;
            let option = args[args.len() - 2];
            &&& name == "node"@ ==> option == "-e"@
            &&& name == "cmd"@ ==> option == "/C"@
            &&& name != "node"@ && name != "cmd"@ ==> option == "-c"@
            &&& if name == "powershell"@ || name == "pwsh"@ {
                args.len() == 5 && args[0] == "-ep"@ && args[1] == "Bypass"@ && args[2] == "-nop"@
            } else {
                args.len() == 2
            }
        }),
{
    profile::lemma_names_differ();
}

/// The shells that run a command are those that a session can be started with.
pub proof fn these_shells_run_commands(name: Seq<char>, input: Seq<char>, platform: Platform)
    ensures
        exec_args(name, input, platform) is Some <==> (name == "bash"@ || name == "zsh"@ || name
            == "sh"@ || name == "fish"@ || name == "cmd"@ || name == "powershell"@ || name
            == "pwsh"@ || name == "python"@ || name == "node"@),
{
}

/// On Windows a shell writes UTF-8: `cmd` changes its code page before it runs the
/// input, PowerShell its three encodings, and Python gets a variable. Nothing of that
/// happens on Unix, and for no other shell.
pub proof fn windows_shells_write_utf8(name: Seq<char>, input: Seq<char>, platform: Platform)
    ensures
        exec_env(name, platform).len() > 0 <==> name == "python"@ && platform == Platform::Windows,
        exec_env("python"@, Platform::Windows) == seq![("PYTHONUTF8"@, "1"@)],
        exec_args("cmd"@, input, Platform::Windows) == Some(
            seq!["/C"@, "chcp 65001 >nul 2>&1 &  "@ + input],
        ),
        ({
            let args = exec_args("pwsh"@, input, Platform::Windows);
            &&& args is Some
            &&& args->0.last() ==
                "[Console]::OutputEncoding = [System.Text.Encoding]::UTF8;\n                 [Console]::InputEncoding  = [System.Text.Encoding]::UTF8;\n                 $OutputEncoding           = [System.Text.Encoding]::UTF8;\n                 "@
                + input
            &&& args == exec_args("powershell"@, input, Platform::Windows)
        }),
{
    profile::lemma_names_differ();
}

/// The arguments and variables of a command line are taken one by one, in order.
pub proof fn arguments_and_variables_are_taken_in_order(command: ExecCommand, i: int)
    ensures
        arg_texts(command.args@).len() == command.args@.len(),
        0 <= i < command.args@.len() ==> arg_texts(command.args@)[i] == command.args@[i]@,
        env_texts(command.env@).len() == command.env@.len(),
        0 <= i < command.env@.len() ==> {
            let (name, value) = command.env@[i];
            env_texts(command.env@)[i] == (name@, value@)
        },
{
}

} // verus!
