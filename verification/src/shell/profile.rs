//! What the library knows of each shell: how it is started, what it is told
//! first and how it is asked to leave.

use vstd::prelude::*;

use crate::error::ShellError;
use crate::text;
use crate::util;

verus! {

broadcast use vstd::string::group_string_axioms;

/// The characters of each argument.
pub open spec fn arg_texts(args: Seq<&'static str>) -> Seq<Seq<char>> {
    args.map_values(|a: &'static str| a@)
}

/// The arguments that start the shell `name`, in a terminal or on pipes; none
/// for a shell that the library does not know.
///
/// On pipes `bash`, `zsh` and `sh` read commands from their input and show no
/// prompt (`-s`); in a terminal they are interactive (`-i`).
pub open spec fn args_of(name: Seq<char>, pty_mode: bool) -> Option<Seq<Seq<char>>> {
    let stdin_flag = if pty_mode {
        "-i"@
    } else {
        "-s"@
    };
    if name == "bash"@ {
        Some(seq!["--norc"@, "--noprofile"@, stdin_flag])
    } else if name == "zsh"@ {
        Some(seq!["-f"@, stdin_flag])
    } else if name == "sh"@ {
        Some(seq![stdin_flag])
    } else if name == "fish"@ {
        Some(seq!["--no-config"@, "-i"@])
    } else if name == "cmd"@ {
        Some(seq!["/Q"@, "/K"@, "prompt $G"@])
    } else if name == "powershell"@ || name == "pwsh"@ {
        Some(seq!["-ExecutionPolicy"@, "Bypass"@, "-NoExit"@, "-NoProfile"@])
    } else if name == "python"@ {
        Some(seq!["-u"@, "-i"@])
    } else if name == "node"@ {
        Some(seq!["-i"@])
    } else {
        None
    }
}

/// What the shell `name` is told first: the Windows shells, to write UTF-8.
pub open spec fn init_of(name: Seq<char>) -> Option<Seq<char>> {
    if name == "cmd"@ {
        Some("chcp 65001 >nul 2>&1\r\n"@)
    } else if name == "powershell"@ || name == "pwsh"@ {
        Some(
            "[Console]::OutputEncoding = [System.Text.Encoding]::UTF8; [Console]::InputEncoding  = [System.Text.Encoding]::UTF8; $OutputEncoding           = [System.Text.Encoding]::UTF8\n"@,
        )
    } else {
        None
    }
}

/// What asks the shell `name` to leave.
pub open spec fn exit_of(name: Seq<char>) -> Seq<char> {
    if name == "python"@ {
        "quit()\n"@
    } else if name == "node"@ {
        ".exit\n"@
    } else {
        "exit\n"@
    }
}

/// The arguments that start the shell `shell_name`.
pub fn shell_args(shell_name: &str, pty_mode: bool) -> (r: Result<Vec<&'static str>, ShellError>)
    ensures
        r is Ok <==> args_of(shell_name@, pty_mode) is Some,
        r matches Ok(args) ==> Some(arg_texts(args@)) == args_of(shell_name@, pty_mode),
        r matches Err(e) ==> (e matches ShellError::UnsupportedShell(n) && n@ == shell_name@),
{
    let stdin_flag: &'static str = if pty_mode {
        "-i"
    } else {
        "-s"
    };
    let args: Vec<&'static str> = if text::same(shell_name, "bash") {
        vec!["--norc", "--noprofile", stdin_flag]
    } else if text::same(shell_name, "zsh") {
        vec!["-f", stdin_flag]
    } else if text::same(shell_name, "sh") {
        vec![stdin_flag]
    } else if text::same(shell_name, "fish") {
        vec!["--no-config", "-i"]
    } else if text::same(shell_name, "cmd") {
        vec!["/Q", "/K", "prompt $G"]
    } else if text::same(shell_name, "powershell") || text::same(shell_name, "pwsh") {
        vec!["-ExecutionPolicy", "Bypass", "-NoExit", "-NoProfile"]
    } else if text::same(shell_name, "python") {
        vec!["-u", "-i"]
    } else if text::same(shell_name, "node") {
        vec!["-i"]
    } else {
        return Err(ShellError::UnsupportedShell(shell_name.to_owned()));
    };
    assert(arg_texts(args@) == args_of(shell_name@, pty_mode)->0);
    Ok(args)
}

/// What the shell `shell_name` is told first, if anything.
pub fn init_command(shell_name: &str) -> (r: Option<String>)
    ensures
        r is Some <==> init_of(shell_name@) is Some,
        r matches Some(s) ==> Some(s@) == init_of(shell_name@),
{
    if text::same(shell_name, "cmd") {
        Some("chcp 65001 >nul 2>&1\r\n".to_owned())
    } else if text::same(shell_name, "powershell") || text::same(shell_name, "pwsh") {
        Some(
            "[Console]::OutputEncoding = [System.Text.Encoding]::UTF8; [Console]::InputEncoding  = [System.Text.Encoding]::UTF8; $OutputEncoding           = [System.Text.Encoding]::UTF8\n".to_owned(),
        )
    } else {
        None
    }
}

/// What the library knows of one shell.
#[derive(Debug, Clone)]
pub struct ShellProfile {
    name: String,
}

impl View for ShellProfile {
    type V = Seq<char>;

    /// The name of the shell.
    closed spec fn view(&self) -> Seq<char> {
        self.name@
    }
}

impl ShellProfile {
    /// The profile of the shell at `shell_path`. Whether the shell is known shows
    /// when it is to be started.
    pub fn detect(shell_path: &str) -> (r: Result<ShellProfile, ShellError>)
        ensures
            r is Err <==> util::shell_name(shell_path@).len() == 0,
            r matches Ok(p) ==> p@ == util::shell_name(shell_path@),
            r matches Err(e) ==> (e matches ShellError::InvalidShellPath(p) && p@ == shell_path@),
    {
        match util::normalize_shell_name(shell_path) {
            Ok(name) => Ok(ShellProfile { name }),
            Err(e) => Err(e),
        }
    }

    /// The name of the shell.
    pub fn name(&self) -> (r: &str)
        ensures
            r@ == self@,
    {
        self.name.as_str()
    }

    /// The arguments that start the shell.
    pub fn args(&self, pty_mode: bool) -> (r: Result<Vec<&'static str>, ShellError>)
        ensures
            r is Ok <==> args_of(self@, pty_mode) is Some,
            r matches Ok(args) ==> Some(arg_texts(args@)) == args_of(self@, pty_mode),
            r matches Err(e) ==> (e matches ShellError::UnsupportedShell(n) && n@ == self@),
    {
        shell_args(self.name.as_str(), pty_mode)
    }

    /// What the shell is told first, if anything.
    pub fn init_command(&self) -> (r: Option<String>)
        ensures
            r is Some <==> init_of(self@) is Some,
            r matches Some(s) ==> Some(s@) == init_of(self@),
    {
        init_command(self.name.as_str())
    }

    /// What asks the shell to leave.
    pub fn exit_command(&self) -> (r: String)
        ensures
            r@ == exit_of(self@),
    {
        let name: &str = self.name.as_str();
        if text::same(name, "python") {
            "quit()\n".to_owned()
        } else if text::same(name, "node") {
            ".exit\n".to_owned()
        } else {
            "exit\n".to_owned()
        }
    }
}

/// A terminal changes nothing but the last argument, and that only for the shells
/// that would read their input without a prompt on pipes: there they are told to
/// read it, here to be interactive.
pub proof fn a_terminal_changes_only_the_last_argument(name: Seq<char>)
    requires
        args_of(name, false) is Some,
    ensures
        args_of(name, true) is Some,
        ({
            let on_pipes = args_of(name, false)->0;
            let in_terminal = args_of(name, true)->0;
            &&& on_pipes.len() > 0
            &&& if name == "bash"@ || name == "zsh"@ || name == "sh"@ {
                &&& on_pipes.last() == "-s"@
                &&& in_terminal.last() == "-i"@
                &&& on_pipes.drop_last() == in_terminal.drop_last()
            } else {
                on_pipes == in_terminal
            }
        }),
{
}

/// The names of the shells are different from each other.
pub proof fn lemma_names_differ()
    ensures
        "bash"@.len() == 4 && "bash"@[0] == 'b',
        "zsh"@.len() == 3 && "zsh"@[0] == 'z',
        "sh"@.len() == 2,
        "fish"@.len() == 4 && "fish"@[0] == 'f',
        "cmd"@.len() == 3 && "cmd"@[0] == 'c',
        "powershell"@.len() == 10,
        "pwsh"@.len() == 4 && "pwsh"@[0] == 'p',
        "python"@.len() == 6,
        "node"@.len() == 4 && "node"@[0] == 'n',
{
    reveal_strlit("bash");
    reveal_strlit("zsh");
    reveal_strlit("sh");
    reveal_strlit("fish");
    reveal_strlit("cmd");
    reveal_strlit("powershell");
    reveal_strlit("pwsh");
    reveal_strlit("python");
    reveal_strlit("node");
}

/// The shells that the library can start are these nine, in a terminal and on pipes,
/// and a name in other words or letters is none of them.
pub proof fn these_shells_are_known(name: Seq<char>, pty_mode: bool)
    ensures
        args_of(name, pty_mode) is Some <==> (name == "bash"@ || name == "zsh"@ || name == "sh"@
            || name == "fish"@ || name == "cmd"@ || name == "powershell"@ || name == "pwsh"@ || name
            == "python"@ || name == "node"@),
{
}

/// No shell reads the startup files of its user, and every shell is told to read
/// commands or to be interactive, so that it waits for input.
pub proof fn shells_start_without_the_files_of_the_user(pty_mode: bool)
    ensures
        ({
            let last = if pty_mode {
                "-i"@
            } else {
                "-s"@
            };
            &&& args_of("bash"@, pty_mode) == Some(seq!["--norc"@, "--noprofile"@, last])
            &&& args_of("zsh"@, pty_mode) == Some(seq!["-f"@, last])
            &&& args_of("sh"@, pty_mode) == Some(seq![last])
            &&& args_of("fish"@, pty_mode) == Some(seq!["--no-config"@, "-i"@])
            &&& args_of("cmd"@, pty_mode) == Some(seq!["/Q"@, "/K"@, "prompt $G"@])
            &&& args_of("python"@, pty_mode) == Some(seq!["-u"@, "-i"@])
            &&& args_of("node"@, pty_mode) == Some(seq!["-i"@])
            &&& args_of("pwsh"@, pty_mode) == Some(
                seq!["-ExecutionPolicy"@, "Bypass"@, "-NoExit"@, "-NoProfile"@],
            )
            &&& args_of("powershell"@, pty_mode) == args_of("pwsh"@, pty_mode)
        }),
{
    lemma_names_differ();
}

/// Whatever shell it is, what asks it to leave is one line in its language: `quit()`
/// for Python, `.exit` for Node, and `exit` for every other, also for one that is not
/// known.
pub proof fn every_shell_can_be_asked_to_leave(name: Seq<char>)
    ensures
        name == "python"@ ==> exit_of(name) == "quit()"@.push('\n'),
        name == "node"@ ==> exit_of(name) == ".exit"@.push('\n'),
        name != "python"@ && name != "node"@ ==> exit_of(name) == "exit"@.push('\n'),
        exit_of(name).len() > 0,
        exit_of(name).last() == '\n',
        !exit_of(name).drop_last().contains('\n'),
{
    lemma_names_differ();
    reveal_strlit("quit()\n");
    reveal_strlit("quit()");
    reveal_strlit(".exit\n");
    reveal_strlit(".exit");
    reveal_strlit("exit\n");
    reveal_strlit("exit");
    assert("quit()\n"@ == "quit()"@.push('\n'));
    assert(".exit\n"@ == ".exit"@.push('\n'));
    assert("exit\n"@ == "exit"@.push('\n'));
    let s = exit_of(name).drop_last();
    assert(s == "quit()"@ || s == ".exit"@ || s == "exit"@);
}

/// Only the shells of Windows are told something first, and it ends with a line end, so
/// that they act on it.
pub proof fn only_windows_shells_are_told_something_first(name: Seq<char>)
    ensures
        init_of(name) is Some <==> name == "cmd"@ || name == "powershell"@ || name == "pwsh"@,
        init_of(name) matches Some(s) ==> s.len() > 0 && s.last() == '\n',
        init_of("cmd"@) == Some("chcp 65001 >nul 2>&1\r\n"@),
        init_of("powershell"@) == init_of("pwsh"@),
        init_of("pwsh"@) == Some(
            "[Console]::OutputEncoding = [System.Text.Encoding]::UTF8; [Console]::InputEncoding  = [System.Text.Encoding]::UTF8; $OutputEncoding           = [System.Text.Encoding]::UTF8\n"@,
        ),
{
    lemma_names_differ();
    reveal_strlit("chcp 65001 >nul 2>&1\r\n");
    reveal_strlit(
        "[Console]::OutputEncoding = [System.Text.Encoding]::UTF8; [Console]::InputEncoding  = [System.Text.Encoding]::UTF8; $OutputEncoding           = [System.Text.Encoding]::UTF8\n",
    );
}

} // verus!
