use shell_engine::error::ShellError;
use shell_engine::shell::profile::{init_command, shell_args, ShellProfile};
use shell_engine::util::normalize_shell_name;

#[test]
fn bash_args_differ_between_pipe_and_pty() {
    let p = ShellProfile::detect("/bin/bash").unwrap();
    assert_eq!(p.args(false).unwrap(), vec!["--norc", "--noprofile", "-s"]);
    assert_eq!(p.args(true).unwrap(), vec!["--norc", "--noprofile", "-i"]);
}

#[test]
fn unsupported_shell_errors() {
    let p = ShellProfile::detect("/bin/nu").unwrap();
    assert!(p.args(false).is_err());
}

#[test]
fn arguments_of_every_shell() {
    assert_eq!(shell_args("zsh", false).unwrap(), vec!["-f", "-s"]);
    assert_eq!(shell_args("zsh", true).unwrap(), vec!["-f", "-i"]);
    assert_eq!(shell_args("sh", false).unwrap(), vec!["-s"]);
    assert_eq!(shell_args("sh", true).unwrap(), vec!["-i"]);
    assert_eq!(shell_args("fish", false).unwrap(), vec!["--no-config", "-i"]);
    assert_eq!(shell_args("cmd", false).unwrap(), vec!["/Q", "/K", "prompt $G"]);
    let powershell = vec!["-ExecutionPolicy", "Bypass", "-NoExit", "-NoProfile"];
    assert_eq!(shell_args("powershell", false).unwrap(), powershell);
    assert_eq!(shell_args("pwsh", true).unwrap(), powershell);
    assert_eq!(shell_args("python", false).unwrap(), vec!["-u", "-i"]);
    assert_eq!(shell_args("node", true).unwrap(), vec!["-i"]);
}

#[test]
fn unknown_shell_is_named_in_the_error() {
    let e = shell_args("nu", true).unwrap_err();
    assert!(matches!(&e, ShellError::UnsupportedShell(name) if name == "nu"));
    assert_eq!(e.message(), "unsupported shell: nu");
}

#[test]
fn only_windows_shells_are_told_something_first() {
    assert_eq!(init_command("cmd").unwrap(), "chcp 65001 >nul 2>&1\r\n");
    assert!(init_command("pwsh").unwrap().ends_with("UTF8\n"));
    assert_eq!(init_command("powershell"), init_command("pwsh"));
    assert_eq!(init_command("bash"), None);
    assert_eq!(ShellProfile::detect("bash").unwrap().init_command(), None);
}

#[test]
fn exit_command_of_every_shell() {
    assert_eq!(ShellProfile::detect("python").unwrap().exit_command(), "quit()\n");
    assert_eq!(ShellProfile::detect("node").unwrap().exit_command(), ".exit\n");
    assert_eq!(ShellProfile::detect("/bin/zsh").unwrap().exit_command(), "exit\n");
}

#[test]
fn name_comes_from_the_last_part_of_the_path() {
    assert_eq!(normalize_shell_name("bash").unwrap(), "bash");
    assert_eq!(normalize_shell_name("/usr/local/bin/fish").unwrap(), "fish");
    assert_eq!(
        normalize_shell_name("C:\\Windows\\System32\\CMD.EXE").unwrap(),
        "cmd"
    );
    assert_eq!(ShellProfile::detect("/bin/SH").unwrap().name(), "sh");
}

#[test]
fn path_without_a_program_is_refused() {
    let e = normalize_shell_name("/bin/").unwrap_err();
    assert!(matches!(&e, ShellError::InvalidShellPath(path) if path == "/bin/"));
    assert_eq!(e.message(), "invalid shell path: /bin/");
    assert!(ShellProfile::detect("").is_err());
}
