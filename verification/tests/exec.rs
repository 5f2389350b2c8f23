use shell_engine::error::ShellError;
use shell_engine::exec::{
    build_exec_command, exec, exec_result, to_exec_result, ExecOutcome, ExecResult, Platform,
};

#[test]
fn command_lines_on_unix() {
    let c = exec("ls -l", " /bin/bash ", Platform::Unix).unwrap();
    assert_eq!(c.program, "/bin/bash");
    assert_eq!(c.args, vec!["-c", "ls -l"]);
    assert!(c.env.is_empty());
    let node = exec("1+1", "node", Platform::Unix).unwrap();
    assert_eq!(node.args, vec!["-e", "1+1"]);
    let cmd = exec("dir", "cmd", Platform::Unix).unwrap();
    assert_eq!(cmd.args, vec!["/C", "dir"]);
    let pwsh = exec("ls", "pwsh", Platform::Unix).unwrap();
    assert_eq!(pwsh.args, vec!["-ep", "Bypass", "-nop", "-c", "ls"]);
}

#[test]
fn command_lines_on_windows() {
    let cmd = exec("dir", "cmd.exe", Platform::Windows).unwrap();
    assert_eq!(cmd.args, vec!["/C", "chcp 65001 >nul 2>&1 &  dir"]);
    let ps = build_exec_command("powershell", "powershell", "ls", Platform::Windows).unwrap();
    assert!(ps.args[4].starts_with("[Console]::OutputEncoding"));
    assert!(ps.args[4].ends_with("ls"));
    let python = exec("print(1)", "python", Platform::Windows).unwrap();
    assert_eq!(python.args, vec!["-c", "print(1)"]);
    assert_eq!(python.env, vec![("PYTHONUTF8".to_string(), "1".to_string())]);
}

#[test]
fn refused_shells() {
    let e = exec("ls", "  ", Platform::Unix).unwrap_err();
    assert_eq!(e.message(), "shell path cannot be empty");
    let e = exec("ls", "/bin/", Platform::Unix).unwrap_err();
    assert!(matches!(e, ShellError::InvalidShellPath(_)));
    let e = exec("ls", "nu", Platform::Unix).unwrap_err();
    assert_eq!(e.message(), "unsupported shell: nu");
}

#[test]
fn results_of_commands() {
    let good = to_exec_result(b"out", b"", Some(0));
    assert!(good.success());
    assert!(!good.failed());
    assert_eq!(good.ok().unwrap(), "out");
    let bad = to_exec_result(b"", b"no\xff", Some(3));
    assert!(bad.failed());
    assert_eq!(bad.exit_code, 3);
    assert_eq!(bad.ok().unwrap_err().message(), "no\u{fffd}");
    let killed: ExecResult = to_exec_result(b"", b"", None);
    assert_eq!(killed.exit_code, -1);
}

#[test]
fn outcomes_of_commands() {
    let finished = ExecOutcome::Finished(b"hello\n".to_vec(), Vec::new(), Some(0));
    assert_eq!(exec_result(finished).unwrap().stdout, "hello\n");
    let e = exec_result(ExecOutcome::TimedOut("5s".to_string())).unwrap_err();
    assert!(matches!(&e, ShellError::CommandTimedOut(limit) if limit == "5s"));
    assert_eq!(e.message(), "command timed out after 5s ");
}
