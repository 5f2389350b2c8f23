use shell_engine::error::{delivery, PtyRequest, Request, ShellError};
use shell_engine::shell::callbacks::CallbackCall;
use shell_engine::shell::control::{answered, SendStep};
use shell_engine::shell::search::{OutputSearch, SearchEvent};
use shell_engine::shell::session::{
    idle_time, join_result, ExitOutcome, Lifecycle, ResetStep, WaitEvent,
};
use shell_engine::shell::stream::{Emission, StdinMsg};
use shell_engine::shell::{parse_control_shortcut, PtySignal};
use shell_engine::{bash, powershell, CallbackMode, Shell, ShellBuilder, ShellOutput};

fn open(builder: ShellBuilder) -> Shell {
    match builder.spawn() {
        Ok((shell, _plan)) => shell,
        Err(e) => panic!("{}", e.message()),
    }
}

fn refusal(builder: ShellBuilder) -> ShellError {
    match builder.spawn() {
        Ok(_) => panic!("not refused"),
        Err(e) => e,
    }
}

fn piece(s: &str) -> Emission {
    Emission { raw: s.to_string(), text: s.trim_end().to_string() }
}

#[test]
fn control_shortcut_parsing() {
    assert_eq!(parse_control_shortcut("^C"), Some('C'));
    assert_eq!(parse_control_shortcut(" ^d "), Some('D'));
    assert_eq!(parse_control_shortcut("^X"), None);
    assert_eq!(parse_control_shortcut("echo hi"), None);
}

#[test]
fn more_control_shortcuts() {
    assert_eq!(parse_control_shortcut("^?"), Some('?'));
    assert_eq!(parse_control_shortcut("^@"), Some('@'));
    assert_eq!(parse_control_shortcut("^_"), Some('_'));
    assert_eq!(parse_control_shortcut("^["), Some('['));
    assert_eq!(parse_control_shortcut("^c\n"), Some('C'));
    assert_eq!(parse_control_shortcut("^"), None);
    assert_eq!(parse_control_shortcut("^CC"), None);
    assert_eq!(parse_control_shortcut("^1"), None);
    assert_eq!(parse_control_shortcut("   ^C"), None);
}

#[test]
fn plan_for_pipes() {
    let (shell, plan) = match Shell::new(" /bin/sh ").line_callback().spawn() {
        Ok(pair) => pair,
        Err(e) => panic!("{}", e.message()),
    };
    assert_eq!(shell.shell_path, "/bin/sh");
    assert_eq!(shell.shell_path(), "/bin/sh");
    assert_eq!(plan.program, "/bin/sh");
    assert_eq!(plan.args, vec!["-s"]);
    assert_eq!(plan.init, None);
    assert_eq!(plan.mode, CallbackMode::Line);
    assert!(plan.pty.is_none());
    assert!(!shell.is_pty());
    assert_eq!(shell.pty_window_size(), None);
}

#[test]
fn plan_for_a_terminal() {
    let builder = Shell::new("sh").pty_size(100, 30).scrollback(5).enable_pty();
    let (shell, plan) = match builder.spawn() {
        Ok(pair) => pair,
        Err(e) => panic!("{}", e.message()),
    };
    assert_eq!(plan.args, vec!["-i"]);
    assert_eq!(plan.mode, CallbackMode::Raw);
    let options = plan.pty.unwrap();
    assert_eq!((options.cols, options.rows), (100, 30));
    assert_eq!(options.scrollback, 5);
    assert!(options.track_screen);
    assert!(shell.is_pty());
    assert_eq!(shell.pty_window_size(), Some((100, 30)));
    let plain = open(Shell::new("sh").enable_pty());
    assert_eq!(plain.pty_window_size(), Some((80, 24)));
}

#[test]
fn terminal_choices_need_enable_pty() {
    let shell = open(Shell::new("sh").pty_size(100, 30).scrollback(1).disable_snapshot());
    assert!(!shell.is_pty());
}

#[test]
fn shells_that_do_not_start() {
    assert_eq!(refusal(Shell::new("  ")).message(), "shell path cannot be empty");
    assert!(matches!(refusal(Shell::new("/bin/")), ShellError::InvalidShellPath(_)));
    assert!(matches!(refusal(Shell::new("nu")), ShellError::UnsupportedShell(_)));
}

#[test]
fn shared_sessions() {
    let shell = open(bash());
    assert_eq!(shell.shell_path, "bash");
    assert!(!shell.wait_idle(WaitEvent::Begin));
    assert_eq!(open(powershell()).shell_path, "powershell");
}

#[test]
fn output_goes_to_buffers_and_callbacks() {
    let mut shell = open(Shell::new("sh").enable_buffer().on_output().on_error());
    let r = shell.record(piece("out\n"), false);
    assert!(r.news);
    assert!(matches!(r.call, Some(CallbackCall::Output(s)) if s == "out"));
    let r = shell.record(piece("err\n"), true);
    assert!(matches!(r.call, Some(CallbackCall::Error(s)) if s == "err"));
    let out = shell.output();
    assert_eq!(out.stdout, "out\n");
    assert_eq!(out.stderr, "err\n");
    assert!(!out.is_empty());
    assert!(shell.output().is_empty());
    assert_eq!(ShellOutput::default(), shell.output());
}

#[test]
fn without_buffers_and_callbacks_nothing_is_kept() {
    let mut shell = open(Shell::new("sh"));
    let r = shell.record(piece("out\n"), false);
    assert!(!r.news);
    assert!(r.call.is_none());
    assert!(shell.wait_idle(WaitEvent::Begin));
    assert!(shell.output().is_empty());
    let mut search = OutputSearch::new("x");
    assert!(shell.output_until(&mut search, SearchEvent::Output));
    assert!(search.finish().is_empty());
    assert_eq!(shell.output_truncated_bytes(), 0);
}

#[test]
fn truncated_bytes_of_both_streams() {
    let mut shell = open(Shell::new("sh").enable_buffer_with_capacity(4));
    shell.record(piece("abc"), false);
    shell.record(piece("de"), false);
    shell.record(piece("123456"), true);
    assert_eq!(shell.output_truncated_bytes(), 3);
    assert_eq!(shell.error_truncated_bytes(), 6);
    assert_eq!(shell.output().stdout, "de");
}

#[test]
fn waiting_for_idle_output() {
    let shell = open(Shell::new("sh").enable_buffer());
    assert!(!shell.wait_idle(WaitEvent::Begin));
    assert!(!shell.wait_idle(WaitEvent::Output));
    assert!(shell.wait_idle(WaitEvent::Closed));
    assert!(shell.wait_idle(WaitEvent::TimedOut));
    assert_eq!(idle_time(None), 200);
    assert_eq!(idle_time(Some(300)), 300);
}

#[test]
fn searching_the_output() {
    let mut shell = open(Shell::new("sh").enable_buffer());
    let mut search = OutputSearch::new("READY_MARK");
    shell.record(piece("READY"), false);
    assert!(!shell.output_until(&mut search, SearchEvent::Output));
    shell.record(piece("_MARK\n"), false);
    shell.record(piece("note\n"), true);
    assert!(shell.output_until(&mut search, SearchEvent::Output));
    let out = search.finish();
    assert_eq!(out.stdout, "READY_MARK\n");
    assert_eq!(out.stderr, "note\n");
    assert!(shell.output().is_empty());
}

#[test]
fn search_finds_text_in_the_error_stream() {
    let mut shell = open(Shell::new("sh").enable_buffer());
    let mut search = OutputSearch::new("oops");
    shell.record(piece("an oops\n"), true);
    assert!(shell.output_until(&mut search, SearchEvent::Output));
}

#[test]
fn search_ends_at_the_deadline_with_what_came() {
    for event in [SearchEvent::TimedOut, SearchEvent::OutputTooLate, SearchEvent::Closed] {
        let mut shell = open(Shell::new("sh").enable_buffer());
        let mut search = OutputSearch::new("NEVER_APPEARS");
        assert!(!shell.output_until(&mut search, SearchEvent::Output));
        shell.record(piece("hello\n"), false);
        assert!(shell.output_until(&mut search, event));
        assert_eq!(search.finish().stdout, "hello\n");
    }
}

#[test]
fn commands_are_sent_or_filtered() {
    let shell = open(Shell::new("sh"));
    let step = shell.send_line("echo hi").unwrap();
    match step.message() {
        Some((StdinMsg::Data(s), Request::Command)) => assert_eq!(s, "echo hi\n"),
        _ => panic!("no command"),
    }
    let filtered = open(Shell::new("sh").on_send());
    assert!(matches!(filtered.send("ls"), Ok(SendStep::Ask(s)) if s == "ls"));
    assert!(matches!(answered(None), SendStep::Nothing));
    let step = answered(Some("ls -l".to_string()));
    assert!(matches!(step, SendStep::Data(s, Request::Command) if s == "ls -l"));
    assert!(answered(None).message().is_none());
}

#[test]
fn control_characters_on_pipes() {
    let shell = open(Shell::new("sh"));
    assert!(matches!(shell.send("^R"), Ok(SendStep::Reset)));
    assert!(matches!(shell.send("^d"), Ok(SendStep::Eof)));
    assert!(matches!(shell.send("^C"), Ok(SendStep::Nothing)));
    assert!(matches!(shell.send_control_char('r'), SendStep::Reset));
    assert!(matches!(shell.send_eof().message(), Some((StdinMsg::Eof, Request::Eof))));
}

#[test]
fn control_characters_in_a_terminal() {
    let shell = open(Shell::new("sh").enable_pty());
    let typed = |c: char| match shell.send_control_char(c) {
        SendStep::Data(s, _) => s,
        _ => String::new(),
    };
    assert_eq!(typed('C'), "\u{3}");
    assert_eq!(typed('c'), "\u{3}");
    assert_eq!(typed('@'), "\u{0}");
    assert_eq!(typed('_'), "\u{1f}");
    assert_eq!(typed('R'), "\u{12}");
    assert_eq!(typed('?'), "\u{7f}");
    assert_eq!(typed('1'), "");
    let step = shell.send("^?").unwrap();
    assert!(matches!(step, SendStep::Data(s, Request::Delete) if s == "\u{7f}"));
    let step = shell.send("^Z").unwrap();
    assert!(matches!(step, SendStep::Data(s, Request::ControlChar) if s == "\u{1a}"));
    let step = shell.send("^X").unwrap();
    assert!(matches!(step, SendStep::Data(s, Request::Command) if s == "^X"));
}

#[test]
fn undelivered_messages() {
    assert!(delivery(Request::Eof, true).is_ok());
    let words = |r: Request| delivery(r, false).unwrap_err().message();
    assert_eq!(words(Request::Command), "send failed: stdin channel closed");
    assert_eq!(words(Request::Eof), "send EOF failed");
    assert_eq!(words(Request::ControlChar), "send control char failed: stdin channel closed");
    assert_eq!(words(Request::Delete), "send DEL failed: stdin channel closed");
    assert_eq!(words(Request::Resize), "resize failed: stdin channel closed");
    assert_eq!(words(Request::Signal), "signal channel closed");
}

#[test]
fn terminal_requests_need_a_terminal() {
    let mut shell = open(Shell::new("sh"));
    assert!(matches!(
        shell.output_snapshot(),
        Err(ShellError::RequiresPty(PtyRequest::Snapshot))
    ));
    assert!(matches!(
        shell.screen_clone(),
        Err(ShellError::RequiresPty(PtyRequest::ScreenClone))
    ));
    let e = shell.resize(80, 24).unwrap_err();
    assert_eq!(e.message(), "resize() requires enable_pty()");
    let e = shell.send_signal(PtySignal::Interrupt).unwrap_err();
    assert_eq!(e.message(), "send_signal() requires enable_pty()");
}

#[test]
fn terminal_requests_in_a_terminal() {
    let mut shell = open(Shell::new("sh").enable_pty());
    assert!(matches!(shell.resize(120, 40), Ok(StdinMsg::Resize(120, 40))));
    assert_eq!(shell.pty_window_size(), Some((120, 40)));
    assert_eq!(shell.send_signal(PtySignal::Hangup).unwrap(), PtySignal::Hangup);
    assert_eq!(shell.output_snapshot().unwrap(), "");
    assert_eq!(shell.screen_clone().unwrap().size(), (24, 80));
    let blind = open(Shell::new("sh").enable_pty().disable_snapshot());
    let e = blind.output_snapshot().unwrap_err();
    assert_eq!(
        e.message(),
        "screen tracking is disabled; remove disable_snapshot() to use this feature"
    );
    assert!(matches!(blind.screen_clone(), Err(ShellError::ScreenTrackingDisabled)));
}

#[test]
fn terminal_has_no_error_buffer() {
    let mut shell = open(Shell::new("sh").enable_pty().enable_buffer_with_capacity(2));
    shell.record(piece("abc"), false);
    assert_eq!(shell.output_truncated_bytes(), 3);
    assert_eq!(shell.error_truncated_bytes(), 0);
}

#[test]
fn closed_sessions_refuse_requests() {
    let mut shell = open(Shell::new("sh").enable_pty());
    let actions = shell.close();
    assert!(actions.release && actions.stop_input && actions.wake);
    assert_eq!(shell.lifecycle(), Lifecycle::Closed);
    assert!(matches!(shell.send("ls"), Err(ShellError::Closed)));
    assert!(matches!(shell.send_line("ls"), Err(ShellError::Closed)));
    assert!(matches!(shell.resize(1, 1), Err(ShellError::Closed)));
    assert!(matches!(shell.send_signal(PtySignal::Kill), Err(ShellError::Closed)));
    assert!(matches!(shell.output_snapshot(), Err(ShellError::Closed)));
    assert!(matches!(shell.screen_clone(), Err(ShellError::Closed)));
    assert!(matches!(shell.exit(), Err(ShellError::Closed)));
    assert_eq!(shell.reset().unwrap_err().message(), "shell is closed");
    let again = shell.close();
    assert!(!again.release && !again.stop_input && !again.wake);
}

#[test]
fn leaving_and_starting_again() {
    let mut shell = open(Shell::new("python").enable_buffer().on_output());
    shell.record(piece("kept"), false);
    let plan = shell.exit().unwrap();
    assert_eq!(plan.command, "quit()\n");
    assert!(plan.join);
    let (actions, result) = shell.exit_done(ExitOutcome::Left);
    assert!(result.is_ok());
    assert!(actions.release && actions.wake && !actions.stop_input);
    assert_eq!(shell.lifecycle(), Lifecycle::Exited);
    assert!(matches!(shell.exit(), Err(ShellError::Closed)));
    assert!(matches!(shell.reset(), Ok(ResetStep::Launch)));
    let plan = shell.relaunch().unwrap();
    assert_eq!(plan.args, vec!["-u", "-i"]);
    assert_eq!(shell.session(), 0);
    shell.relaunch_done();
    assert_eq!(shell.session(), 1);
    assert_eq!(shell.lifecycle(), Lifecycle::Open);
    assert_eq!(shell.output().stdout, "kept");
    assert!(shell.record(piece("x"), false).call.is_some());
}

#[test]
fn resetting_an_open_session_asks_it_to_leave() {
    let mut shell = open(Shell::new("node").enable_pty().pty_size(90, 20));
    let step = shell.reset().unwrap();
    assert!(matches!(step, ResetStep::Exit(plan) if plan.command == ".exit\n" && plan.join));
    let (actions, result) = shell.exit_done(ExitOutcome::TimedOut);
    assert!(result.is_ok());
    assert!(actions.release && actions.wake && actions.stop_input);
    let plan = shell.relaunch().unwrap();
    assert_eq!(plan.pty, shell.pty_options());
    shell.relaunch_done();
    assert_eq!(shell.pty_window_size(), Some((90, 20)));
    assert!(shell.send("ls").is_ok());
}

#[test]
fn broken_watcher_is_reported() {
    let mut shell = open(Shell::new("sh"));
    shell.exit().unwrap();
    let (_, result) = shell.exit_done(ExitOutcome::Broken("panicked".to_string()));
    assert_eq!(result.unwrap_err().message(), "join_exit failed: panicked");
    assert_eq!(shell.lifecycle(), Lifecycle::Exited);
    assert!(join_result(None).is_ok());
    assert!(join_result(Some("x".to_string())).is_err());
}

#[test]
fn process_is_waited_for_once() {
    let mut shell = open(Shell::new("sh"));
    let plan = shell.join_close();
    assert!(plan.wait_closed && plan.join);
    assert!(!shell.join_exit());
    assert!(!shell.exit().unwrap().join);
    shell.close();
    let plan = shell.join_close();
    assert!(!plan.wait_closed && !plan.join);
}

#[test]
fn closing_ends_a_session_that_has_left() {
    let mut shell = open(Shell::new("sh"));
    shell.exit().unwrap();
    shell.exit_done(ExitOutcome::Left);
    shell.close();
    assert_eq!(shell.lifecycle(), Lifecycle::Closed);
    assert!(matches!(shell.reset(), Err(ShellError::Closed)));
}
