use shell_engine::pipe::{StdinAction, StdinWriter};
use shell_engine::pty::{record, run_pty_io, PtyAction, PtyEvent, PtyIo};
use shell_engine::screen::ScreenTracker;
use shell_engine::shell::callbacks::{CallbackCall, CallbackHub, CallbackSet};
use shell_engine::shell::session::ExitOutcome;
use shell_engine::shell::stream::StdinMsg;
use shell_engine::shell::PtySignal;
use shell_engine::supervisor::{run_supervisor, supervised, ChildEvent};
use shell_engine::{Shell, ShellBuilder};

fn open(builder: ShellBuilder) -> Shell {
    match builder.spawn() {
        Ok((shell, _plan)) => shell,
        Err(e) => panic!("{}", e.message()),
    }
}

#[test]
fn screen_shows_what_was_written() {
    let mut screen = ScreenTracker::new(4, 20, 10);
    assert_eq!(screen.contents(), "");
    screen.show("one\r\ntwo\x1b[1A!");
    assert_eq!(screen.contents(), "one!\ntwo");
    screen.show("\x1b[2J");
    assert_eq!(screen.contents(), "");
}

#[test]
fn plain_line_is_shown_as_it_is() {
    let mut screen = ScreenTracker::new(2, 8, 0);
    screen.show(" a~");
    screen.show("b c  ");
    assert_eq!(screen.contents(), " a~b c  ");
}

#[test]
fn screen_copy_is_the_screen() {
    let mut screen = ScreenTracker::new(5, 10, 0);
    screen.show("ab");
    let copy = screen.screen();
    assert_eq!(copy.contents(), "ab");
    assert_eq!(copy.cursor_position(), (0, 2));
    screen.show("c");
    assert_eq!(copy.contents(), "ab");
    assert_eq!(screen.screen().cursor_position(), (0, 3));
}

#[test]
fn screen_gets_another_size() {
    let mut screen = ScreenTracker::new(5, 10, 0);
    screen.set_size(6, 4);
    assert_eq!(screen.screen().size(), (6, 4));
    screen.show("abcdef");
    assert_eq!(screen.screen().cursor_position(), (1, 2));
}

#[test]
fn narrowed_screen_keeps_wide_characters() {
    let mut screen = ScreenTracker::new(3, 10, 0);
    screen.show("\u{4e2d}\u{6587}");
    screen.set_size(3, 5);
    assert!(screen.takes_char('n'));
    screen.show("new");
    assert_eq!(screen.contents(), "\u{4e2d}\u{6587}new");
    assert_eq!(screen.screen().size(), (3, 5));
}

#[test]
fn narrowed_large_screen_keeps_everything() {
    let mut screen = ScreenTracker::new(24, 80, 100);
    screen.show("\x1b[31m\u{4e2d}");
    screen.set_size(24, 79);
    screen.show("x");
    assert_eq!(screen.contents(), "\u{4e2d}x");
    let copy = screen.screen();
    assert_eq!(copy.cell(0, 2).unwrap().fgcolor(), vt100::Color::Idx(1));
}

#[test]
fn halves_that_nothing_touches_do_no_harm() {
    let mut screen = ScreenTracker::new(3, 10, 5);
    screen.show("1\r\n2\r\n3\r\n4\x1b[2;3r\x1b[H\x1b[2J\x1b[2;1H\u{4e2d}\u{6587}\x1b[1;2H");
    screen.set_size(3, 3);
    for c in "!?\x1b[K\x1b]0;JKPX@\x07".chars() {
        assert!(screen.takes_char(c));
        screen.show(&c.to_string());
    }
    assert_eq!(screen.contents(), " !?\n\u{4e2d}\u{6587}");
    let mut copy = screen.screen();
    copy.set_scrollback(5);
    assert_eq!(copy.scrollback(), 1);
}

#[test]
fn half_a_character_at_the_edge_is_all_that_is_lost() {
    let mut screen = ScreenTracker::new(3, 10, 0);
    screen.show("\x1b[32mab\x1b[m\r\n\u{4e2d}\u{6587}z\x1b[?2004h\x1b[2;3H\x1b[1m");
    screen.set_size(3, 3);
    assert!(!screen.takes_char('!'));
    assert!(screen.takes_char('\r'));
    screen.show("!");
    assert!(screen.takes_char('!'));
    assert_eq!(screen.contents(), "ab\n\u{4e2d}!");
    let copy = screen.screen();
    assert_eq!(copy.size(), (3, 3));
    assert_eq!(copy.cursor_position(), (1, 3));
    assert_eq!(copy.cell(0, 0).unwrap().fgcolor(), vt100::Color::Idx(2));
    assert!(copy.cell(1, 2).unwrap().bold());
    assert!(copy.bracketed_paste());
    assert!(!copy.alternate_screen());
    assert!(!copy.hide_cursor());
}

#[test]
fn code_goes_on_when_the_screen_is_drawn_again() {
    let mut screen = ScreenTracker::new(3, 10, 0);
    screen.show("ab\r\n\u{4e2d}\u{6587}\x1b[2;1H");
    screen.set_size(3, 3);
    screen.show("\x1b[1");
    assert!(!screen.takes_char('P'));
    screen.show("P");
    assert_eq!(screen.contents(), "ab");
    screen.show("x");
    assert_eq!(screen.contents(), "ab\nx");
}

#[test]
fn halves_at_the_start_of_the_next_line() {
    let mut screen = ScreenTracker::new(3, 2, 0);
    screen.show("ab\u{4e2d}\x1b[1;2H");
    screen.set_size(3, 1);
    assert!(screen.takes_char('\x1b'));
    screen.show("xy");
    assert_eq!(screen.contents(), "xy");
}

#[test]
fn cursor_behind_the_edge_stays_there_when_drawn_again() {
    let mut screen = ScreenTracker::new(3, 2, 0);
    screen.show("\r\n\u{4e2d}");
    screen.set_size(3, 1);
    screen.set_size(3, 4);
    screen.show("\x1b[1;1H\x1b[31mab\u{6587}\x1b[32m");
    assert_eq!(screen.screen().cursor_position(), (0, 4));
    assert!(!screen.takes_char('x'));
    screen.show("x");
    assert_eq!(screen.contents(), "ab\u{6587}x ");
    let copy = screen.screen();
    assert_eq!(copy.cursor_position(), (1, 1));
    assert_eq!(copy.cell(0, 2).unwrap().fgcolor(), vt100::Color::Idx(1));
    assert_eq!(copy.cell(1, 0).unwrap().fgcolor(), vt100::Color::Idx(2));
}

#[test]
fn alternate_screen_stays_in_view_when_drawn_again() {
    let mut screen = ScreenTracker::new(3, 6, 0);
    screen.show("main\x1b[?1049h\x1b[?25l\x1b[H\u{4e2d}\u{6587}");
    screen.set_size(3, 3);
    screen.show("\x1b[3;1Hk");
    assert_eq!(screen.contents(), "\u{4e2d}\u{6587}\n\nk");
    screen.show("\x1b[1;3Hl");
    let copy = screen.screen();
    assert!(copy.alternate_screen());
    assert!(copy.hide_cursor());
    assert_eq!(copy.contents(), "\u{4e2d}l\n\nk");
}

#[test]
fn grid_out_of_view_is_looked_at_when_it_comes_back() {
    let mut screen = ScreenTracker::new(3, 6, 0);
    screen.show("\u{4e2d}\u{6587}\r\n\x1b[?1049hless");
    screen.set_size(3, 3);
    screen.show("\x1b[?1049l\x1b[H\x1b[Kq");
    assert_eq!(screen.contents(), "q");
    assert!(!screen.screen().alternate_screen());
}

const OVER_A_HALF: &str = "\x1b[1;5H\u{4e2d}\x1b[1;4Ha\x1b[1;1H\x1b[6P";

#[test]
fn widened_screen_takes_text_again() {
    let mut screen = ScreenTracker::new(3, 10, 0);
    screen.show("\u{4e2d}\u{6587}");
    screen.set_size(3, 3);
    screen.set_size(3, 8);
    assert_eq!(screen.screen().cursor_position(), (0, 2));
    assert!(!screen.takes_char('!'));
    screen.show("!");
    assert!(screen.takes_char('!'));
    assert_eq!(screen.contents(), "\u{4e2d}! ");
}

#[test]
fn halves_on_a_widened_screen() {
    let mut screen = ScreenTracker::new(24, 5, 0);
    screen.show("   \u{4e2d}");
    screen.set_size(24, 4);
    screen.set_size(24, 10);
    screen.show("\x1b[1;5H\u{4e2d}\x1b[1;4H");
    assert!(!screen.takes_char('a'));
    screen.show(OVER_A_HALF);
    assert_eq!(screen.screen().size(), (24, 10));
    assert_eq!(screen.contents(), "");
}

#[test]
fn halves_on_a_widened_grid_out_of_view() {
    let mut screen = ScreenTracker::new(24, 5, 0);
    screen.show("   \u{4e2d}\x1b[?47h");
    screen.set_size(24, 4);
    screen.set_size(24, 10);
    screen.show(OVER_A_HALF);
    screen.show("\x1b[?47l");
    assert_eq!(screen.contents(), "   \u{4e2d}");
    screen.show("\x1b[1;4H");
    assert!(!screen.takes_char('a'));
    screen.show(OVER_A_HALF);
    assert_eq!(screen.contents(), "");
}

#[test]
fn no_mixture_of_text_codes_and_sizes_fails() {
    let parts = [
        "a", "bc", " ", "\u{4e2d}", "\u{6587}\u{4e2d}", "e\u{301}", "\u{301}", "\u{17d8}", "\u{fffd}",
        "\u{85}", "\x7f", "\t", "\r", "\n", "\x08", "\x1b[@", "\x1b[2@", "\x1b[P", "\x1b[3P", "\x1b[X",
        "\x1b[2X", "\x1b[K", "\x1b[1K", "\x1b[2K", "\x1b[J", "\x1b[1J", "\x1b[?1J", "\x1b[?K", "\x1b[H",
        "\x1b[2;2H", "\x1b[1;3H", "\x1b[2;4H", "\x1b[A", "\x1b[C", "\x1b[2D", "\x1b[L", "\x1b[M",
        "\x1b[S", "\x1b[T", "\x1bM", "\x1b7", "\x1b8", "\x1b[1;2r", "\x1b[2;3r", "\x1b[r", "\x1b[?6h",
        "\x1b[?6l", "\x1b[?47h", "\x1b[?47l", "\x1b[?1049h", "\x1b[?1049l", "\x1b[31m", "\x1b[m",
        "\x1b]0;\u{4e2d}P\x07", "\x1bP1$r\u{271c}K\x1b\\", "\x1b[1\nP", "\x1b(", "\x1b[\u{4e2d}", "\x18",
    ];
    let mut seed: u64 = 88172645463325252;
    let mut next = |n: u64| {
        seed ^= seed << 13;
        seed ^= seed >> 7;
        seed ^= seed << 17;
        (seed >> 20) % n
    };
    for _ in 0..4000 {
        let mut screen = ScreenTracker::new(next(4) as u16 + 1, next(7) as u16 + 1, 2);
        for _ in 0..60 {
            if next(8) == 0 {
                screen.set_size(next(4) as u16 + 1, next(7) as u16 + 1);
            } else {
                let mut text = String::new();
                for _ in 0..next(4) {
                    text.push_str(parts[next(parts.len() as u64) as usize]);
                }
                screen.show(&text);
            }
            let copy = screen.screen();
            let (rows, cols) = copy.size();
            let (row, col) = copy.cursor_position();
            assert!(row < rows && col <= cols);
            assert_eq!(copy.contents(), screen.contents());
        }
    }
}

#[test]
fn narrow_characters_survive_narrowing() {
    let mut screen = ScreenTracker::new(3, 10, 0);
    screen.show("\u{2500}\u{276f} \u{2713}");
    screen.set_size(3, 5);
    assert!(screen.takes_char('!'));
    assert_eq!(screen.contents(), "\u{2500}\u{276f} \u{2713}");
}

#[test]
fn single_row_shows_lines_that_fit() {
    let mut screen = ScreenTracker::new(1, 8, 0);
    screen.show("hello");
    assert_eq!(screen.contents(), "hello");
    screen.show("\r\nbye");
    assert_eq!(screen.contents(), "bye");
    screen.show("\x1b[1m12345");
    assert_eq!(screen.contents(), "bye12345");
    assert!(!screen.takes_char('6'));
    assert!(screen.takes_char('\x1b'));
    screen.show("6");
    assert_eq!(screen.contents(), "6");
    assert!(screen.screen().cell(0, 0).unwrap().bold());
    screen.show("\x1b[m\x1b]0;a title that is long\x077");
    assert_eq!(screen.contents(), "67");
    assert!(!screen.screen().cell(0, 1).unwrap().bold());
}

#[test]
fn screen_becomes_a_single_row() {
    let mut screen = ScreenTracker::new(3, 8, 0);
    screen.show("one\r\ntwo\x1b[1;3H");
    screen.set_size(1, 8);
    screen.show("\x1b[1mabc");
    assert_eq!(screen.contents(), "onabc");
    assert!(screen.screen().cell(0, 2).unwrap().bold());
    assert!(!screen.screen().cell(0, 1).unwrap().bold());
}

#[test]
fn single_column_in_a_single_row() {
    let mut screen = ScreenTracker::new(1, 1, 0);
    screen.show("ab\u{4e2d}c\r\nd\x1b[2Je");
    assert_eq!(screen.contents(), "e");
}

#[test]
fn narrow_screens_show_narrow_text() {
    let mut screen = ScreenTracker::new(3, 1, 0);
    screen.show("ab\x1b[1Ac");
    assert_eq!(screen.contents(), "ac");
    assert!(!screen.takes_char('\u{4e2d}'));
    screen.show("\x1b[H\x1b[J\u{4e2d}x");
    assert_eq!(screen.contents(), "x");
    let mut two = ScreenTracker::new(3, 2, 0);
    two.show("abc");
    assert_eq!(two.contents(), "abc");
    assert!(two.takes_char('\u{4e2d}'));
    assert!(!two.takes_char('\u{17d8}'));
    two.show("\r\n\u{4e2d}");
    assert_eq!(two.contents(), "abc\n\u{4e2d}");
}

#[test]
fn very_broad_screen_shows_tabs_that_count() {
    let mut screen = ScreenTracker::new(2, 65530, 0);
    assert!(screen.takes_char('\t'));
    screen.show("x\ty");
    assert_eq!(screen.contents(), "x       y");
    screen.show("\x1b[65530Gz");
    assert!(screen.takes_char('z'));
    assert!(!screen.takes_char('\t'));
    screen.show("\t");
    assert!(screen.contents().ends_with('z'));
    assert_eq!(screen.screen().cursor_position(), (0, 65530));
}

#[test]
fn terminal_output_reaches_screen_buffer_and_callback() {
    let mut shell = open(Shell::new("sh").enable_pty().enable_buffer().on_output().on_error());
    let mut io = PtyIo::new(&shell);
    let step = run_pty_io(&mut shell, &mut io, PtyEvent::Read(b"SNAP_\xe4".to_vec()));
    assert!(!step.done);
    assert_eq!(step.pieces.len(), 1);
    let step2 = run_pty_io(&mut shell, &mut io, PtyEvent::Read(b"\xb8\xadMARK".to_vec()));
    for piece in step.pieces.into_iter().chain(step2.pieces) {
        let r = record(&mut shell, piece);
        assert!(r.news);
        assert!(matches!(r.call, Some(CallbackCall::Output(_))));
    }
    assert_eq!(shell.output_snapshot().unwrap(), "SNAP_\u{4e2d}MARK");
    let out = shell.output();
    assert_eq!(out.stdout, "SNAP_\u{4e2d}MARK");
    assert_eq!(out.stderr, "");
}

#[test]
fn terminal_lines_and_idle_time() {
    let mut shell = open(Shell::new("sh").enable_pty().line_callback());
    let mut io = PtyIo::new(&shell);
    let step = run_pty_io(&mut shell, &mut io, PtyEvent::Read(b"a\r\n$ ".to_vec()));
    assert_eq!(step.pieces.len(), 1);
    assert_eq!(step.pieces[0].text, "a");
    let step = run_pty_io(&mut shell, &mut io, PtyEvent::Idle);
    assert_eq!(step.pieces[0].raw, "$ ");
    assert!(run_pty_io(&mut shell, &mut io, PtyEvent::Idle).pieces.is_empty());
}

#[test]
fn terminal_output_ends() {
    for event in [PtyEvent::Read(Vec::new()), PtyEvent::Failed] {
        let mut shell = open(Shell::new("sh").enable_pty().line_callback());
        let mut io = PtyIo::new(&shell);
        run_pty_io(&mut shell, &mut io, PtyEvent::Read(b"half\xc3".to_vec()));
        let step = run_pty_io(&mut shell, &mut io, event);
        assert!(step.done);
        assert_eq!(step.pieces[0].raw, "half\u{fffd}");
        assert_eq!(shell.output_snapshot().unwrap(), "half");
    }
}

#[test]
fn terminal_input() {
    let mut shell = open(Shell::new("sh").enable_pty());
    let mut io = PtyIo::new(&shell);
    let data = PtyEvent::Message(Some(StdinMsg::Data("ls\n".to_string())));
    let step = run_pty_io(&mut shell, &mut io, data);
    assert!(matches!(step.action, PtyAction::Write(s) if s == "ls\n"));
    let step = run_pty_io(&mut shell, &mut io, PtyEvent::Message(Some(StdinMsg::Eof)));
    assert!(!step.done);
    assert!(matches!(step.action, PtyAction::TryWrite(s) if s == "\u{4}"));
    let size = PtyEvent::Message(Some(StdinMsg::Resize(100, 30)));
    let step = run_pty_io(&mut shell, &mut io, size);
    assert!(matches!(step.action, PtyAction::Resize(100, 30)));
    assert_eq!(shell.screen_clone().unwrap().size(), (30, 100));
    assert!(run_pty_io(&mut shell, &mut io, PtyEvent::Message(Some(StdinMsg::Close))).done);
    assert!(run_pty_io(&mut shell, &mut io, PtyEvent::Message(None)).done);
}

#[test]
fn late_output_of_an_earlier_run_is_not_shown() {
    let mut shell = open(Shell::new("sh").enable_pty());
    let mut early = PtyIo::new(&shell);
    run_pty_io(&mut shell, &mut early, PtyEvent::Read(b"early".to_vec()));
    shell.reset().unwrap();
    let _ = shell.exit_done(ExitOutcome::Left);
    shell.relaunch_done();
    let mut late = PtyIo::new(&shell);
    let step = run_pty_io(&mut shell, &mut early, PtyEvent::Read(b"late".to_vec()));
    assert_eq!(step.pieces[0].raw, "late");
    assert_eq!(shell.output_snapshot().unwrap(), "");
    run_pty_io(&mut shell, &mut late, PtyEvent::Read(b"now".to_vec()));
    assert_eq!(shell.output_snapshot().unwrap(), "now");
}

#[test]
fn nothing_is_written_behind_the_end_of_the_input() {
    let mut input = StdinWriter::new();
    let data = || Some(StdinMsg::Data("x".to_string()));
    assert!(matches!(input.handle(data()), StdinAction::Write(s) if s == "x"));
    assert!(input.written(true));
    assert!(matches!(input.handle(Some(StdinMsg::Resize(1, 1))), StdinAction::Nothing));
    assert!(matches!(input.handle(Some(StdinMsg::Eof)), StdinAction::CloseInput));
    assert!(matches!(input.handle(Some(StdinMsg::Eof)), StdinAction::Nothing));
    assert!(matches!(input.handle(data()), StdinAction::Nothing));
    assert!(matches!(input.handle(Some(StdinMsg::Close)), StdinAction::Stop));
    assert!(matches!(input.handle(None), StdinAction::Stop));
}

#[test]
fn failed_write_is_the_last() {
    let mut input = StdinWriter::new();
    assert!(!input.written(false));
    let data = Some(StdinMsg::Data("x".to_string()));
    assert!(matches!(input.handle(data), StdinAction::Nothing));
}

#[test]
fn end_of_a_process_is_reported() {
    let hub = CallbackHub::new(CallbackSet {
        on_exit: true,
        on_close: true,
        ..CallbackSet::default()
    });
    let step = run_supervisor(&hub, ChildEvent::Signal(Some(PtySignal::Interrupt)));
    assert!(!step.done && !step.kill);
    assert_eq!(step.signal, Some(PtySignal::Interrupt));
    let step = run_supervisor(&hub, ChildEvent::Signal(None));
    assert!(!step.done && step.signal.is_none());
    let step = run_supervisor(&hub, ChildEvent::Exited(Some(7)));
    assert!(step.done && !step.kill);
    assert!(matches!(step.call, Some(CallbackCall::Exit(Some(7)))));
    let step = run_supervisor(&hub, ChildEvent::Released);
    assert!(step.done && step.kill && step.call.is_none());
    assert!(matches!(supervised(&hub), Some(CallbackCall::Close)));
}

#[test]
fn unregistered_callbacks_are_not_called() {
    let hub = CallbackHub::new(CallbackSet::default());
    assert!(run_supervisor(&hub, ChildEvent::Exited(None)).call.is_none());
    assert!(supervised(&hub).is_none());
    assert!(hub.fire_output("x".to_string(), false).is_none());
}
