//! The two directions of a session in a terminal.

use vstd::prelude::*;

use crate::decode;
use crate::screen;
use crate::shell::callbacks;
use crate::shell::callbacks::{CallbackCall, CallbackMode};
use crate::shell::session;
use crate::shell::session::{Recorded, Shell};
use crate::shell::stream;
use crate::shell::stream::{Emission, OutputPump, StdinMsg};

verus! {

broadcast use vstd::string::group_string_axioms;

/// What happens on the terminal's side of a session.
#[derive(Debug)]
pub enum PtyEvent {
    /// A read brought these bytes; none at the end of the output.
    Read(Vec<u8>),
    /// A read failed.
    Failed,
    /// A message came; none comes any more when all senders are gone.
    Message(Option<StdinMsg>),
    /// Nothing came for a while.
    Idle,
}

/// What is to be done with the terminal.
#[derive(Debug)]
pub enum PtyAction {
    /// Nothing.
    Nothing,
    /// Write this text; if that fails, stop.
    Write(String),
    /// Write this text, and go on also if that fails.
    TryWrite(String),
    /// Set its size: columns, rows.
    Resize(u16, u16),
}

/// One step of the terminal's side.
#[derive(Debug)]
pub struct PtyStep {
    /// Pieces of output to deliver, in order.
    pub pieces: Vec<Emission>,
    /// What to do then.
    pub action: PtyAction,
    /// Whether to stop.
    pub done: bool,
}

/// What the terminal's side of a session keeps: the output that is not yet given
/// out, of one run of the process.
pub struct PtyIo {
    pump: OutputPump,
    session: u64,
}

impl PtyIo {
    /// The run of the process.
    pub closed spec fn session(&self) -> u64 {
        self.session
    }

    /// Bytes that are not yet characters.
    pub closed spec fn pending(&self) -> Seq<u8> {
        self.pump.pending()
    }

    /// The unfinished line.
    pub closed spec fn carried(&self) -> Seq<char> {
        self.pump.carried()
    }

    /// How the output is cut.
    pub closed spec fn cut(&self) -> CallbackMode {
        self.pump.cut()
    }

    /// Everything that was decoded has been dispatched, and the output is not over.
    pub closed spec fn wf(&self) -> bool {
        &&& self.pump.fresh() == Seq::<char>::empty()
        &&& !self.pump.ended()
    }

    /// Nothing of this changes by anything but output.
    pub open spec fn same_as(&self, other: &PtyIo) -> bool {
        &&& self.wf()
        &&& self.session() == other.session()
        &&& self.pending() == other.pending()
        &&& self.carried() == other.carried()
        &&& self.cut() == other.cut()
    }

    /// The terminal's side of a process that has just been started for `shell`.
    pub fn new(shell: &Shell) -> (r: PtyIo)
        ensures
            r.wf(),
            r.session() == shell@.session,
            r.cut() == shell@.callbacks.mode,
            r.pending() == Seq::<u8>::empty(),
            r.carried() == Seq::<char>::empty(),
    {
        PtyIo { pump: OutputPump::new(shell.mode()), session: shell.session() }
    }
}

/// One step of the terminal's side of `shell`. Output is shown on the screen before
/// it is given out; at its end, also by a failed read, all that is left is. A message
/// to stop leaves what is unfinished behind.
pub fn run_pty_io(shell: &mut Shell, io: &mut PtyIo, event: PtyEvent) -> (r: PtyStep)
    requires
        old(shell).wf(),
        old(io).wf(),
        event matches PtyEvent::Message(Some(StdinMsg::Resize(cols, rows))) ==> (
        session::tracks_screen(old(shell)@) ==> cols > 0 && rows > 0),
    ensures
        final(shell).wf(),
        final(io).session() == old(io).session(),
        match event {
            PtyEvent::Read(bytes) if bytes@.len() > 0 => {
                let all = old(io).pending() + bytes@;
                let text = decode::settled(all);
                let out = stream::dispatched(old(io).cut(), text, old(io).carried());
                &&& !r.done
                &&& r.action is Nothing
                &&& stream::views(r.pieces@) == out.0
                &&& final(io).wf()
                &&& final(io).carried() == out.1
                &&& final(io).pending() == decode::unsettled(all)
                &&& final(io).cut() == old(io).cut()
                &&& final(shell)@ == session::shown(old(shell)@, old(io).session(), text)
            },
            PtyEvent::Read(_) | PtyEvent::Failed => {
                let text = decode::tail(old(io).pending());
                &&& r.done
                &&& r.action is Nothing
                &&& stream::views(r.pieces@) == stream::finished(
                    old(io).cut(),
                    text,
                    old(io).carried(),
                )
                &&& final(shell)@ == session::shown(old(shell)@, old(io).session(), text)
            },
            PtyEvent::Message(msg) => {
                &&& final(io).same_as(old(io))
                &&& r.pieces@.len() == 0
                &&& match msg {
                    None | Some(StdinMsg::Close) => {
                        &&& r.done
                        &&& r.action is Nothing
                        &&& final(shell)@ == old(shell)@
                    },
                    Some(StdinMsg::Eof) => {
                        &&& !r.done
                        &&& r.action matches PtyAction::TryWrite(s) && s@ == seq!['\u{4}']
                        &&& final(shell)@ == old(shell)@
                    },
                    Some(StdinMsg::Data(s)) => {
                        &&& !r.done
                        &&& r.action == PtyAction::Write(s)
                        &&& final(shell)@ == old(shell)@
                    },
                    Some(StdinMsg::Resize(cols, rows)) => {
                        &&& !r.done
                        &&& r.action == PtyAction::Resize(cols, rows)
                        &&& final(shell)@ == session::screen_resized(
                            old(shell)@,
                            old(io).session(),
                            cols,
                            rows,
                        )
                    },
                }
            },
            PtyEvent::Idle => {
                &&& !r.done
                &&& r.action is Nothing
                &&& final(shell)@ == old(shell)@
                &&& match old(io).cut() {
                    CallbackMode::Line => {
                        &&& stream::views(r.pieces@) == stream::emitted(old(io).carried())
                        &&& final(io).wf()
                        &&& final(io).carried() == Seq::<char>::empty()
                        &&& final(io).pending() == old(io).pending()
                        &&& final(io).cut() == old(io).cut()
                    },
                    CallbackMode::Raw => r.pieces@.len() == 0 && final(io).same_as(old(io)),
                }
            },
        },
{
    match event {
        PtyEvent::Read(bytes) => {
            if bytes.len() == 0 {
                finish(shell, io)
            } else {
                let text: &str = io.pump.decode(bytes.as_slice());
                proof {
                    assert(Seq::<char>::empty() + decode::settled(old(io).pending() + bytes@)
                        == decode::settled(old(io).pending() + bytes@));
                }
                shell.show(io.session, text);
                let pieces: Vec<Emission> = io.pump.dispatch();
                PtyStep { pieces, action: PtyAction::Nothing, done: false }
            }
        },
        PtyEvent::Failed => finish(shell, io),
        PtyEvent::Message(msg) => match msg {
            None => PtyStep { pieces: Vec::new(), action: PtyAction::Nothing, done: true },
            Some(StdinMsg::Close) => PtyStep {
                pieces: Vec::new(),
                action: PtyAction::Nothing,
                done: true,
            },
            Some(StdinMsg::Eof) => {
                let mut end: String = String::new();
                end.push('\u{4}');
                assert(end@ == seq!['\u{4}']);
                PtyStep { pieces: Vec::new(), action: PtyAction::TryWrite(end), done: false }
            },
            Some(StdinMsg::Data(s)) => PtyStep {
                pieces: Vec::new(),
                action: PtyAction::Write(s),
                done: false,
            },
            Some(StdinMsg::Resize(cols, rows)) => {
                shell.set_screen_size(io.session, cols, rows);
                PtyStep { pieces: Vec::new(), action: PtyAction::Resize(cols, rows), done: false }
            },
        },
        PtyEvent::Idle => {
            let pieces: Vec<Emission> = io.pump.flush_idle();
            PtyStep { pieces, action: PtyAction::Nothing, done: false }
        },
    }
}

/// The last step: all that is left is shown and given out.
fn finish(shell: &mut Shell, io: &mut PtyIo) -> (r: PtyStep)
    requires
        old(shell).wf(),
        old(io).wf(),
    ensures
        final(shell).wf(),
        final(io).session() == old(io).session(),
        r.done,
        r.action is Nothing,
        stream::views(r.pieces@) == stream::finished(
            old(io).cut(),
            decode::tail(old(io).pending()),
            old(io).carried(),
        ),
        final(shell)@ == session::shown(
            old(shell)@,
            old(io).session(),
            decode::tail(old(io).pending()),
        ),
{
    let text: &str = io.pump.decode_eof();
    proof {
        assert(Seq::<char>::empty() + decode::tail(old(io).pending()) == decode::tail(
            old(io).pending(),
        ));
    }
    shell.show(io.session, text);
    let pieces: Vec<Emission> = io.pump.finish();
    PtyStep { pieces, action: PtyAction::Nothing, done: true }
}

/// Takes in a piece of what a terminal shows. Its two output streams are one, so
/// that the callback for errors is never called.
pub fn record(shell: &mut Shell, piece: Emission) -> (r: Recorded)
    requires
        old(shell).wf(),
    ensures
        final(shell).wf(),
        final(shell)@ == session::recorded(old(shell)@, piece.raw@, false),
        r.news == (piece.raw@.len() > 0 && old(shell)@.output is Some),
        r.call == callbacks::output_call(old(shell)@.callbacks, false, piece.text),
        !(r.call matches Some(CallbackCall::Error(_))),
{
    shell.record(piece, false)
}

/// What a screen with the past `log` has gone through after `reads`.
pub open spec fn screen_after(log: Seq<screen::ScreenEvent>, scrollback: usize, reads: Seq<Seq<u8>>) -> Seq<
    screen::ScreenEvent,
>
    decreases reads.len(),
{
    if reads.len() == 0 {
        log
    } else {
        let before = reads.drop_last();
        screen::shown(
            screen_after(log, scrollback, before),
            scrollback,
            decode::settled(decode::unsettled(decode::all_bytes(before)) + reads.last()),
        )
    }
}

/// A screen of ordinary size is shown the text of all bytes that were read, in
/// order, in whatever reads they came.
pub proof fn screen_gets_the_decoded_stream(
    rows: u16,
    cols: u16,
    scrollback: usize,
    reads: Seq<Seq<u8>>,
)
    requires
        screen::usable_size(rows, cols),
    ensures
        ({
            let log = screen_after(
                seq![screen::ScreenEvent::Started(rows, cols, scrollback)],
                scrollback,
                reads,
            );
            &&& screen::shape(log).rows == rows
            &&& screen::shape(log).cols == cols
            &&& screen::ordinary(screen::shape(log))
            &&& screen::screen_text(log) == decode::settled(decode::all_bytes(reads))
        }),
    decreases reads.len(),
{
    let start = seq![screen::ScreenEvent::Started(rows, cols, scrollback)];
    if reads.len() == 0 {
        assert(start.drop_last() == Seq::<screen::ScreenEvent>::empty());
        assert(screen::screen_text(start.drop_last()) == Seq::<char>::empty());
    } else {
        let before = reads.drop_last();
        screen_gets_the_decoded_stream(rows, cols, scrollback, before);
        decode::decoding_is_incremental(decode::all_bytes(before), reads.last());
        let log = screen_after(start, scrollback, before);
        let text = decode::settled(decode::unsettled(decode::all_bytes(before)) + reads.last());
        screen::ordinary_screens_take_all_text(log, scrollback, text);
    }
}

/// Plain output that fits into the first line of a screen is on the screen, in
/// whatever reads it came.
pub proof fn plain_output_is_on_the_screen(
    rows: u16,
    cols: u16,
    scrollback: usize,
    reads: Seq<Seq<u8>>,
)
    requires
        screen::usable_size(rows, cols),
        screen::is_plain(decode::settled(decode::all_bytes(reads))),
        decode::settled(decode::all_bytes(reads)).len() <= cols,
    ensures
        screen::line_of(
            screen_after(
                seq![screen::ScreenEvent::Started(rows, cols, scrollback)],
                scrollback,
                reads,
            ),
        ) == Some(decode::settled(decode::all_bytes(reads))),
    decreases reads.len(),
{
    let start = seq![screen::ScreenEvent::Started(rows, cols, scrollback)];
    if reads.len() > 0 {
        let before = reads.drop_last();
        let line = decode::settled(decode::all_bytes(before));
        let text = decode::settled(decode::unsettled(decode::all_bytes(before)) + reads.last());
        decode::decoding_is_incremental(decode::all_bytes(before), reads.last());
        let all = line + text;
        assert(all == decode::settled(decode::all_bytes(reads)));
        assert forall|i: int| 0 <= i < line.len() implies ' ' <= #[trigger] line[i] <= '~' by {
            assert(line[i] == all[i]);
        }
        assert forall|i: int| 0 <= i < text.len() implies ' ' <= #[trigger] text[i] <= '~' by {
            assert(text[i] == all[line.len() + i]);
        }
        plain_output_is_on_the_screen(rows, cols, scrollback, before);
        screen_gets_the_decoded_stream(rows, cols, scrollback, before);
        let log = screen_after(start, scrollback, before);
        screen::ordinary_screens_take_all_text(log, scrollback, text);
        screen::plain_text_joins_the_line(log, scrollback, text);
    }
}

/// What the session `m` has become once the reads of its run were shown on its screen,
/// one after the other, each with the bytes that the reads before it left incomplete.
pub open spec fn session_after(m: session::ShellModel, reads: Seq<Seq<u8>>) -> session::ShellModel
    decreases reads.len(),
{
    if reads.len() == 0 {
        m
    } else {
        let before = reads.drop_last();
        session::shown(
            session_after(m, before),
            m.session,
            decode::settled(decode::unsettled(before.flatten()) + reads.last()),
        )
    }
}

/// All that a terminal session writes is shown on its screen, in order, whatever is in
/// it, line ends and codes too, and in whatever reads it came. A screen of ordinary
/// size has gone through one text more for each read, and these texts are the
/// characters of all bytes; the session stays as it is but for its screen. The result
/// is those texts.
pub proof fn session_shows_all_its_output(m: session::ShellModel, reads: Seq<Seq<u8>>) -> (texts: Seq<
    Seq<char>,
>)
    requires
        m.pty is Some,
        m.pty->0.screen is Some,
        screen::ordinary(screen::shape(m.pty->0.screen->0)),
    ensures
        texts.len() == reads.len(),
        texts.flatten() == decode::settled(reads.flatten()),
        ({
            let r = session_after(m, reads);
            &&& r.pty matches Some(pty)
            &&& pty.screen == Some(
                m.pty->0.screen->0 + texts.map_values(
                    |t: Seq<char>| screen::ScreenEvent::Text(t),
                ),
            )
            &&& pty.options == m.pty->0.options
            &&& r == (session::ShellModel { pty: r.pty, ..m })
            &&& screen::ordinary(screen::shape(pty.screen->0))
        }),
    decreases reads.len(),
{
    let log = m.pty->0.screen->0;
    if reads.len() == 0 {
        let texts = Seq::<Seq<char>>::empty();
        assert(log + texts.map_values(|t: Seq<char>| screen::ScreenEvent::Text(t)) == log);
        texts
    } else {
        let before = reads.drop_last();
        let earlier = session_shows_all_its_output(m, before);
        let now = session_after(m, before);
        let text = decode::settled(decode::unsettled(before.flatten()) + reads.last());
        decode::decoding_is_incremental(before.flatten(), reads.last());
        before.lemma_flatten_push(reads.last());
        assert(before.push(reads.last()) == reads);
        earlier.lemma_flatten_push(text);
        session::output_is_shown_on_the_screen(now, text);
        screen::ordinary_screens_take_all_text(
            now.pty->0.screen->0,
            now.pty->0.options.scrollback,
            text,
        );
        let texts = earlier.push(text);
        let shown_before = earlier.map_values(|t: Seq<char>| screen::ScreenEvent::Text(t));
        let shown_now = texts.map_values(|t: Seq<char>| screen::ScreenEvent::Text(t));
        assert(shown_now == shown_before.push(screen::ScreenEvent::Text(text)));
        assert(log + shown_now == (log + shown_before).push(screen::ScreenEvent::Text(text)));
        texts
    }
}

/// At the end of its output a terminal session has shown the text of all bytes, also of
/// those that were left incomplete.
pub proof fn session_shows_the_end_of_its_output(
    m: session::ShellModel,
    reads: Seq<Seq<u8>>,
) -> (texts: Seq<Seq<char>>)
    requires
        m.pty is Some,
        m.pty->0.screen is Some,
        screen::ordinary(screen::shape(m.pty->0.screen->0)),
    ensures
        texts.flatten() == decode::decoded(reads.flatten()),
        ({
            let r = session::shown(
                session_after(m, reads),
                m.session,
                decode::tail(decode::unsettled(reads.flatten())),
            );
            &&& r.pty matches Some(pty)
            &&& pty.screen == Some(
                m.pty->0.screen->0 + texts.map_values(
                    |t: Seq<char>| screen::ScreenEvent::Text(t),
                ),
            )
        }),
{
    let log = m.pty->0.screen->0;
    let earlier = session_shows_all_its_output(m, reads);
    let now = session_after(m, reads);
    let text = decode::tail(decode::unsettled(reads.flatten()));
    earlier.lemma_flatten_push(text);
    session::output_is_shown_on_the_screen(now, text);
    let texts = earlier.push(text);
    let shown_before = earlier.map_values(|t: Seq<char>| screen::ScreenEvent::Text(t));
    let shown_now = texts.map_values(|t: Seq<char>| screen::ScreenEvent::Text(t));
    assert(shown_now == shown_before.push(screen::ScreenEvent::Text(text)));
    assert(log + shown_now == (log + shown_before).push(screen::ScreenEvent::Text(text)));
    texts
}

/// What a session shows of its reads is what its screen is shown of them.
proof fn lemma_session_screen(m: session::ShellModel, reads: Seq<Seq<u8>>)
    requires
        m.pty is Some,
        m.pty->0.screen is Some,
    ensures
        ({
            let r = session_after(m, reads);
            &&& r.pty matches Some(pty)
            &&& pty.options == m.pty->0.options
            &&& pty.screen == Some(
                screen_after(m.pty->0.screen->0, m.pty->0.options.scrollback, reads),
            )
            &&& r.session == m.session
        }),
    decreases reads.len(),
{
    if reads.len() > 0 {
        lemma_session_screen(m, reads.drop_last());
        decode::reads_are_joined_in_order(reads.drop_last());
        let text = decode::settled(
            decode::unsettled(reads.drop_last().flatten()) + reads.last(),
        );
        session::showing_changes_the_screen_only(
            session_after(m, reads.drop_last()),
            m.session,
            text,
        );
    }
}

/// A snapshot of a terminal that has just been started shows plain output as it is: if
/// all that was read is visible characters and spaces, no more than fit into a line,
/// the line on the screen is the text of the bytes, in whatever reads they came.
pub proof fn a_snapshot_shows_plain_output(m: session::ShellModel, reads: Seq<Seq<u8>>)
    requires
        m.pty is Some,
        m.pty->0.screen == Some(
            seq![
                screen::ScreenEvent::Started(
                    m.pty->0.options.rows,
                    m.pty->0.options.cols,
                    m.pty->0.options.scrollback,
                ),
            ],
        ),
        m.pty->0.options.rows >= 2,
        3 <= m.pty->0.options.cols <= 65527,
        decode::settled(reads.flatten()).len() <= m.pty->0.options.cols,
        forall|i: int|
            0 <= i < decode::settled(reads.flatten()).len() ==> ' ' <= #[trigger] decode::settled(
                reads.flatten(),
            )[i] <= '~',
    ensures
        ({
            let r = session_after(m, reads);
            &&& r.pty matches Some(pty)
            &&& pty.screen matches Some(log)
            &&& screen::line_of(log) == Some(decode::settled(reads.flatten()))
        }),
{
    let options = m.pty->0.options;
    lemma_session_screen(m, reads);
    decode::reads_are_joined_in_order(reads);
    plain_output_is_on_the_screen(options.rows, options.cols, options.scrollback, reads);
}

/// A message leaves the output of a terminal alone: what waits to become a character or
/// a line still waits.
pub proof fn nothing_that_waits_is_lost(before: PtyIo, after: PtyIo)
    requires
        after.same_as(&before),
    ensures
        after.wf(),
        after.session() == before.session(),
        after.pending() == before.pending(),
        after.carried() == before.carried(),
        after.cut() == before.cut(),
{
}

} // verus!
