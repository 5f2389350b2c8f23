//! A live session: which requests it accepts in which state, what they change and
//! what the caller is to do for them.

use vstd::prelude::*;

use crate::decode;
use crate::error::{PtyRequest, Request, ShellError};
use crate::screen;
use crate::shell::backend;
use crate::shell::backend::{LaunchConfig, LaunchPlan, PtyModel, PtyOptions, PtyState};
use crate::shell::buffer;
use crate::shell::buffer::{BufferModel, OutputBuffer};
use crate::shell::builder;
use crate::shell::builder::ShellBuilder;
use crate::shell::callbacks;
use crate::shell::callbacks::{
    CallbackCall, CallbackHub, CallbackMode, CallbackSet, PreSend, PreSendHook,
};
use crate::shell::control;
use crate::shell::control::SendStep;
use crate::shell::profile;
use crate::shell::profile::ShellProfile;
use crate::shell::search;
use crate::shell::search::{OutputSearch, SearchEvent, SearchModel, ShellOutput};
use crate::shell::stream;
use crate::shell::stream::{Emission, StdinMsg};
use crate::text;
use crate::util;

verus! {

broadcast use vstd::string::group_string_axioms;

/// Where a session is between its start and its end.
#[derive(Debug, Clone, Copy, PartialEq, Eq, Structural)]
pub enum Lifecycle {
    /// Its process runs.
    Open,
    /// Its process was asked to leave; it can be started again.
    Exited,
    /// It is over for good.
    Closed,
}

/// What a session is at a moment.
pub struct ShellModel {
    pub path: Seq<char>,
    pub lifecycle: Lifecycle,
    /// Whether commands pass through a filter before they are sent.
    pub filtered: bool,
    pub callbacks: CallbackSet,
    pub output: Option<BufferModel>,
    pub error: Option<BufferModel>,
    pub pty: Option<PtyModel>,
    /// Whether nobody has waited for its process yet.
    pub joinable: bool,
    /// How often it has been started again.
    pub session: u64,
}

/// The model of a buffer.
pub open spec fn buffer_model(b: Option<OutputBuffer>) -> Option<BufferModel> {
    match b {
        Some(b) => Some(b.model()),
        None => None,
    }
}

/// Whether a buffer, if there is one, is in order.
pub open spec fn buffer_wf(b: Option<OutputBuffer>) -> bool {
    b matches Some(b) ==> b.wf()
}

/// A live session.
pub struct Shell {
    pub shell_path: String,
    lifecycle: Lifecycle,
    pre_send: PreSendHook,
    callbacks: CallbackHub,
    output_buffer: Option<OutputBuffer>,
    error_buffer: Option<OutputBuffer>,
    pty: Option<PtyState>,
    joinable: bool,
    session: u64,
}

impl View for Shell {
    type V = ShellModel;

    closed spec fn view(&self) -> ShellModel {
        ShellModel {
            path: self.shell_path@,
            lifecycle: self.lifecycle,
            filtered: self.pre_send@,
            callbacks: self.callbacks@,
            output: buffer_model(self.output_buffer),
            error: buffer_model(self.error_buffer),
            pty: match self.pty {
                Some(state) => Some(state@),
                None => None,
            },
            joinable: self.joinable,
            session: self.session,
        }
    }
}

impl Shell {
    /// The buffers and the terminal are in order, and a terminal session, whose
    /// two output streams are one, has no buffer for errors.
    pub closed spec fn wf(&self) -> bool {
        &&& buffer_wf(self.output_buffer)
        &&& buffer_wf(self.error_buffer)
        &&& self.pty matches Some(state) ==> state.wf()
        &&& self.pty is Some ==> self.error_buffer is None
    }

    /// Begins the configuration of a session with the shell at the path `shell`.
    pub fn new(shell: &str) -> (r: ShellBuilder)
        ensures
            r@ == builder::initial(shell@),
    {
        ShellBuilder::new(shell)
    }

    /// A session with the plan to start its process.
    pub fn spawn_new(config: LaunchConfig, pre_send: PreSendHook) -> (r: Result<
        (Shell, LaunchPlan),
        ShellError,
    >)
        requires
            config.wf(),
            config.startable(),
        ensures
            r is Ok <==> backend::launchable(config.shell_path@, config.pty_opts is Some),
            r matches Err(e) ==> backend::refused(config.shell_path@, config.pty_opts is Some, e),
            r matches Ok((shell, plan)) ==> {
                &&& shell.wf()
                &&& shell@ == (ShellModel {
                    path: config.shell_path@,
                    lifecycle: Lifecycle::Open,
                    filtered: pre_send@,
                    callbacks: config.callbacks@,
                    output: buffer_model(config.output_buffer),
                    error: buffer_model(config.error_buffer),
                    pty: match config.pty_opts {
                        Some(options) => Some(backend::started(options)),
                        None => None,
                    },
                    joinable: true,
                    session: 0,
                })
                &&& backend::planned(
                    plan,
                    config.shell_path@,
                    config.callbacks@.mode,
                    config.pty_opts,
                )
            },
    {
        let plan: LaunchPlan = match backend::launch(
            config.shell_path.as_str(),
            &config.callbacks,
            config.pty_opts,
        ) {
            Ok(plan) => plan,
            Err(e) => {
                return Err(e);
            },
        };
        let pty: Option<PtyState> = match config.pty_opts {
            Some(options) => Some(PtyState::new(options)),
            None => None,
        };
        let shell = Shell {
            shell_path: config.shell_path,
            lifecycle: Lifecycle::Open,
            pre_send,
            callbacks: config.callbacks,
            output_buffer: config.output_buffer,
            error_buffer: config.error_buffer,
            pty,
            joinable: true,
            session: 0,
        };
        Ok((shell, plan))
    }
}

/// A buffer, if there is one, behind which `chunk` was put.
pub open spec fn put(b: Option<BufferModel>, chunk: Seq<char>) -> Option<BufferModel> {
    match b {
        Some(b) => Some(buffer::pushed(b, chunk)),
        None => None,
    }
}

/// The text in a buffer.
pub open spec fn held(b: Option<BufferModel>) -> Seq<char> {
    match b {
        Some(b) => buffer::flat(b.chunks),
        None => Seq::empty(),
    }
}

/// A buffer out of which the text was taken.
pub open spec fn emptied(b: Option<BufferModel>) -> Option<BufferModel> {
    match b {
        Some(b) => Some(buffer::emptied(b)),
        None => None,
    }
}

/// Whether the session buffers its output.
pub open spec fn buffers(m: ShellModel) -> bool {
    m.output is Some || m.error is Some
}

/// The session after `raw` of one of its two output streams went into its buffer.
pub open spec fn recorded(m: ShellModel, raw: Seq<char>, is_stderr: bool) -> ShellModel {
    if is_stderr {
        ShellModel { error: put(m.error, raw), ..m }
    } else {
        ShellModel { output: put(m.output, raw), ..m }
    }
}

/// The session after the text was taken out of its buffers.
pub open spec fn drained(m: ShellModel) -> ShellModel {
    ShellModel { output: emptied(m.output), error: emptied(m.error), ..m }
}

/// What a piece of output brings about.
#[derive(Debug)]
pub struct Recorded {
    /// Whether a reader of the buffer is to be woken.
    pub news: bool,
    /// The callback to call.
    pub call: Option<CallbackCall>,
}

/// What a wait for idle output is woken by.
#[derive(Debug, Clone, Copy, PartialEq, Eq, Structural)]
pub enum WaitEvent {
    /// It begins.
    Begin,
    /// Output came.
    Output,
    /// The session was closed.
    Closed,
    /// Nothing came for the time given.
    TimedOut,
}

/// The search after the text in the buffers of `m` was added to it.
pub open spec fn absorbed(s: SearchModel, m: ShellModel) -> SearchModel {
    SearchModel {
        pattern: s.pattern,
        stdout: s.stdout + held(m.output),
        stderr: s.stderr + held(m.error),
    }
}

/// How long the output has to be idle, in milliseconds, where nothing is given.
pub const DEFAULT_IDLE_MS: u64 = 200;

/// How long the output has to be idle, in milliseconds.
pub fn idle_time(given: Option<u64>) -> (r: u64)
    ensures
        r == (match given {
            Some(ms) => ms,
            None => 200u64,
        }),
{
    match given {
        Some(ms) => ms,
        None => DEFAULT_IDLE_MS,
    }
}

/// Takes the text out of a buffer, if there is one.
fn take_from(b: &mut Option<OutputBuffer>) -> (r: String)
    requires
        buffer_wf(*old(b)),
    ensures
        buffer_wf(*final(b)),
        *final(b) is Some <==> *old(b) is Some,
        r@ == held(buffer_model(*old(b))),
        buffer_model(*final(b)) == emptied(buffer_model(*old(b))),
{
    match b {
        Some(b) => b.take(),
        None => String::new(),
    }
}

/// Puts text into a buffer, if there is one, and says whether that is news.
fn put_into(b: &mut Option<OutputBuffer>, chunk: String) -> (news: bool)
    requires
        buffer_wf(*old(b)),
    ensures
        buffer_wf(*final(b)),
        *final(b) is Some <==> *old(b) is Some,
        news == (*old(b) is Some && chunk@.len() > 0),
        buffer_model(*final(b)) == put(buffer_model(*old(b)), chunk@),
{
    match b {
        Some(b) => b.push(chunk),
        None => false,
    }
}

impl Shell {
    /// Whether the session has a terminal.
    pub fn is_pty(&self) -> (r: bool)
        ensures
            r == (self@.pty is Some),
    {
        self.pty.is_some()
    }

    /// Where the session is between its start and its end.
    pub fn lifecycle(&self) -> (r: Lifecycle)
        ensures
            r == self@.lifecycle,
    {
        self.lifecycle
    }

    /// The path of the shell that the session runs, now and when it is started again.
    pub fn shell_path(&self) -> (r: &str)
        ensures
            r@ == self@.path,
    {
        self.shell_path.as_str()
    }

    /// How the output of the session is cut for the callbacks.
    pub fn mode(&self) -> (r: CallbackMode)
        ensures
            r == self@.callbacks.mode,
    {
        self.callbacks.mode()
    }

    /// How often the session has been started again.
    pub fn session(&self) -> (r: u64)
        ensures
            r == self@.session,
    {
        self.session
    }

    /// The callbacks of the session.
    pub fn callbacks(&self) -> (r: CallbackHub)
        ensures
            r@ == self@.callbacks,
    {
        self.callbacks
    }

    /// Takes in a piece of one of the two output streams.
    pub fn record(&mut self, piece: Emission, is_stderr: bool) -> (r: Recorded)
        requires
            old(self).wf(),
        ensures
            final(self).wf(),
            final(self)@ == recorded(old(self)@, piece.raw@, is_stderr),
            r.news == (piece.raw@.len() > 0 && (if is_stderr {
                old(self)@.error is Some
            } else {
                old(self)@.output is Some
            })),
            r.call == callbacks::output_call(old(self)@.callbacks, is_stderr, piece.text),
    {
        let news: bool = if is_stderr {
            put_into(&mut self.error_buffer, piece.raw)
        } else {
            put_into(&mut self.output_buffer, piece.raw)
        };
        let call: Option<CallbackCall> = self.callbacks.fire_output(piece.text, is_stderr);
        Recorded { news, call }
    }

    /// Whether a wait for idle output is over. It is not, as long as output comes;
    /// without buffers there is nothing to wait for.
    pub fn wait_idle(&self, event: WaitEvent) -> (done: bool)
        ensures
            done == (!buffers(self@) || event == WaitEvent::Closed || event == WaitEvent::TimedOut),
    {
        if self.output_buffer.is_none() && self.error_buffer.is_none() {
            return true;
        }
        match event {
            WaitEvent::Begin => false,
            WaitEvent::Output => false,
            WaitEvent::Closed => true,
            WaitEvent::TimedOut => true,
        }
    }

    /// Takes out all that is buffered.
    pub fn output(&mut self) -> (r: ShellOutput)
        requires
            old(self).wf(),
        ensures
            final(self).wf(),
            final(self)@ == drained(old(self)@),
            r.stdout@ == held(old(self)@.output),
            r.stderr@ == held(old(self)@.error),
            old(self)@.output matches Some(b) ==> r.stdout@ == b.chunks.flatten(),
            old(self)@.error matches Some(b) ==> r.stderr@ == b.chunks.flatten(),
    {
        proof {
            all_that_is_buffered_is_given_out(self@, false);
            all_that_is_buffered_is_given_out(self@, true);
        }
        let stdout: String = take_from(&mut self.output_buffer);
        let stderr: String = take_from(&mut self.error_buffer);
        ShellOutput { stdout, stderr }
    }

    /// One step of a search in the output: takes out all that is buffered, and says
    /// whether the search is over. It is when the text was written, the session was
    /// closed or the deadline has passed; without buffers it never begins.
    pub fn output_until(&mut self, search: &mut OutputSearch, event: SearchEvent) -> (done: bool)
        requires
            old(self).wf(),
        ensures
            final(self).wf(),
            final(self)@ == drained(old(self)@),
            final(search)@ == absorbed(old(search)@, old(self)@),
            done == (!buffers(old(self)@) || event != SearchEvent::Output || search::found(
                final(search)@,
            )),
    {
        if self.output_buffer.is_none() && self.error_buffer.is_none() {
            proof {
                assert(search@.stdout + Seq::<char>::empty() == search@.stdout);
                assert(search@.stderr + Seq::<char>::empty() == search@.stderr);
            }
            return true;
        }
        let stdout: String = take_from(&mut self.output_buffer);
        let stderr: String = take_from(&mut self.error_buffer);
        search.absorb(stdout.as_str(), stderr.as_str());
        match event {
            SearchEvent::Output => search.is_found(),
            SearchEvent::OutputTooLate => true,
            SearchEvent::Closed => true,
            SearchEvent::TimedOut => true,
        }
    }

    /// The bytes of output dropped so far because the buffer was full.
    pub fn output_truncated_bytes(&self) -> (r: usize)
        ensures
            r == (match self@.output {
                Some(b) => b.dropped,
                None => 0usize,
            }),
    {
        match &self.output_buffer {
            Some(b) => b.truncated_bytes(),
            None => 0,
        }
    }

    /// The bytes of the error stream dropped so far because the buffer was full.
    /// A terminal session has no such stream.
    pub fn error_truncated_bytes(&self) -> (r: usize)
        requires
            self.wf(),
        ensures
            r == (match self@.error {
                Some(b) => b.dropped,
                None => 0usize,
            }),
            self@.pty is Some ==> r == 0,
    {
        match &self.error_buffer {
            Some(b) => b.truncated_bytes(),
            None => 0,
        }
    }
}

/// A signal for the process in a terminal.
#[derive(Debug, Clone, Copy, PartialEq, Eq, Structural)]
pub enum PtySignal {
    Interrupt,
    Quit,
    Terminate,
    Kill,
    Hangup,
    WindowChange,
    Stop,
    Continue,
    User1,
    User2,
}

impl Shell {
    /// The text on the screen of the terminal.
    pub fn output_snapshot(&self) -> (r: Result<String, ShellError>)
        requires
            self.wf(),
        ensures
            if self@.lifecycle != Lifecycle::Open {
                r matches Err(ShellError::Closed)
            } else {
                match self@.pty {
                    None => r matches Err(ShellError::RequiresPty(PtyRequest::Snapshot)),
                    Some(pty) => match pty.screen {
                        None => r matches Err(ShellError::ScreenTrackingDisabled),
                        Some(log) => {
                            &&& r matches Ok(s)
                            &&& s@ == screen::rendered(log)
                            &&& screen::line_of(log) matches Some(line) ==> s@ == line
                        },
                    },
                }
            },
    {
        if self.lifecycle != Lifecycle::Open {
            return Err(ShellError::Closed);
        }
        match &self.pty {
            None => Err(ShellError::RequiresPty(PtyRequest::Snapshot)),
            Some(state) => match state.vt_parser() {
                Ok(tracker) => Ok(tracker.contents()),
                Err(e) => Err(e),
            },
        }
    }

    /// A copy of the screen of the terminal, with positions and colours.
    pub fn screen_clone(&self) -> (r: Result<vt100::Screen, ShellError>)
        requires
            self.wf(),
        ensures
            if self@.lifecycle != Lifecycle::Open {
                r matches Err(ShellError::Closed)
            } else {
                match self@.pty {
                    None => r matches Err(ShellError::RequiresPty(PtyRequest::ScreenClone)),
                    Some(pty) => match pty.screen {
                        None => r matches Err(ShellError::ScreenTrackingDisabled),
                        Some(log) => r matches Ok(s) && screen::screen_log(s) == log,
                    },
                }
            },
    {
        if self.lifecycle != Lifecycle::Open {
            return Err(ShellError::Closed);
        }
        match &self.pty {
            None => Err(ShellError::RequiresPty(PtyRequest::ScreenClone)),
            Some(state) => match state.vt_parser() {
                Ok(tracker) => Ok(tracker.screen()),
                Err(e) => Err(e),
            },
        }
    }

    /// Notes another size of the terminal, and gives out the message that sets it.
    pub fn resize(&mut self, cols: u16, rows: u16) -> (r: Result<StdinMsg, ShellError>)
        requires
            old(self).wf(),
        ensures
            final(self).wf(),
            if old(self)@.lifecycle != Lifecycle::Open {
                r matches Err(ShellError::Closed) && final(self)@ == old(self)@
            } else {
                match old(self)@.pty {
                    None => {
                        &&& r matches Err(ShellError::RequiresPty(PtyRequest::Resize))
                        &&& final(self)@ == old(self)@
                    },
                    Some(pty) => {
                        &&& r == Ok::<StdinMsg, ShellError>(StdinMsg::Resize(cols, rows))
                        &&& final(self)@ == resized(old(self)@, cols, rows)
                    },
                }
            },
    {
        if self.lifecycle != Lifecycle::Open {
            return Err(ShellError::Closed);
        }
        match &mut self.pty {
            None => Err(ShellError::RequiresPty(PtyRequest::Resize)),
            Some(state) => {
                state.set_size(cols, rows);
                Ok(StdinMsg::Resize(cols, rows))
            },
        }
    }

    /// The size of the terminal as it was last set: columns, rows.
    pub fn pty_window_size(&self) -> (r: Option<(u16, u16)>)
        ensures
            r == (match self@.pty {
                Some(pty) => Some((pty.options.cols, pty.options.rows)),
                None => None,
            }),
    {
        match &self.pty {
            Some(state) => {
                let options: PtyOptions = state.options();
                Some((options.cols, options.rows))
            },
            None => None,
        }
    }

    /// The signal to hand to the process in the terminal.
    pub fn send_signal(&self, signal: PtySignal) -> (r: Result<PtySignal, ShellError>)
        ensures
            if self@.lifecycle != Lifecycle::Open {
                r matches Err(ShellError::Closed)
            } else if self@.pty is None {
                r matches Err(ShellError::RequiresPty(PtyRequest::Signal))
            } else {
                r == Ok::<PtySignal, ShellError>(signal)
            },
    {
        if self.lifecycle != Lifecycle::Open {
            return Err(ShellError::Closed);
        }
        if self.pty.is_none() {
            return Err(ShellError::RequiresPty(PtyRequest::Signal));
        }
        Ok(signal)
    }

    /// Shows output of the run `session` of the process on the screen. That of an
    /// earlier run has no screen any more.
    pub(crate) fn show(&mut self, session: u64, text: &str)
        requires
            old(self).wf(),
        ensures
            final(self).wf(),
            final(self)@ == shown(old(self)@, session, text@),
    {
        if self.session == session {
            match &mut self.pty {
                Some(state) => {
                    state.show(text);
                },
                None => {},
            }
        }
    }

    /// Gives the screen of the run `session` of the process another size.
    pub(crate) fn set_screen_size(&mut self, session: u64, cols: u16, rows: u16)
        requires
            old(self).wf(),
            tracks_screen(old(self)@) ==> cols > 0 && rows > 0,
        ensures
            final(self).wf(),
            final(self)@ == screen_resized(old(self)@, session, cols, rows),
    {
        if self.session == session {
            match &mut self.pty {
                Some(state) => {
                    state.set_screen_size(cols, rows);
                },
                None => {},
            }
        }
    }
}

/// Whether the session follows its screen.
pub open spec fn tracks_screen(m: ShellModel) -> bool {
    m.pty matches Some(pty) && pty.options.track_screen
}

/// The session after another size of its terminal was noted.
pub open spec fn resized(m: ShellModel, cols: u16, rows: u16) -> ShellModel {
    ShellModel {
        pty: match m.pty {
            Some(pty) => Some(
                PtyModel { options: PtyOptions { cols, rows, ..pty.options }, ..pty },
            ),
            None => None,
        },
        ..m
    }
}

/// The session after output of the run `session` was shown on its screen.
pub open spec fn shown(m: ShellModel, session: u64, s: Seq<char>) -> ShellModel {
    if m.session != session {
        m
    } else {
        ShellModel {
            pty: match m.pty {
                Some(pty) => Some(
                    PtyModel {
                        screen: match pty.screen {
                            Some(log) => Some(screen::shown(log, pty.options.scrollback, s)),
                            None => None,
                        },
                        ..pty
                    },
                ),
                None => None,
            },
            ..m
        }
    }
}

/// The session after the screen of the run `session` got another size.
pub open spec fn screen_resized(m: ShellModel, session: u64, cols: u16, rows: u16) -> ShellModel {
    if m.session != session {
        m
    } else {
        ShellModel {
            pty: match m.pty {
                Some(pty) => Some(
                    PtyModel {
                        screen: match pty.screen {
                            Some(log) => Some(
                                log.push(screen::ScreenEvent::Resized(rows, cols)),
                            ),
                            None => None,
                        },
                        ..pty
                    },
                ),
                None => None,
            },
            ..m
        }
    }
}

/// What a command does: a shortcut is a control character, and anything else is
/// sent as it is, by way of the filter, if there is one.
pub open spec fn command(m: ShellModel, cmd: Seq<char>) -> control::SendModel {
    match control::shortcut(cmd) {
        Some(c) => control::control(m.pty is Some, c),
        None => if m.filtered {
            control::SendModel::Ask(cmd)
        } else {
            control::SendModel::Data(cmd, Request::Command)
        },
    }
}

impl Shell {
    /// Sends a command.
    pub fn send(&self, cmd: &str) -> (r: Result<SendStep, ShellError>)
        ensures
            if self@.lifecycle != Lifecycle::Open {
                r matches Err(ShellError::Closed)
            } else {
                r matches Ok(step) && step@ == command(self@, cmd@)
            },
    {
        if self.lifecycle != Lifecycle::Open {
            return Err(ShellError::Closed);
        }
        match control::parse_control_shortcut(cmd) {
            Some(ctrl) => {
                proof {
                    control::lemma_upper_twice(text::trimmed(cmd@)[1]);
                }
                Ok(self.send_control_char(ctrl))
            },
            None => match self.pre_send.process(cmd.to_owned()) {
                PreSend::Ask(s) => Ok(SendStep::Ask(s)),
                PreSend::Forward(s) => Ok(SendStep::Data(s, Request::Command)),
            },
        }
    }

    /// Sends a command and a line end.
    pub fn send_line(&self, cmd: &str) -> (r: Result<SendStep, ShellError>)
        ensures
            if self@.lifecycle != Lifecycle::Open {
                r matches Err(ShellError::Closed)
            } else {
                r matches Ok(step) && step@ == command(self@, cmd@.push('\n'))
            },
    {
        let mut line: String = cmd.to_owned();
        line.push('\n');
        self.send(line.as_str())
    }

    /// Ends the input.
    pub fn send_eof(&self) -> (r: SendStep)
        ensures
            r == SendStep::Eof,
    {
        SendStep::Eof
    }

    /// Sends a control character.
    pub fn send_control_char(&self, ctrl: char) -> (r: SendStep)
        ensures
            r@ == control::control(self@.pty is Some, ctrl),
    {
        control::control_step(self.is_pty(), ctrl)
    }
}

/// How long a process that was asked to leave is waited for, in seconds.
pub const EXIT_TIMEOUT_SECS: u64 = 10;

/// How a session is asked to leave.
#[derive(Debug)]
pub struct ExitPlan {
    /// The command to send, before the input is closed.
    pub command: String,
    /// Whether to wait for the process then; otherwise somebody has already.
    pub join: bool,
}

/// What came of asking a session to leave.
#[derive(Debug)]
pub enum ExitOutcome {
    /// The process has left.
    Left,
    /// The task that watched it broke off, for this reason.
    Broken(String),
    /// It was waited for too long.
    TimedOut,
}

/// What is to be done when a session ends.
#[derive(Debug, Clone, Copy, PartialEq, Eq, Structural)]
pub struct CloseActions {
    /// Let go of the process, which ends it if it still runs.
    pub release: bool,
    /// Tell the input side to stop.
    pub stop_input: bool,
    /// Wake everybody who waits for the end.
    pub wake: bool,
}

/// What is to be done to wait for the end of a session.
#[derive(Debug, Clone, Copy, PartialEq, Eq, Structural)]
pub struct JoinPlan {
    /// Wait until somebody closes it.
    pub wait_closed: bool,
    /// Wait for its process.
    pub join: bool,
}

/// What is to be done to start a session again.
#[derive(Debug)]
pub enum ResetStep {
    /// Ask it to leave first.
    Exit(ExitPlan),
    /// Start it.
    Launch,
}

/// The session once somebody has begun to wait for its process.
pub open spec fn joined(m: ShellModel) -> ShellModel {
    ShellModel { joinable: false, ..m }
}

/// The session once its process was asked to leave and was waited for.
pub open spec fn exited(m: ShellModel) -> ShellModel {
    if m.lifecycle == Lifecycle::Open {
        ShellModel { lifecycle: Lifecycle::Exited, ..m }
    } else {
        m
    }
}

/// The session once it is over for good.
pub open spec fn closed(m: ShellModel) -> ShellModel {
    ShellModel { lifecycle: Lifecycle::Closed, ..m }
}

/// The session once its process was started again: its terminal is a new one of
/// the same size and choices.
pub open spec fn relaunched(m: ShellModel) -> ShellModel {
    ShellModel {
        lifecycle: Lifecycle::Open,
        pty: match m.pty {
            Some(pty) => Some(backend::started(pty.options)),
            None => None,
        },
        joinable: true,
        session: m.session.wrapping_add(1),
        ..m
    }
}

/// The result of waiting for a process, by the reason for which the task that
/// watched it broke off, if it did.
pub fn join_result(broken: Option<String>) -> (r: Result<(), ShellError>)
    ensures
        r == (match broken {
            Some(reason) => Err(ShellError::JoinFailed(reason)),
            None => Ok(()),
        }),
{
    match broken {
        Some(reason) => Err(ShellError::JoinFailed(reason)),
        None => Ok(()),
    }
}

impl Shell {
    /// Waits until the session is closed, and for its process.
    pub fn join_close(&mut self) -> (r: JoinPlan)
        requires
            old(self).wf(),
        ensures
            final(self).wf(),
            final(self)@ == joined(old(self)@),
            r.wait_closed == (old(self)@.lifecycle == Lifecycle::Open),
            r.join == old(self)@.joinable,
    {
        let join: bool = self.joinable;
        self.joinable = false;
        JoinPlan { wait_closed: self.lifecycle == Lifecycle::Open, join }
    }

    /// Whether its process is to be waited for; otherwise somebody has already.
    pub fn join_exit(&mut self) -> (join: bool)
        requires
            old(self).wf(),
        ensures
            final(self).wf(),
            final(self)@ == joined(old(self)@),
            join == old(self)@.joinable,
    {
        let join: bool = self.joinable;
        self.joinable = false;
        join
    }

    /// Asks the session to leave. What comes of it goes to `exit_done`.
    pub fn exit(&mut self) -> (r: Result<ExitPlan, ShellError>)
        requires
            old(self).wf(),
        ensures
            final(self).wf(),
            if old(self)@.lifecycle != Lifecycle::Open {
                r matches Err(ShellError::Closed) && final(self)@ == old(self)@
            } else {
                &&& r matches Ok(plan)
                &&& plan.command@ == profile::exit_of(util::shell_name(old(self)@.path))
                &&& plan.join == old(self)@.joinable
                &&& final(self)@ == joined(old(self)@)
            },
    {
        if self.lifecycle != Lifecycle::Open {
            return Err(ShellError::Closed);
        }
        let command: String = match ShellProfile::detect(self.shell_path.as_str()) {
            Ok(shell) => shell.exit_command(),
            Err(e) => {
                proof {
                    reveal_strlit("python");
                    reveal_strlit("node");
                    assert("python"@.len() == 6);
                    assert("node"@.len() == 4);
                }
                "exit\n".to_owned()
            },
        };
        let join: bool = self.join_exit();
        Ok(ExitPlan { command, join })
    }

    /// Ends the session after it was asked to leave. It can be started again, also
    /// where its process had to be ended.
    pub fn exit_done(&mut self, outcome: ExitOutcome) -> (r: (CloseActions, Result<(), ShellError>))
        requires
            old(self).wf(),
        ensures
            final(self).wf(),
            final(self)@ == exited(old(self)@),
            r.0 == (CloseActions {
                release: old(self)@.lifecycle == Lifecycle::Open,
                stop_input: old(self)@.lifecycle == Lifecycle::Open && outcome is TimedOut,
                wake: old(self)@.lifecycle == Lifecycle::Open,
            }),
            r.1 == (match outcome {
                ExitOutcome::Broken(reason) => Err(ShellError::JoinFailed(reason)),
                _ => Ok(()),
            }),
    {
        let open: bool = self.lifecycle == Lifecycle::Open;
        if open {
            self.lifecycle = Lifecycle::Exited;
        }
        match outcome {
            ExitOutcome::Left => (
                CloseActions { release: open, stop_input: false, wake: open },
                join_result(None),
            ),
            ExitOutcome::Broken(reason) => (
                CloseActions { release: open, stop_input: false, wake: open },
                join_result(Some(reason)),
            ),
            ExitOutcome::TimedOut => (
                CloseActions { release: open, stop_input: open, wake: open },
                Ok(()),
            ),
        }
    }

    /// Begins to start the session again: with a process that runs, it is asked to
    /// leave first.
    pub fn reset(&mut self) -> (r: Result<ResetStep, ShellError>)
        requires
            old(self).wf(),
        ensures
            final(self).wf(),
            match old(self)@.lifecycle {
                Lifecycle::Open => {
                    &&& r matches Ok(ResetStep::Exit(plan))
                    &&& plan.command@ == profile::exit_of(util::shell_name(old(self)@.path))
                    &&& plan.join == old(self)@.joinable
                    &&& final(self)@ == joined(old(self)@)
                },
                Lifecycle::Exited => r matches Ok(ResetStep::Launch) && final(self)@ == old(self)@,
                Lifecycle::Closed => {
                    &&& r matches Err(ShellError::Closed)
                    &&& final(self)@ == old(self)@
                },
            },
    {
        match self.lifecycle {
            Lifecycle::Open => match self.exit() {
                Ok(plan) => Ok(ResetStep::Exit(plan)),
                Err(e) => Err(e),
            },
            Lifecycle::Exited => Ok(ResetStep::Launch),
            Lifecycle::Closed => Err(ShellError::Closed),
        }
    }

    /// The terminal with which the session would be started again, if it has one.
    pub fn pty_options(&self) -> (r: Option<PtyOptions>)
        ensures
            r == (match self@.pty {
                Some(pty) => Some(pty.options),
                None => None,
            }),
    {
        match &self.pty {
            Some(state) => Some(state.options()),
            None => None,
        }
    }

    /// The plan to start the process of the session again.
    pub fn relaunch(&self) -> (r: Result<LaunchPlan, ShellError>)
        ensures
            r is Ok <==> backend::launchable(self@.path, self@.pty is Some),
            r matches Err(e) ==> backend::refused(self@.path, self@.pty is Some, e),
            r matches Ok(plan) ==> backend::planned(
                plan,
                self@.path,
                self@.callbacks.mode,
                (match self@.pty {
                    Some(pty) => Some(pty.options),
                    None => None,
                }),
            ),
    {
        backend::launch(self.shell_path.as_str(), &self.callbacks, self.pty_options())
    }

    /// The process of the session was started again.
    pub fn relaunch_done(&mut self)
        requires
            old(self).wf(),
            old(self)@.lifecycle == Lifecycle::Exited,
            old(self)@.pty matches Some(pty) ==> pty.options.startable(),
        ensures
            final(self).wf(),
            final(self)@ == relaunched(old(self)@),
    {
        let options: Option<PtyOptions> = self.pty_options();
        self.pty = match options {
            Some(options) => Some(PtyState::new(options)),
            None => None,
        };
        self.session = self.session.wrapping_add(1);
        self.joinable = true;
        self.lifecycle = Lifecycle::Open;
    }

    /// Closes the session at once and for good.
    pub fn close(&mut self) -> (r: CloseActions)
        requires
            old(self).wf(),
        ensures
            final(self).wf(),
            final(self)@ == closed(old(self)@),
            r == (CloseActions {
                release: old(self)@.lifecycle == Lifecycle::Open,
                stop_input: old(self)@.lifecycle == Lifecycle::Open,
                wake: old(self)@.lifecycle == Lifecycle::Open,
            }),
    {
        let open: bool = self.lifecycle == Lifecycle::Open;
        self.lifecycle = Lifecycle::Closed;
        CloseActions { release: open, stop_input: open, wake: open }
    }
}

/// A session that is started again keeps its shell, its filter, its callbacks, what
/// is in its buffers, and the size and choices of its terminal.
pub proof fn reset_keeps_the_configuration(m: ShellModel)
    requires
        m.lifecycle == Lifecycle::Open,
    ensures
        ({
            let r = relaunched(exited(joined(m)));
            &&& r.lifecycle == Lifecycle::Open
            &&& r.joinable
            &&& r.path == m.path
            &&& r.filtered == m.filtered
            &&& r.callbacks == m.callbacks
            &&& r.output == m.output
            &&& r.error == m.error
            &&& r.pty is Some <==> m.pty is Some
            &&& r.pty matches Some(pty) ==> pty.options == m.pty->0.options
        }),
{
}

/// A session that has left can be started again; nothing opens a session that was
/// closed: leaving and closing leave it closed.
pub proof fn leaving_is_not_closing(m: ShellModel)
    requires
        m.lifecycle == Lifecycle::Open,
    ensures
        exited(m).lifecycle == Lifecycle::Exited,
        relaunched(exited(m)).lifecycle == Lifecycle::Open,
        closed(m).lifecycle == Lifecycle::Closed,
        closed(exited(m)).lifecycle == Lifecycle::Closed,
        exited(closed(m)) == closed(m),
        closed(closed(m)) == closed(m),
        joined(closed(m)).lifecycle == Lifecycle::Closed,
{
}

/// What can happen to a session.
pub enum ShellEvent {
    /// Output went into a buffer.
    Recorded(Seq<char>, bool),
    /// The buffers were emptied.
    Drained,
    /// Another size of its terminal was noted.
    Resized(u16, u16),
    /// Output of a run was shown on its screen.
    Shown(u64, Seq<char>),
    /// The screen of a run got another size.
    ScreenResized(u64, u16, u16),
    /// Somebody began to wait for its process.
    Joined,
    /// Its process was asked to leave and was waited for.
    Exited,
    /// Its process was started again, after it had left.
    Relaunched,
    /// It was closed.
    Closed,
}

/// What an event makes of a session.
pub open spec fn after(m: ShellModel, event: ShellEvent) -> ShellModel {
    match event {
        ShellEvent::Recorded(raw, is_stderr) => recorded(m, raw, is_stderr),
        ShellEvent::Drained => drained(m),
        ShellEvent::Resized(cols, rows) => resized(m, cols, rows),
        ShellEvent::Shown(session, s) => shown(m, session, s),
        ShellEvent::ScreenResized(session, cols, rows) => screen_resized(m, session, cols, rows),
        ShellEvent::Joined => joined(m),
        ShellEvent::Exited => exited(m),
        ShellEvent::Relaunched => if m.lifecycle == Lifecycle::Exited {
            relaunched(m)
        } else {
            m
        },
        ShellEvent::Closed => closed(m),
    }
}

/// What events make of a session.
pub open spec fn after_all(m: ShellModel, events: Seq<ShellEvent>) -> ShellModel
    decreases events.len(),
{
    if events.len() == 0 {
        m
    } else {
        after(after_all(m, events.drop_last()), events.last())
    }
}

/// Whatever happens, a session keeps its shell, its filter, its callbacks, the sizes
/// of its buffers and whether it has a terminal; and once it is closed it stays
/// closed.
pub proof fn a_session_stays_what_it_is(m: ShellModel, events: Seq<ShellEvent>)
    ensures
        ({
            let r = after_all(m, events);
            &&& r.path == m.path
            &&& r.filtered == m.filtered
            &&& r.callbacks == m.callbacks
            &&& r.output is Some <==> m.output is Some
            &&& r.output matches Some(b) ==> b.capacity == m.output->0.capacity
            &&& r.error is Some <==> m.error is Some
            &&& r.error matches Some(b) ==> b.capacity == m.error->0.capacity
            &&& r.pty is Some <==> m.pty is Some
            &&& r.pty matches Some(pty) ==> {
                &&& pty.options.scrollback == m.pty->0.options.scrollback
                &&& pty.options.track_screen == m.pty->0.options.track_screen
            }
            &&& m.lifecycle == Lifecycle::Closed ==> r.lifecycle == Lifecycle::Closed
        }),
    decreases events.len(),
{
    if events.len() > 0 {
        a_session_stays_what_it_is(m, events.drop_last());
    }
}

/// The screen of a terminal that is started again is blank, whatever was on it.
pub proof fn reset_blanks_the_screen(m: ShellModel)
    requires
        tracks_screen(m),
    ensures
        ({
            let options = m.pty->0.options;
            relaunched(m).pty->0.screen == Some(
                seq![
                    screen::ScreenEvent::Started(options.rows, options.cols, options.scrollback),
                ],
            )
        }),
{
}

/// In a terminal, a shortcut types the control character that it names: `^@` to
/// `^_` the characters from 0 to 31, `^?` the one of number 127.
pub proof fn shortcuts_type_control_characters(m: ShellModel, cmd: Seq<char>)
    requires
        m.pty is Some,
        control::shortcut(cmd) is Some,
    ensures
        ({
            let c = control::shortcut(cmd)->0;
            command(m, cmd) == (if c == '?' {
                control::SendModel::Data(seq!['\u{7f}'], Request::Delete)
            } else {
                control::SendModel::Data(seq![(c as u32 - 0x40) as char], Request::ControlChar)
            })
        }),
{
    control::lemma_upper_twice(text::trimmed(cmd)[1]);
}

/// A command of five bytes or more, or of another length than two besides the white
/// space around it, is no shortcut: it is sent as it is, or by way of the filter.
pub proof fn other_commands_are_sent(m: ShellModel, cmd: Seq<char>)
    requires
        text::byte_count(cmd) >= 5 || text::trimmed(cmd).len() != 2,
    ensures
        command(m, cmd) == (if m.filtered {
            control::SendModel::Ask(cmd)
        } else {
            control::SendModel::Data(cmd, Request::Command)
        }),
{
}

/// A command that does not begin with `^`, besides the white space before it, is no
/// shortcut, however short it is: it is sent as it is, or by way of the filter.
pub proof fn commands_without_a_caret_are_sent(m: ShellModel, cmd: Seq<char>)
    requires
        !cmd.contains('^') || text::trimmed(cmd).len() == 0 || text::trimmed(cmd)[0] != '^',
    ensures
        command(m, cmd) == (if m.filtered {
            control::SendModel::Ask(cmd)
        } else {
            control::SendModel::Data(cmd, Request::Command)
        }),
{
    let at = control::only_caret_notation_is_a_shortcut(cmd);
    if control::shortcut(cmd) is Some {
        assert(cmd.contains(cmd[at]));
        let cut = text::trimming_takes_white_space_only(cmd);
        text::white_space_is_what_separates_words('^');
        assert(cut.0 == at) by {
            if cut.0 < at {
                if cut.0 < cut.1 {
                    assert(text::is_whitespace(cmd[cut.0]));
                } else {
                    assert(text::is_whitespace(cmd[at]));
                }
            }
            if cut.0 > at {
                assert(text::is_whitespace(cmd[at]));
            }
        }
        assert(cut.0 < cut.1) by {
            if cut.0 == cut.1 {
                assert(text::is_whitespace(cmd[at]));
            }
        }
        assert(text::trimmed(cmd)[0] == cmd[at]);
    }
}

/// A command is sent as it is, or by way of the filter, unless it is `^` and one
/// character with white space around them: then it does what that character does as a
/// control character. The result is the position of the `^`.
pub proof fn a_command_is_a_shortcut_or_sent(m: ShellModel, cmd: Seq<char>) -> (at: int)
    ensures
        ({
            ||| command(m, cmd) == (if m.filtered {
                control::SendModel::Ask(cmd)
            } else {
                control::SendModel::Data(cmd, Request::Command)
            })
            ||| {
                &&& 0 <= at < cmd.len() - 1
                &&& cmd[at] == '^'
                &&& forall|i: int|
                    0 <= i < cmd.len() && i != at && i != at + 1 ==> text::is_whitespace(
                        #[trigger] cmd[i],
                    )
                &&& command(m, cmd) == control::control(m.pty is Some, cmd[at + 1])
            }
        }),
{
    let at = control::only_caret_notation_is_a_shortcut(cmd);
    if control::shortcut(cmd) is Some {
        let cut = text::trimming_takes_white_space_only(cmd);
        text::white_space_is_what_separates_words('^');
        let s = text::trimmed(cmd);
        assert(s[0] == cmd[cut.0] && s[1] == cmd[cut.0 + 1]);
        control::lemma_upper_twice(s[1]);
        cut.0
    } else {
        at
    }
}

/// A search that has taken steps in the sessions `states`, in order.
pub open spec fn searched(s: SearchModel, states: Seq<ShellModel>) -> SearchModel
    decreases states.len(),
{
    if states.len() == 0 {
        s
    } else {
        absorbed(searched(s, states.drop_last()), states.last())
    }
}

/// All text in one of the two buffers of the sessions `states`, in order.
pub open spec fn all_held(states: Seq<ShellModel>, is_stderr: bool) -> Seq<char>
    decreases states.len(),
{
    if states.len() == 0 {
        Seq::empty()
    } else {
        let last = if is_stderr {
            states.last().error
        } else {
            states.last().output
        };
        all_held(states.drop_last(), is_stderr) + held(last)
    }
}

/// A search gives back all output that came during it: what each of its steps found
/// in the buffers, in order, behind what it began with.
pub proof fn a_search_collects_all_output(s: SearchModel, states: Seq<ShellModel>)
    ensures
        searched(s, states).pattern == s.pattern,
        searched(s, states).stdout == s.stdout + all_held(states, false),
        searched(s, states).stderr == s.stderr + all_held(states, true),
    decreases states.len(),
{
    if states.len() == 0 {
        assert(s.stdout + Seq::<char>::empty() == s.stdout);
        assert(s.stderr + Seq::<char>::empty() == s.stderr);
    } else {
        let before = states.drop_last();
        let last = states.last();
        a_search_collects_all_output(s, before);
        assert((s.stdout + all_held(before, false)) + held(last.output) == s.stdout + (all_held(
            before,
            false,
        ) + held(last.output)));
        assert((s.stderr + all_held(before, true)) + held(last.error) == s.stderr + (all_held(
            before,
            true,
        ) + held(last.error)));
    }
}

/// A text that was found is still in the output when more is added to it: the result
/// of a search that ended by finding its text has the text in it.
pub proof fn what_was_found_stays_found(s: SearchModel, m: ShellModel)
    requires
        search::found(s),
    ensures
        search::found(absorbed(s, m)),
{
    if text::has_substring(s.stdout, s.pattern) {
        text::lemma_substring_append(s.stdout, held(m.output), s.pattern);
    } else {
        text::lemma_substring_append(s.stderr, held(m.error), s.pattern);
    }
}

/// The buffer of one of the two output streams.
pub open spec fn buffer_of(m: ShellModel, is_stderr: bool) -> Option<BufferModel> {
    if is_stderr {
        m.error
    } else {
        m.output
    }
}

/// All text of one of the two output streams that `events` put into the session.
pub open spec fn recorded_text(events: Seq<ShellEvent>, is_stderr: bool) -> Seq<char>
    decreases events.len(),
{
    if events.len() == 0 {
        Seq::empty()
    } else {
        let before = recorded_text(events.drop_last(), is_stderr);
        match events.last() {
            ShellEvent::Recorded(raw, stderr) => if stderr == is_stderr {
                before + raw
            } else {
                before
            },
            _ => before,
        }
    }
}

/// All text of one of the two output streams that was taken out of the session `m`
/// during `events`, in order.
pub open spec fn given_text(m: ShellModel, events: Seq<ShellEvent>, is_stderr: bool) -> Seq<char>
    decreases events.len(),
{
    if events.len() == 0 {
        Seq::empty()
    } else {
        let before = given_text(m, events.drop_last(), is_stderr);
        match events.last() {
            ShellEvent::Drained => before + held(
                buffer_of(after_all(m, events.drop_last()), is_stderr),
            ),
            _ => before,
        }
    }
}

/// The text in a buffer is all its chunks behind each other; without a buffer there is
/// none. Taking it out leaves nothing, in the same buffers, and changes nothing else of
/// the session.
pub proof fn all_that_is_buffered_is_given_out(m: ShellModel, is_stderr: bool)
    ensures
        held(buffer_of(m, is_stderr)) == (match buffer_of(m, is_stderr) {
            Some(b) => b.chunks.flatten(),
            None => Seq::empty(),
        }),
        ({
            let r = drained(m);
            &&& held(r.output).len() == 0
            &&& held(r.error).len() == 0
            &&& r == (ShellModel { output: r.output, error: r.error, ..m })
            &&& match (buffer_of(m, is_stderr), buffer_of(r, is_stderr)) {
                (Some(b), Some(e)) => {
                    &&& e.chunks.len() == 0
                    &&& e.capacity == b.capacity
                    &&& e.dropped == b.dropped
                },
                (None, None) => true,
                _ => false,
            }
        }),
{
    match buffer_of(m, is_stderr) {
        Some(b) => {
            buffer::chunks_join_in_order(b.chunks);
            buffer::nothing_is_taken_twice(b);
        },
        None => {},
    }
}

/// Output goes into the buffer of its stream, behind what is there, and changes nothing
/// else of the session: what is in the other buffer, on the screen, or whether the
/// session is open.
pub proof fn output_goes_into_the_buffer_of_its_stream(
    m: ShellModel,
    raw: Seq<char>,
    is_stderr: bool,
)
    ensures
        ({
            let r = recorded(m, raw, is_stderr);
            &&& is_stderr ==> r == (ShellModel { error: r.error, ..m })
            &&& !is_stderr ==> r == (ShellModel { output: r.output, ..m })
            &&& match (buffer_of(m, is_stderr), buffer_of(r, is_stderr)) {
                (Some(b), Some(e)) => {
                    &&& e.capacity == b.capacity
                    &&& raw.len() == 0 ==> e == b
                    &&& vstd::utf8::encode_utf8(b.chunks.flatten() + raw).len() <= b.capacity ==> {
                        &&& e.chunks.flatten() == b.chunks.flatten() + raw
                        &&& e.dropped == b.dropped
                    }
                    &&& 0 < raw.len() && vstd::utf8::encode_utf8(raw).len() <= b.capacity ==> {
                        &&& e.chunks.len() > 0
                        &&& e.chunks.last() == raw
                    }
                },
                (None, None) => true,
                _ => false,
            }
        }),
{
    match buffer_of(m, is_stderr) {
        Some(b) => {
            lemma_put(b, raw);
            if raw.len() > 0 {
                buffer::the_newest_output_is_kept(b, raw);
            }
        },
        None => {},
    }
}

/// Within its capacity a buffer loses nothing.
proof fn lemma_put(b: BufferModel, raw: Seq<char>)
    ensures
        buffer::pushed(b, raw).capacity == b.capacity,
        vstd::utf8::encode_utf8(b.chunks.flatten() + raw).len() <= b.capacity ==> {
            &&& buffer::pushed(b, raw).chunks.flatten() == b.chunks.flatten() + raw
            &&& buffer::pushed(b, raw).dropped == b.dropped
        },
{
    let all = b.chunks.push(raw);
    b.chunks.lemma_flatten_push(raw);
    if raw.len() == 0 {
        assert(b.chunks.flatten() + raw == b.chunks.flatten());
    } else {
        buffer::the_newest_output_is_kept(b, raw);
        let r = buffer::pushed(b, raw);
        let gone = all.len() - r.chunks.len();
        if vstd::utf8::encode_utf8(b.chunks.flatten() + raw).len() <= b.capacity {
            assert(gone == 0) by {
                if gone > 0 {
                    lemma_ends_are_smaller(all, gone - 1);
                }
            }
            assert(all.skip(0) == all);
            assert(all.take(0) == Seq::<Seq<char>>::empty());
            assert(all.take(0).flatten() == Seq::<char>::empty());
            assert(vstd::utf8::encode_utf8(Seq::<char>::empty()).len() == 0);
            assert(b.dropped as int % (usize::MAX + 1) == b.dropped) by (nonlinear_arith)
                requires
                    0 <= b.dropped <= usize::MAX,
            ;
        }
    }
}

/// The end of a list of chunks has no more bytes than the list.
proof fn lemma_ends_are_smaller(chunks: Seq<Seq<char>>, n: int)
    requires
        0 <= n <= chunks.len(),
    ensures
        vstd::utf8::encode_utf8(chunks.skip(n).flatten()).len() <= vstd::utf8::encode_utf8(
            chunks.flatten(),
        ).len(),
    decreases n,
{
    if n == 0 {
        assert(chunks.skip(0) == chunks);
    } else {
        lemma_ends_are_smaller(chunks, n - 1);
        let longer = chunks.skip(n - 1);
        assert(longer.drop_first() == chunks.skip(n));
        text::lemma_byte_count_append(longer.first(), chunks.skip(n).flatten());
    }
}

/// As long as a stream writes no more than its buffer can hold, nothing of it is lost,
/// whatever else happens to the session: what was given out, in order, and then what is
/// still there, is what was there and then all that was written.
pub proof fn all_output_is_given_out_in_order(
    m: ShellModel,
    events: Seq<ShellEvent>,
    is_stderr: bool,
)
    requires
        buffer_of(m, is_stderr) is Some,
        ({
            let b = buffer_of(m, is_stderr)->0;
            vstd::utf8::encode_utf8(b.chunks.flatten() + recorded_text(events, is_stderr)).len()
                <= b.capacity
        }),
    ensures
        ({
            let b = buffer_of(m, is_stderr)->0;
            &&& buffer_of(after_all(m, events), is_stderr) matches Some(e)
            &&& e.capacity == b.capacity
            &&& e.dropped == b.dropped
            &&& given_text(m, events, is_stderr) + e.chunks.flatten() == b.chunks.flatten()
                + recorded_text(events, is_stderr)
        }),
    decreases events.len(),
{
    let b = buffer_of(m, is_stderr)->0;
    let start = b.chunks.flatten();
    if events.len() == 0 {
        assert(Seq::<char>::empty() + start == start);
        assert(start + Seq::<char>::empty() == start);
    } else {
        let fewer = events.drop_last();
        let written = recorded_text(fewer, is_stderr);
        let now = after_all(m, fewer);
        match events.last() {
            ShellEvent::Recorded(raw, stderr) => {
                text::lemma_byte_count_append(start + written, raw);
                assert((start + written) + raw == start + (written + raw));
            },
            _ => {},
        }
        all_output_is_given_out_in_order(m, fewer, is_stderr);
        let e = buffer_of(now, is_stderr)->0;
        let given = given_text(m, fewer, is_stderr);
        match events.last() {
            ShellEvent::Recorded(raw, stderr) => {
                if stderr == is_stderr {
                    assert((given + e.chunks.flatten()) + raw == given + (e.chunks.flatten()
                        + raw));
                    text::lemma_byte_count_append(given, e.chunks.flatten() + raw);
                    lemma_put(e, raw);
                    assert(start + (written + raw) == (start + written) + raw);
                }
            },
            ShellEvent::Drained => {
                all_that_is_buffered_is_given_out(now, is_stderr);
                assert(held(buffer_of(now, is_stderr)) == e.chunks.flatten());
                let left = buffer_of(drained(now), is_stderr)->0;
                assert(left.chunks.flatten() == Seq::<char>::empty());
                assert((given + e.chunks.flatten()) + Seq::<char>::empty() == given
                    + e.chunks.flatten());
            },
            _ => {},
        }
    }
}

/// Output of the run that has the screen now is shown on it as it is, whatever is in
/// it, and all of it at once: a screen of ordinary size, never made narrower, has gone
/// through one thing more, which is this text. Nothing else of the session changes.
pub proof fn output_is_shown_on_the_screen(m: ShellModel, s: Seq<char>)
    requires
        m.pty is Some,
        m.pty->0.screen is Some,
        screen::ordinary(screen::shape(m.pty->0.screen->0)),
    ensures
        ({
            let r = shown(m, m.session, s);
            &&& r.pty matches Some(pty)
            &&& pty.screen == Some(m.pty->0.screen->0.push(screen::ScreenEvent::Text(s)))
            &&& pty.options == m.pty->0.options
            &&& r == (ShellModel { pty: r.pty, ..m })
        }),
{
    let log = m.pty->0.screen->0;
    screen::ordinary_screens_take_all_text(log, m.pty->0.options.scrollback, s);
}

/// Whatever its screen is, a session whose output is shown stays as it is but for the
/// screen, which is followed as before; and late output of an earlier run, like that
/// of a session without a screen, changes nothing at all.
pub proof fn showing_changes_the_screen_only(m: ShellModel, session: u64, s: Seq<char>)
    ensures
        ({
            let r = shown(m, session, s);
            &&& r == (ShellModel { pty: r.pty, ..m })
            &&& m.session != session ==> r == m
            &&& match (m.pty, r.pty) {
                (Some(before), Some(pty)) => {
                    &&& pty.options == before.options
                    &&& before.screen is None ==> pty.screen is None
                    &&& before.screen matches Some(log) ==> m.session == session ==> pty.screen
                        == Some(screen::shown(log, before.options.scrollback, s))
                },
                (None, None) => true,
                _ => false,
            }
        }),
{
}

/// A screen gets another size when its terminal does, and a session notes the size at
/// once: the one changes nothing but the screen, the other nothing but the size that is
/// noted, with which the terminal is started again.
pub proof fn sizes_of_terminal_and_screen(m: ShellModel, session: u64, cols: u16, rows: u16)
    ensures
        ({
            let r = resized(m, cols, rows);
            &&& r == (ShellModel { pty: r.pty, ..m })
            &&& match (m.pty, r.pty) {
                (Some(before), Some(pty)) => {
                    &&& pty.options.cols == cols
                    &&& pty.options.rows == rows
                    &&& pty.options.scrollback == before.options.scrollback
                    &&& pty.options.track_screen == before.options.track_screen
                    &&& pty.screen == before.screen
                },
                (None, None) => true,
                _ => false,
            }
        }),
        ({
            let r = screen_resized(m, session, cols, rows);
            &&& r == (ShellModel { pty: r.pty, ..m })
            &&& m.session != session ==> r == m
            &&& match (m.pty, r.pty) {
                (Some(before), Some(pty)) => {
                    &&& pty.options == before.options
                    &&& before.screen is None ==> pty.screen is None
                    &&& before.screen matches Some(log) ==> m.session == session ==> pty.screen
                        == Some(log.push(screen::ScreenEvent::Resized(rows, cols)))
                },
                (None, None) => true,
                _ => false,
            }
        }),
{
}

/// What asking for the end, waiting and starting again do to a session: only its
/// state, whether its process was waited for, and the number of its run change, and its
/// terminal is a new one. A new run has the next number, so that it is told apart from
/// the one before.
pub proof fn ends_and_starts_change_the_state_only(m: ShellModel)
    ensures
        joined(m) == (ShellModel { joinable: false, ..m }),
        closed(m) == (ShellModel { lifecycle: Lifecycle::Closed, ..m }),
        m.lifecycle == Lifecycle::Open ==> exited(m) == (ShellModel {
            lifecycle: Lifecycle::Exited,
            ..m
        }),
        m.lifecycle != Lifecycle::Open ==> exited(m) == m,
        ({
            let r = relaunched(m);
            &&& r == (ShellModel {
                lifecycle: Lifecycle::Open,
                pty: r.pty,
                joinable: true,
                session: r.session,
                ..m
            })
            &&& r.session != m.session
            &&& m.session < u64::MAX ==> r.session == m.session + 1
        }),
{
}

/// A step of a search adds to it all that is in the buffers, behind what it has, and
/// keeps what is searched for.
pub proof fn a_search_step_adds_all_that_is_buffered(s: SearchModel, m: ShellModel)
    ensures
        absorbed(s, m).pattern == s.pattern,
        absorbed(s, m).stdout == s.stdout + (match m.output {
            Some(b) => b.chunks.flatten(),
            None => Seq::empty(),
        }),
        absorbed(s, m).stderr == s.stderr + (match m.error {
            Some(b) => b.chunks.flatten(),
            None => Seq::empty(),
        }),
        buffers(m) <==> m.output is Some || m.error is Some,
{
    all_that_is_buffered_is_given_out(m, false);
    all_that_is_buffered_is_given_out(m, true);
}

/// What recording the pieces of a stream puts into a session.
pub open spec fn recordings(pieces: Seq<(Seq<char>, Seq<char>)>, is_stderr: bool) -> Seq<
    ShellEvent,
> {
    pieces.map_values(|p: (Seq<char>, Seq<char>)| ShellEvent::Recorded(p.0, is_stderr))
}

proof fn lemma_recordings(m: ShellModel, pieces: Seq<(Seq<char>, Seq<char>)>, is_stderr: bool)
    ensures
        recorded_text(recordings(pieces, is_stderr), is_stderr) == stream::raw_text(pieces),
        given_text(m, recordings(pieces, is_stderr), is_stderr) == Seq::<char>::empty(),
    decreases pieces.len(),
{
    if pieces.len() > 0 {
        let before = pieces.drop_last();
        lemma_recordings(m, before, is_stderr);
        assert(recordings(pieces, is_stderr).drop_last() == recordings(before, is_stderr));
        assert(recordings(pieces, is_stderr).last() == ShellEvent::Recorded(
            pieces.last().0,
            is_stderr,
        ));
    }
}

/// A session gives back what its process wrote: once a stream is over, the text that is
/// taken out of its buffer is the text of all bytes of the stream, in whatever reads
/// they came and however they were cut for the callbacks, if they fit into the buffer.
pub proof fn a_session_gives_back_what_was_written(
    m: ShellModel,
    mode: CallbackMode,
    events: Seq<stream::StreamEvent>,
    is_stderr: bool,
)
    requires
        buffer_of(m, is_stderr) is Some,
        buffer_of(m, is_stderr)->0.chunks.len() == 0,
        vstd::utf8::encode_utf8(decode::decoded(stream::bytes_read(events))).len() <= buffer_of(
            m,
            is_stderr,
        )->0.capacity,
    ensures
        ({
            let r = after_all(m, recordings(stream::whole_run(mode, events), is_stderr));
            &&& held(buffer_of(r, is_stderr)) == decode::decoded(stream::bytes_read(events))
            &&& buffer_of(r, !is_stderr) == buffer_of(m, !is_stderr)
            &&& buffer_of(r, is_stderr)->0.dropped == buffer_of(m, is_stderr)->0.dropped
        }),
{
    let pieces = stream::whole_run(mode, events);
    let happened = recordings(pieces, is_stderr);
    let r = after_all(m, happened);
    let text = decode::decoded(stream::bytes_read(events));
    let none = Seq::<char>::empty();
    stream::buffer_gets_the_decoded_stream(mode, events);
    lemma_recordings(m, pieces, is_stderr);
    assert(buffer_of(m, is_stderr)->0.chunks.flatten() == none);
    assert(none + text == text);
    all_output_is_given_out_in_order(m, happened, is_stderr);
    all_that_is_buffered_is_given_out(r, is_stderr);
    let left = buffer_of(r, is_stderr)->0.chunks.flatten();
    assert(none + left == left);
    lemma_other_buffer(m, pieces, is_stderr);
}

proof fn lemma_other_buffer(m: ShellModel, pieces: Seq<(Seq<char>, Seq<char>)>, is_stderr: bool)
    ensures
        buffer_of(after_all(m, recordings(pieces, is_stderr)), !is_stderr) == buffer_of(
            m,
            !is_stderr,
        ),
    decreases pieces.len(),
{
    if pieces.len() > 0 {
        let before = pieces.drop_last();
        lemma_other_buffer(m, before, is_stderr);
        assert(recordings(pieces, is_stderr).drop_last() == recordings(before, is_stderr));
        assert(recordings(pieces, is_stderr).last() == ShellEvent::Recorded(
            pieces.last().0,
            is_stderr,
        ));
    }
}

} // verus!
