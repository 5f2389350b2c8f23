//! What a session is started with, and what a terminal session keeps of it.

use vstd::prelude::*;

use crate::error::ShellError;
use crate::screen;
use crate::screen::ScreenTracker;
use crate::shell::buffer::OutputBuffer;
use crate::shell::callbacks::{CallbackHub, CallbackMode};
use crate::shell::profile;
use crate::shell::profile::ShellProfile;
use crate::util;

verus! {

broadcast use vstd::string::group_string_axioms;

/// What can be chosen of a terminal.
#[derive(Debug, Clone, Copy, PartialEq, Eq, Structural)]
pub struct PtyOptions {
    pub cols: u16,
    pub rows: u16,
    /// How many lines that left the screen are kept.
    pub scrollback: usize,
    /// Whether the screen is followed.
    pub track_screen: bool,
}

impl PtyOptions {
    /// Whether a terminal can be started so: a screen that is followed has a row.
    pub open spec fn startable(&self) -> bool {
        self.track_screen ==> self.rows > 0
    }
}

impl Default for PtyOptions {
    fn default() -> (r: PtyOptions)
        ensures
            r == (PtyOptions { cols: 80, rows: 24, scrollback: 2000, track_screen: true }),
    {
        PtyOptions { cols: 80, rows: 24, scrollback: 2000, track_screen: true }
    }
}

/// What a terminal session is at a moment: its size and choices, and all that its
/// screen went through, if it is followed.
pub struct PtyModel {
    pub options: PtyOptions,
    pub screen: Option<Seq<screen::ScreenEvent>>,
}

/// The terminal that `options` describe, just started.
pub open spec fn started(options: PtyOptions) -> PtyModel {
    PtyModel {
        options,
        screen: if options.track_screen {
            Some(
                seq![screen::ScreenEvent::Started(options.rows, options.cols, options.scrollback)],
            )
        } else {
            None
        },
    }
}

/// What a terminal session keeps.
pub struct PtyState {
    cols: u16,
    rows: u16,
    scrollback: usize,
    track_screen: bool,
    vt_parser: Option<ScreenTracker>,
}

impl View for PtyState {
    type V = PtyModel;

    closed spec fn view(&self) -> PtyModel {
        PtyModel {
            options: PtyOptions {
                cols: self.cols,
                rows: self.rows,
                scrollback: self.scrollback,
                track_screen: self.track_screen,
            },
            screen: match self.vt_parser {
                Some(tracker) => Some(tracker@),
                None => None,
            },
        }
    }
}

impl PtyState {
    /// The screen is followed exactly if it was asked for.
    pub closed spec fn wf(&self) -> bool {
        &&& self.track_screen == (self.vt_parser is Some)
        &&& self.vt_parser matches Some(tracker) ==> tracker.wf() && tracker.scrollback()
            == self.scrollback
    }

    /// A terminal that has just been started with `options`.
    pub fn new(options: PtyOptions) -> (r: PtyState)
        requires
            options.startable(),
        ensures
            r.wf(),
            r@ == started(options),
    {
        let vt_parser: Option<ScreenTracker> = if options.track_screen {
            Some(ScreenTracker::new(options.rows, options.cols, options.scrollback))
        } else {
            None
        };
        PtyState {
            cols: options.cols,
            rows: options.rows,
            scrollback: options.scrollback,
            track_screen: options.track_screen,
            vt_parser,
        }
    }

    /// The screen, if it is followed.
    pub fn vt_parser(&self) -> (r: Result<&ScreenTracker, ShellError>)
        requires
            self.wf(),
        ensures
            self@.screen matches Some(log) ==> (r matches Ok(tracker) && tracker@ == log
                && tracker.wf()),
            self@.screen is None ==> r matches Err(ShellError::ScreenTrackingDisabled),
            r is Ok <==> self@.options.track_screen,
    {
        match &self.vt_parser {
            Some(tracker) => Ok(tracker),
            None => Err(ShellError::ScreenTrackingDisabled),
        }
    }

    /// The size and choices, with which the same terminal can be started again.
    pub fn options(&self) -> (r: PtyOptions)
        ensures
            r == self@.options,
    {
        PtyOptions {
            cols: self.cols,
            rows: self.rows,
            scrollback: self.scrollback,
            track_screen: self.track_screen,
        }
    }

    /// Notes another size. The screen gets it when the terminal does.
    pub fn set_size(&mut self, cols: u16, rows: u16)
        requires
            old(self).wf(),
        ensures
            final(self).wf(),
            final(self)@ == (PtyModel {
                options: PtyOptions { cols, rows, ..old(self)@.options },
                ..old(self)@
            }),
    {
        self.cols = cols;
        self.rows = rows;
    }

    /// Shows output on the screen, if it is followed.
    pub fn show(&mut self, text: &str)
        requires
            old(self).wf(),
        ensures
            final(self).wf(),
            final(self)@ == (PtyModel {
                screen: match old(self)@.screen {
                    Some(log) => Some(
                        screen::shown(log, old(self)@.options.scrollback, text@),
                    ),
                    None => None,
                },
                ..old(self)@
            }),
    {
        match &mut self.vt_parser {
            Some(tracker) => {
                tracker.show(text);
            },
            None => {},
        }
    }

    /// Gives the screen another size, if it is followed.
    pub fn set_screen_size(&mut self, cols: u16, rows: u16)
        requires
            old(self).wf(),
            old(self)@.options.track_screen ==> cols > 0 && rows > 0,
        ensures
            final(self).wf(),
            final(self)@ == (PtyModel {
                screen: match old(self)@.screen {
                    Some(log) => Some(log.push(screen::ScreenEvent::Resized(rows, cols))),
                    None => None,
                },
                ..old(self)@
            }),
    {
        match &mut self.vt_parser {
            Some(tracker) => {
                tracker.set_size(rows, cols);
            },
            None => {},
        }
    }
}

/// All that a session is started with.
pub struct LaunchConfig {
    pub shell_path: String,
    pub callbacks: CallbackHub,
    pub output_buffer: Option<OutputBuffer>,
    pub error_buffer: Option<OutputBuffer>,
    pub pty_opts: Option<PtyOptions>,
}

impl LaunchConfig {
    /// The buffers are in order, and a terminal session, whose two output streams
    /// are one, has no buffer for errors.
    pub open spec fn wf(&self) -> bool {
        &&& self.output_buffer matches Some(b) ==> b.wf()
        &&& self.error_buffer matches Some(b) ==> b.wf()
        &&& self.pty_opts is Some ==> self.error_buffer is None
    }

    /// Whether its terminal, if it has one, can be started.
    pub open spec fn startable(&self) -> bool {
        self.pty_opts matches Some(options) ==> options.startable()
    }
}

/// How the process of a session is started.
#[derive(Debug)]
pub struct LaunchPlan {
    /// The program and its arguments.
    pub program: String,
    pub args: Vec<&'static str>,
    /// What is written to it first.
    pub init: Option<String>,
    /// How its output is cut for the callbacks.
    pub mode: CallbackMode,
    /// The terminal it runs in; without one it runs on pipes.
    pub pty: Option<PtyOptions>,
}

/// Whether `plan` starts the shell at `path` so.
pub open spec fn planned(
    plan: LaunchPlan,
    path: Seq<char>,
    mode: CallbackMode,
    pty: Option<PtyOptions>,
) -> bool {
    let name = util::shell_name(path);
    &&& plan.program@ == path
    &&& Some(profile::arg_texts(plan.args@)) == profile::args_of(name, pty is Some)
    &&& plan.init is Some <==> profile::init_of(name) is Some
    &&& plan.init matches Some(text) ==> Some(text@) == profile::init_of(name)
    &&& plan.mode == mode
    &&& plan.pty == pty
}

/// Whether a launch of the shell at `path` fails before any process is started,
/// and with what.
pub open spec fn refused(path: Seq<char>, pty_mode: bool, e: ShellError) -> bool {
    let name = util::shell_name(path);
    if name.len() == 0 {
        e matches ShellError::InvalidShellPath(p) && p@ == path
    } else {
        profile::args_of(name, pty_mode) is None && (e matches ShellError::UnsupportedShell(n) && n@
            == name)
    }
}

/// Whether the library can start the shell at `path`.
pub open spec fn launchable(path: Seq<char>, pty_mode: bool) -> bool {
    let name = util::shell_name(path);
    name.len() > 0 && profile::args_of(name, pty_mode) is Some
}

/// Plans the start of the shell at `shell_path`, in a terminal or on pipes.
pub fn launch(shell_path: &str, callbacks: &CallbackHub, pty_opts: Option<PtyOptions>) -> (r: Result<
    LaunchPlan,
    ShellError,
>)
    ensures
        r is Ok <==> launchable(shell_path@, pty_opts is Some),
        r matches Ok(plan) ==> planned(plan, shell_path@, callbacks@.mode, pty_opts),
        r matches Err(e) ==> refused(shell_path@, pty_opts is Some, e),
{
    let shell: ShellProfile = match ShellProfile::detect(shell_path) {
        Ok(shell) => shell,
        Err(e) => {
            return Err(e);
        },
    };
    let args: Vec<&'static str> = match shell.args(pty_opts.is_some()) {
        Ok(args) => args,
        Err(e) => {
            return Err(e);
        },
    };
    Ok(
        LaunchPlan {
            program: shell_path.to_owned(),
            args,
            init: shell.init_command(),
            mode: callbacks.mode(),
            pty: pty_opts,
        },
    )
}

/// A terminal that has just been started has the size and choices that were asked for,
/// and a screen exactly if one is to be followed: a blank one of that size, which keeps
/// as many lines as was asked for.
pub proof fn a_terminal_starts_as_it_was_asked_for(options: PtyOptions)
    ensures
        started(options).options == options,
        started(options).screen is Some <==> options.track_screen,
        started(options).screen matches Some(log) ==> {
            &&& log.len() == 1
            &&& log[0] == screen::ScreenEvent::Started(
                options.rows,
                options.cols,
                options.scrollback,
            )
            &&& screen::shape(log).rows == options.rows
            &&& screen::shape(log).cols == options.cols
            &&& screen::screen_text(log).len() == 0
        },
{
    if options.track_screen {
        let log = started(options).screen->0;
        assert(log.drop_last() == Seq::<screen::ScreenEvent>::empty());
        assert(screen::screen_text(log.drop_last()) == Seq::<char>::empty());
    }
}

/// A plan runs the program at the path, with the arguments of the shell that the path
/// names, in the terminal and with the callbacks that were asked for, and writes first
/// what that shell is told first.
pub proof fn a_plan_starts_the_shell_at_the_path(
    plan: LaunchPlan,
    path: Seq<char>,
    mode: CallbackMode,
    pty: Option<PtyOptions>,
)
    requires
        planned(plan, path, mode, pty),
    ensures
        plan.program@ == path,
        plan.mode == mode,
        plan.pty == pty,
        profile::args_of(util::shell_name(path), pty is Some) == Some(
            Seq::new(plan.args@.len(), |i: int| plan.args@[i]@),
        ),
        match (plan.init, profile::init_of(util::shell_name(path))) {
            (Some(s), Some(text)) => s@ == text,
            (None, None) => true,
            _ => false,
        },
{
    assert(profile::arg_texts(plan.args@) == Seq::new(
        plan.args@.len(),
        |i: int| plan.args@[i]@,
    ));
}

/// Whether a shell can be started is a matter of its name alone: it is one of the nine
/// that the library knows. Otherwise the launch is refused with that name, or with the
/// path, if it has none.
pub proof fn only_known_shells_are_started(path: Seq<char>, pty_mode: bool, e: ShellError)
    ensures
        ({
            let name = util::shell_name(path);
            &&& launchable(path, pty_mode) <==> (name == "bash"@ || name == "zsh"@ || name == "sh"@
                || name == "fish"@ || name == "cmd"@ || name == "powershell"@ || name == "pwsh"@
                || name == "python"@ || name == "node"@)
            &&& refused(path, pty_mode, e) ==> {
                &&& !launchable(path, pty_mode)
                &&& match e {
                    ShellError::InvalidShellPath(p) => name.len() == 0 && p@ == path,
                    ShellError::UnsupportedShell(n) => name.len() > 0 && n@ == name,
                    _ => false,
                }
            }
        }),
{
    profile::lemma_names_differ();
    profile::these_shells_are_known(util::shell_name(path), pty_mode);
}

} // verus!
