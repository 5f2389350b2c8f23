//! Choosing what a session is to be, step by step.

use vstd::prelude::*;

use crate::error::ShellError;
use crate::shell::backend;
use crate::shell::backend::{LaunchConfig, LaunchPlan, PtyOptions};
use crate::shell::buffer;
use crate::shell::buffer::OutputBuffer;
use crate::shell::callbacks::{CallbackHub, CallbackMode, CallbackSet, PreSendHook};
use crate::shell::session;
use crate::shell::session::Shell;
use crate::text;

verus! {

broadcast use vstd::string::group_string_axioms;

/// The capacity of the output buffers in bytes, where none is given: 4 MiB.
pub const DEFAULT_BUFFER_CAPACITY: usize = 4194304;

/// What has been chosen.
pub struct BuilderModel {
    pub path: Seq<char>,
    /// Whether commands pass through a filter before they are sent.
    pub filtered: bool,
    pub callbacks: CallbackSet,
    /// The capacity of the output buffers; without one there are none.
    pub capacity: Option<usize>,
    /// Whether the shell runs in a terminal.
    pub use_pty: bool,
    /// What is chosen of the terminal, should there be one.
    pub options: PtyOptions,
}

/// Configures and starts a session.
#[derive(Debug)]
pub struct ShellBuilder {
    shell_path: String,
    pre_send: bool,
    callbacks: CallbackSet,
    buffer_capacity: Option<usize>,
    use_pty: bool,
    pty_opts: PtyOptions,
}

impl View for ShellBuilder {
    type V = BuilderModel;

    closed spec fn view(&self) -> BuilderModel {
        BuilderModel {
            path: self.shell_path@,
            filtered: self.pre_send,
            callbacks: self.callbacks,
            capacity: self.buffer_capacity,
            use_pty: self.use_pty,
            options: self.pty_opts,
        }
    }
}

/// What is chosen at first: the shell at `path`, on pipes, without buffers,
/// callbacks or filter.
pub open spec fn initial(path: Seq<char>) -> BuilderModel {
    BuilderModel {
        path,
        filtered: false,
        callbacks: CallbackSet {
            on_output: false,
            on_error: false,
            on_exit: false,
            on_close: false,
            mode: CallbackMode::Raw,
        },
        capacity: None,
        use_pty: false,
        options: PtyOptions { cols: 80, rows: 24, scrollback: 2000, track_screen: true },
    }
}

/// The terminal that has been chosen, if one has.
pub open spec fn chosen_pty(b: BuilderModel) -> Option<PtyOptions> {
    if b.use_pty {
        Some(b.options)
    } else {
        None
    }
}

/// An empty buffer of the chosen capacity, if one has been chosen.
pub open spec fn fresh_buffer(capacity: Option<usize>) -> Option<buffer::BufferModel> {
    match capacity {
        Some(max) => Some(buffer::fresh(max as nat)),
        None => None,
    }
}

/// The session that the choices in `b` lead to.
pub open spec fn opened(b: BuilderModel) -> session::ShellModel {
    session::ShellModel {
        path: text::trimmed(b.path),
        lifecycle: session::Lifecycle::Open,
        filtered: b.filtered,
        callbacks: b.callbacks,
        output: fresh_buffer(b.capacity),
        error: if b.use_pty {
            None
        } else {
            fresh_buffer(b.capacity)
        },
        pty: match chosen_pty(b) {
            Some(options) => Some(backend::started(options)),
            None => None,
        },
        joinable: true,
        session: 0,
    }
}

impl ShellBuilder {
    /// Starts with the shell at the path `shell`, on pipes, without buffers,
    /// callbacks or filter.
    pub fn new(shell: &str) -> (r: ShellBuilder)
        ensures
            r@ == initial(shell@),
    {
        ShellBuilder {
            shell_path: shell.to_owned(),
            pre_send: false,
            callbacks: CallbackSet::default(),
            buffer_capacity: None,
            use_pty: false,
            pty_opts: PtyOptions::default(),
        }
    }

    /// Runs the shell in a terminal. Its two output streams are then one, so that
    /// nothing ever comes from its error stream.
    pub fn enable_pty(self) -> (r: ShellBuilder)
        ensures
            r@ == (BuilderModel { use_pty: true, ..self@ }),
    {
        let mut b = self;
        b.use_pty = true;
        b
    }

    /// Sets the size of the terminal. It matters only with `enable_pty`.
    pub fn pty_size(self, cols: u16, rows: u16) -> (r: ShellBuilder)
        ensures
            r@ == (BuilderModel { options: PtyOptions { cols, rows, ..self@.options }, ..self@ }),
    {
        let mut b = self;
        b.pty_opts = PtyOptions { cols, rows, ..b.pty_opts };
        b
    }

    /// Sets how many lines that left the screen are kept. It matters only with
    /// `enable_pty`.
    pub fn scrollback(self, lines: usize) -> (r: ShellBuilder)
        ensures
            r@ == (BuilderModel {
                options: PtyOptions { scrollback: lines, ..self@.options },
                ..self@
            }),
    {
        let mut b = self;
        b.pty_opts = PtyOptions { scrollback: lines, ..b.pty_opts };
        b
    }

    /// Does not follow the screen, which saves work; there are no snapshots then.
    /// It matters only with `enable_pty`.
    pub fn disable_snapshot(self) -> (r: ShellBuilder)
        ensures
            r@ == (BuilderModel {
                options: PtyOptions { track_screen: false, ..self@.options },
                ..self@
            }),
    {
        let mut b = self;
        b.pty_opts = PtyOptions { track_screen: false, ..b.pty_opts };
        b
    }

    /// Buffers the output, up to 4 MiB of each stream.
    pub fn enable_buffer(self) -> (r: ShellBuilder)
        ensures
            r@ == (BuilderModel { capacity: Some(DEFAULT_BUFFER_CAPACITY), ..self@ }),
    {
        let mut b = self;
        b.buffer_capacity = Some(DEFAULT_BUFFER_CAPACITY);
        b
    }

    /// Buffers the output, up to `max_bytes` bytes of each stream.
    pub fn enable_buffer_with_capacity(self, max_bytes: usize) -> (r: ShellBuilder)
        ensures
            r@ == (BuilderModel { capacity: Some(max_bytes), ..self@ }),
    {
        let mut b = self;
        b.buffer_capacity = Some(max_bytes);
        b
    }

    /// Calls back with one line at a time.
    pub fn line_callback(self) -> (r: ShellBuilder)
        ensures
            r@ == (BuilderModel {
                callbacks: CallbackSet { mode: CallbackMode::Line, ..self@.callbacks },
                ..self@
            }),
    {
        let mut b = self;
        b.callbacks = CallbackSet { mode: CallbackMode::Line, ..b.callbacks };
        b
    }

    /// Calls back with whatever a read brought.
    pub fn raw_callback(self) -> (r: ShellBuilder)
        ensures
            r@ == (BuilderModel {
                callbacks: CallbackSet { mode: CallbackMode::Raw, ..self@.callbacks },
                ..self@
            }),
    {
        let mut b = self;
        b.callbacks = CallbackSet { mode: CallbackMode::Raw, ..b.callbacks };
        b
    }

    /// A filter for commands is registered.
    pub fn on_send(self) -> (r: ShellBuilder)
        ensures
            r@ == (BuilderModel { filtered: true, ..self@ }),
    {
        let mut b = self;
        b.pre_send = true;
        b
    }

    /// A callback for output is registered.
    pub fn on_output(self) -> (r: ShellBuilder)
        ensures
            r@ == (BuilderModel {
                callbacks: CallbackSet { on_output: true, ..self@.callbacks },
                ..self@
            }),
    {
        let mut b = self;
        b.callbacks = CallbackSet { on_output: true, ..b.callbacks };
        b
    }

    /// A callback for the error stream is registered. A terminal session never
    /// calls it.
    pub fn on_error(self) -> (r: ShellBuilder)
        ensures
            r@ == (BuilderModel {
                callbacks: CallbackSet { on_error: true, ..self@.callbacks },
                ..self@
            }),
    {
        let mut b = self;
        b.callbacks = CallbackSet { on_error: true, ..b.callbacks };
        b
    }

    /// A callback for the end of the process is registered.
    pub fn on_exit(self) -> (r: ShellBuilder)
        ensures
            r@ == (BuilderModel {
                callbacks: CallbackSet { on_exit: true, ..self@.callbacks },
                ..self@
            }),
    {
        let mut b = self;
        b.callbacks = CallbackSet { on_exit: true, ..b.callbacks };
        b
    }

    /// A callback for the end of the session is registered.
    pub fn on_close(self) -> (r: ShellBuilder)
        ensures
            r@ == (BuilderModel {
                callbacks: CallbackSet { on_close: true, ..self@.callbacks },
                ..self@
            }),
    {
        let mut b = self;
        b.callbacks = CallbackSet { on_close: true, ..b.callbacks };
        b
    }

    /// The chosen terminal, if one has been chosen.
    pub fn pty_options(&self) -> (r: Option<PtyOptions>)
        ensures
            r == chosen_pty(self@),
    {
        if self.use_pty {
            Some(self.pty_opts)
        } else {
            None
        }
    }

    /// The session with the plan to start its process.
    pub fn spawn(self) -> (r: Result<(Shell, LaunchPlan), ShellError>)
        requires
            chosen_pty(self@) matches Some(options) ==> options.startable(),
        ensures
            ({
                let path = text::trimmed(self@.path);
                if path.len() == 0 {
                    r matches Err(ShellError::EmptyShellPath)
                } else if !backend::launchable(path, self@.use_pty) {
                    r matches Err(e) && backend::refused(path, self@.use_pty, e)
                } else {
                    &&& r matches Ok((shell, plan))
                    &&& shell.wf()
                    &&& shell@ == opened(self@)
                    &&& backend::planned(plan, path, self@.callbacks.mode, chosen_pty(self@))
                }
            }),
    {
        let shell_path: String = text::trim(self.shell_path.as_str()).to_owned();
        if shell_path.as_str().is_empty() {
            return Err(ShellError::EmptyShellPath);
        }
        let output_buffer: Option<OutputBuffer> = match self.buffer_capacity {
            Some(max) => Some(OutputBuffer::new(max)),
            None => None,
        };
        let error_buffer: Option<OutputBuffer> = match self.buffer_capacity {
            Some(max) => if self.use_pty {
                None
            } else {
                Some(OutputBuffer::new(max))
            },
            None => None,
        };
        let pty_opts: Option<PtyOptions> = self.pty_options();
        let config = LaunchConfig {
            shell_path,
            callbacks: CallbackHub::new(self.callbacks),
            output_buffer,
            error_buffer,
            pty_opts,
        };
        Shell::spawn_new(config, PreSendHook::new(self.pre_send))
    }
}

/// The session that all of a program share on Unix: `bash`, with buffered output.
pub fn bash() -> (r: ShellBuilder)
    ensures
        r@ == (BuilderModel { capacity: Some(DEFAULT_BUFFER_CAPACITY), ..initial("bash"@) }),
{
    Shell::new("bash").enable_buffer()
}

/// The session that all of a program share on Windows: `powershell`, with buffered
/// output.
pub fn powershell() -> (r: ShellBuilder)
    ensures
        r@ == (BuilderModel { capacity: Some(DEFAULT_BUFFER_CAPACITY), ..initial("powershell"@) }),
{
    Shell::new("powershell").enable_buffer()
}

/// What is chosen of a terminal does not make a session a terminal session, and does
/// not matter for one on pipes.
pub proof fn only_enable_pty_makes_a_terminal(b: BuilderModel, options: PtyOptions)
    ensures
        opened(b).pty is Some <==> b.use_pty,
        !b.use_pty ==> opened(BuilderModel { options, ..b }) == opened(b),
        b.use_pty ==> opened(b).error is None,
{
}

/// At first nothing is chosen but the shell: no filter, no callback, no buffer and no
/// terminal. A terminal would have 80 columns and 24 rows, keep 2000 lines, and be
/// followed.
pub proof fn nothing_is_chosen_at_first(path: Seq<char>)
    ensures
        ({
            let b = initial(path);
            &&& b.path == path
            &&& !b.filtered
            &&& !b.callbacks.on_output && !b.callbacks.on_error
            &&& !b.callbacks.on_exit && !b.callbacks.on_close
            &&& b.callbacks.mode == CallbackMode::Raw
            &&& b.capacity is None
            &&& !b.use_pty
            &&& b.options.cols == 80 && b.options.rows == 24
            &&& b.options.scrollback == 2000 && b.options.track_screen
        }),
        DEFAULT_BUFFER_CAPACITY == 4 * 1024 * 1024,
{
}

/// A session is what was chosen: the shell at the path, without the white space around
/// it, the filter, the callbacks, empty buffers of the capacity, and the terminal. It
/// is open and in its first run. Its error stream has a buffer only on pipes.
pub proof fn a_session_is_what_was_chosen(b: BuilderModel)
    ensures
        ({
            let m = opened(b);
            &&& m.path == text::trimmed(b.path)
            &&& m.filtered == b.filtered
            &&& m.callbacks == b.callbacks
            &&& m.lifecycle == session::Lifecycle::Open
            &&& m.joinable
            &&& m.session == 0
            &&& m.output is Some <==> b.capacity is Some
            &&& m.error is Some <==> b.capacity is Some && !b.use_pty
            &&& m.output matches Some(o) ==> {
                &&& o.chunks.len() == 0
                &&& o.dropped == 0
                &&& o.capacity == b.capacity->0
            }
            &&& m.error matches Some(o) ==> {
                &&& o.chunks.len() == 0
                &&& o.dropped == 0
                &&& o.capacity == b.capacity->0
            }
            &&& m.pty is Some <==> b.use_pty
            &&& m.pty matches Some(pty) ==> {
                &&& pty.options == b.options
                &&& pty.screen is Some <==> b.options.track_screen
            }
            &&& chosen_pty(b) is Some <==> b.use_pty
            &&& chosen_pty(b) matches Some(options) ==> options == b.options
        }),
{
    backend::a_terminal_starts_as_it_was_asked_for(b.options);
    match b.capacity {
        Some(max) => {
            buffer::nothing_is_taken_twice(buffer::fresh(max as nat));
        },
        None => {},
    }
}

} // verus!
