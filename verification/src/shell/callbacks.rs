//! Which callback a session calls for what happens to it.
//!
//! The callbacks themselves belong to the caller. The library knows which of
//! them are registered and says which one is to be called, and with what.

use vstd::prelude::*;

verus! {

/// How much text one output callback gets.
#[derive(Debug, Clone, Copy, PartialEq, Eq, Structural)]
pub enum CallbackMode {
    /// Whatever a read brought, at once.
    Raw,
    /// One line at a time; an unfinished line when nothing follows it for a while.
    Line,
}

impl Default for CallbackMode {
    fn default() -> (r: CallbackMode)
        ensures
            r == CallbackMode::Raw,
    {
        CallbackMode::Raw
    }
}

/// The callbacks that are registered.
#[derive(Debug, Clone, Copy, PartialEq, Eq, Structural)]
pub struct CallbackSet {
    pub on_output: bool,
    pub on_error: bool,
    pub on_exit: bool,
    pub on_close: bool,
    pub mode: CallbackMode,
}

impl Default for CallbackSet {
    fn default() -> (r: CallbackSet)
        ensures
            r == (CallbackSet {
                on_output: false,
                on_error: false,
                on_exit: false,
                on_close: false,
                mode: CallbackMode::Raw,
            }),
    {
        CallbackSet {
            on_output: false,
            on_error: false,
            on_exit: false,
            on_close: false,
            mode: CallbackMode::Raw,
        }
    }
}

/// A call that the caller is to make.
#[derive(Debug)]
pub enum CallbackCall {
    /// `on_output` with this text.
    Output(String),
    /// `on_error` with this text.
    Error(String),
    /// `on_exit` with this exit code.
    Exit(Option<i32>),
    /// `on_close`.
    Close,
}

/// The callbacks of one session.
#[derive(Debug, Clone, Copy)]
pub struct CallbackHub {
    callbacks: CallbackSet,
}

impl View for CallbackHub {
    type V = CallbackSet;

    closed spec fn view(&self) -> CallbackSet {
        self.callbacks
    }
}

/// The call that text brings, where it is for a registered callback.
pub open spec fn output_call(callbacks: CallbackSet, is_stderr: bool, text: String) -> Option<
    CallbackCall,
> {
    if is_stderr {
        if callbacks.on_error {
            Some(CallbackCall::Error(text))
        } else {
            None
        }
    } else {
        if callbacks.on_output {
            Some(CallbackCall::Output(text))
        } else {
            None
        }
    }
}

impl CallbackHub {
    /// The hub of a session with these callbacks.
    pub fn new(callbacks: CallbackSet) -> (r: CallbackHub)
        ensures
            r@ == callbacks,
    {
        CallbackHub { callbacks }
    }

    /// How much text one output callback gets.
    pub fn mode(&self) -> (r: CallbackMode)
        ensures
            r == self@.mode,
    {
        self.callbacks.mode
    }

    /// The call for a process that ended by itself with `code`.
    pub fn fire_exit(&self, code: Option<i32>) -> (r: Option<CallbackCall>)
        ensures
            r == (if self@.on_exit {
                Some(CallbackCall::Exit(code))
            } else {
                None
            }),
    {
        if self.callbacks.on_exit {
            Some(CallbackCall::Exit(code))
        } else {
            None
        }
    }

    /// The call for a session that is over.
    pub fn fire_close(&self) -> (r: Option<CallbackCall>)
        ensures
            r == (if self@.on_close {
                Some(CallbackCall::Close)
            } else {
                None
            }),
    {
        if self.callbacks.on_close {
            Some(CallbackCall::Close)
        } else {
            None
        }
    }

    /// The call for `text` of one of the two output streams.
    pub fn fire_output(&self, text: String, is_stderr: bool) -> (r: Option<CallbackCall>)
        ensures
            r == output_call(self@, is_stderr, text),
    {
        if is_stderr {
            if self.callbacks.on_error {
                Some(CallbackCall::Error(text))
            } else {
                None
            }
        } else if self.callbacks.on_output {
            Some(CallbackCall::Output(text))
        } else {
            None
        }
    }
}

/// What is to be done with a command before it is sent.
#[derive(Debug)]
pub enum PreSend {
    /// Ask the registered filter what to send in its place, if anything.
    Ask(String),
    /// Send it as it is.
    Forward(String),
}

/// The filter for commands, registered or not.
#[derive(Debug, Clone, Copy)]
pub struct PreSendHook {
    registered: bool,
}

impl View for PreSendHook {
    type V = bool;

    /// Whether a filter is registered.
    closed spec fn view(&self) -> bool {
        self.registered
    }
}

impl PreSendHook {
    /// A hook with or without a filter.
    pub fn new(registered: bool) -> (r: PreSendHook)
        ensures
            r@ == registered,
    {
        PreSendHook { registered }
    }

    /// Passes `raw` through the hook.
    pub fn process(&self, raw: String) -> (r: PreSend)
        ensures
            r == (if self@ {
                PreSend::Ask(raw)
            } else {
                PreSend::Forward(raw)
            }),
    {
        if self.registered {
            PreSend::Ask(raw)
        } else {
            PreSend::Forward(raw)
        }
    }
}

/// Output brings a call exactly if the callback of its stream is registered, and then
/// that one, with the text: text of the error stream never reaches the callback for
/// output, and the other way round.
pub proof fn each_stream_has_its_callback(callbacks: CallbackSet, is_stderr: bool, text: String)
    ensures
        match output_call(callbacks, is_stderr, text) {
            Some(CallbackCall::Output(s)) => s == text && !is_stderr && callbacks.on_output,
            Some(CallbackCall::Error(s)) => s == text && is_stderr && callbacks.on_error,
            Some(_) => false,
            None => if is_stderr {
                !callbacks.on_error
            } else {
                !callbacks.on_output
            },
        },
{
}

} // verus!
