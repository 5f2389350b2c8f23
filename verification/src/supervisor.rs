//! Watching the process of a session until it is gone.

use vstd::prelude::*;

use crate::shell::callbacks::{CallbackCall, CallbackHub, CallbackSet};
use crate::shell::session::PtySignal;

verus! {

/// How many signals wait for the watching task before a sender has to.
pub const SIGNAL_QUEUE: usize = 8;

/// What a process that is watched goes through.
#[derive(Debug, Clone, Copy, PartialEq, Eq, Structural)]
pub enum ChildEvent {
    /// It ended by itself, with this exit code, if it had one.
    Exited(Option<i32>),
    /// The session let go of it.
    Released,
    /// A signal for it came; none comes any more when all senders are gone.
    Signal(Option<PtySignal>),
}

/// What the watching task does.
#[derive(Debug)]
pub struct SuperviseStep {
    /// End the process and wait for it.
    pub kill: bool,
    /// Hand this signal to the process.
    pub signal: Option<PtySignal>,
    /// Call this callback.
    pub call: Option<CallbackCall>,
    /// Stop watching: wait until the streams of the process are done, then call the
    /// callback of `supervised`.
    pub done: bool,
}

/// What to do for an event of the process. Only a process that ended by itself is
/// reported as ended; one that the session let go of is ended without a word.
pub fn run_supervisor(callbacks: &CallbackHub, event: ChildEvent) -> (r: SuperviseStep)
    ensures
        r == (match event {
            ChildEvent::Exited(code) => SuperviseStep {
                kill: false,
                signal: None,
                call: if callbacks@.on_exit {
                    Some(CallbackCall::Exit(code))
                } else {
                    None
                },
                done: true,
            },
            ChildEvent::Released => SuperviseStep {
                kill: true,
                signal: None,
                call: None,
                done: true,
            },
            ChildEvent::Signal(signal) => SuperviseStep {
                kill: false,
                signal,
                call: None,
                done: false,
            },
        }),
{
    match event {
        ChildEvent::Exited(code) => SuperviseStep {
            kill: false,
            signal: None,
            call: callbacks.fire_exit(code),
            done: true,
        },
        ChildEvent::Released => SuperviseStep { kill: true, signal: None, call: None, done: true },
        ChildEvent::Signal(signal) => SuperviseStep {
            kill: false,
            signal,
            call: None,
            done: false,
        },
    }
}

/// The callback to call when nothing of the process is left.
pub fn supervised(callbacks: &CallbackHub) -> (r: Option<CallbackCall>)
    ensures
        r == (if callbacks@.on_close {
            Some(CallbackCall::Close)
        } else {
            None
        }),
{
    callbacks.fire_close()
}

/// The calls of at most one callback.
pub open spec fn called(call: Option<CallbackCall>) -> Seq<CallbackCall> {
    match call {
        Some(call) => seq![call],
        None => Seq::empty(),
    }
}

/// All callbacks about the end of a process that goes through `events`, in order.
pub open spec fn end_calls(callbacks: CallbackSet, events: Seq<ChildEvent>) -> Seq<CallbackCall>
    decreases events.len(),
{
    let close = called(
        if callbacks.on_close {
            Some(CallbackCall::Close)
        } else {
            None
        },
    );
    if events.len() == 0 {
        Seq::empty()
    } else {
        match events[0] {
            ChildEvent::Exited(code) => called(
                if callbacks.on_exit {
                    Some(CallbackCall::Exit(code))
                } else {
                    None
                },
            ) + close,
            ChildEvent::Released => close,
            ChildEvent::Signal(signal) => end_calls(callbacks, events.drop_first()),
        }
    }
}

/// However many signals came before, a process that ends by itself is reported once
/// as ended and then once as closed, and one that the session let go of only as
/// closed; whatever comes later is reported no more.
pub proof fn an_end_is_reported_once(
    callbacks: CallbackSet,
    signals: Seq<ChildEvent>,
    end: ChildEvent,
    later: Seq<ChildEvent>,
)
    requires
        callbacks.on_exit,
        callbacks.on_close,
        forall|i: int| 0 <= i < signals.len() ==> #[trigger] signals[i] is Signal,
        !(end is Signal),
    ensures
        end_calls(callbacks, signals.push(end) + later) == (match end {
            ChildEvent::Exited(code) => seq![CallbackCall::Exit(code), CallbackCall::Close],
            _ => seq![CallbackCall::Close],
        }),
    decreases signals.len(),
{
    let all = signals.push(end) + later;
    if signals.len() == 0 {
        assert(all[0] == end);
        match end {
            ChildEvent::Exited(code) => {
                assert(seq![CallbackCall::Exit(code)] + seq![CallbackCall::Close]
                    == seq![CallbackCall::Exit(code), CallbackCall::Close]);
            },
            _ => {},
        }
    } else {
        let rest = signals.drop_first();
        assert(all[0] == signals[0]);
        assert(all.drop_first() == rest.push(end) + later);
        assert forall|i: int| 0 <= i < rest.len() implies #[trigger] rest[i] is Signal by {
            assert(rest[i] == signals[i + 1]);
        }
        an_end_is_reported_once(callbacks, rest, end, later);
    }
}

} // verus!
