//! What a request can be refused with.

use vstd::prelude::*;

use crate::text;

verus! {

broadcast use vstd::string::group_string_axioms;

/// A request that only a terminal session can serve.
#[derive(Debug, Clone, Copy, PartialEq, Eq, Structural)]
pub enum PtyRequest {
    Snapshot,
    ScreenClone,
    Resize,
    Signal,
}

/// A message on its way to a session.
#[derive(Debug, Clone, Copy, PartialEq, Eq, Structural)]
pub enum Request {
    Command,
    Eof,
    ControlChar,
    Delete,
    Resize,
    Signal,
}

/// Why a request was refused or failed.
#[derive(Debug)]
pub enum ShellError {
    /// No shell was named.
    EmptyShellPath,
    /// A path that names no program.
    InvalidShellPath(String),
    /// A shell that the library does not know.
    UnsupportedShell(String),
    /// A command that ended with another exit code than zero, with what it wrote
    /// to its error stream.
    CommandFailed(String),
    /// A command that ran for longer than this.
    CommandTimedOut(String),
    /// The session is closed.
    Closed,
    /// The session has no terminal.
    RequiresPty(PtyRequest),
    /// The session does not follow its screen.
    ScreenTrackingDisabled,
    /// Nobody takes messages any more.
    NotDelivered(Request),
    /// The task that watches the session broke off.
    JoinFailed(String),
}

/// The words for a missing terminal.
pub open spec fn requires_pty_text(request: PtyRequest) -> Seq<char> {
    match request {
        PtyRequest::Snapshot => "output_snapshot() requires enable_pty()"@,
        PtyRequest::ScreenClone => "screen_clone() requires enable_pty()"@,
        PtyRequest::Resize => "resize() requires enable_pty()"@,
        PtyRequest::Signal => "send_signal() requires enable_pty()"@,
    }
}

/// The words for a message that was not delivered.
pub open spec fn not_delivered_text(request: Request) -> Seq<char> {
    match request {
        Request::Command => "send failed: stdin channel closed"@,
        Request::Eof => "send EOF failed"@,
        Request::ControlChar => "send control char failed: stdin channel closed"@,
        Request::Delete => "send DEL failed: stdin channel closed"@,
        Request::Resize => "resize failed: stdin channel closed"@,
        Request::Signal => "signal channel closed"@,
    }
}

/// The words for an error.
pub open spec fn message_text(error: ShellError) -> Seq<char> {
    match error {
        ShellError::EmptyShellPath => "shell path cannot be empty"@,
        ShellError::InvalidShellPath(path) => "invalid shell path: "@ + path@,
        ShellError::UnsupportedShell(name) => "unsupported shell: "@ + name@,
        ShellError::CommandFailed(stderr) => stderr@,
        ShellError::CommandTimedOut(limit) => "command timed out after "@ + limit@ + " "@,
        ShellError::Closed => "shell is closed"@,
        ShellError::RequiresPty(request) => requires_pty_text(request),
        ShellError::ScreenTrackingDisabled =>
            "screen tracking is disabled; remove disable_snapshot() to use this feature"@,
        ShellError::NotDelivered(request) => not_delivered_text(request),
        ShellError::JoinFailed(reason) => "join_exit failed: "@ + reason@,
    }
}

impl ShellError {
    /// The error in words.
    pub fn message(&self) -> (r: String)
        ensures
            r@ == message_text(*self),
    {
        match self {
            ShellError::EmptyShellPath => "shell path cannot be empty".to_owned(),
            ShellError::InvalidShellPath(path) => text::joined(
                "invalid shell path: ",
                path.as_str(),
            ),
            ShellError::UnsupportedShell(name) => text::joined(
                "unsupported shell: ",
                name.as_str(),
            ),
            ShellError::CommandFailed(stderr) => stderr.as_str().to_owned(),
            ShellError::CommandTimedOut(limit) => text::joined(
                text::joined("command timed out after ", limit.as_str()).as_str(),
                " ",
            ),
            ShellError::Closed => "shell is closed".to_owned(),
            ShellError::RequiresPty(request) => match request {
                PtyRequest::Snapshot => "output_snapshot() requires enable_pty()".to_owned(),
                PtyRequest::ScreenClone => "screen_clone() requires enable_pty()".to_owned(),
                PtyRequest::Resize => "resize() requires enable_pty()".to_owned(),
                PtyRequest::Signal => "send_signal() requires enable_pty()".to_owned(),
            },
            ShellError::ScreenTrackingDisabled =>
                "screen tracking is disabled; remove disable_snapshot() to use this feature".to_owned(),
            ShellError::NotDelivered(request) => match request {
                Request::Command => "send failed: stdin channel closed".to_owned(),
                Request::Eof => "send EOF failed".to_owned(),
                Request::ControlChar =>
                    "send control char failed: stdin channel closed".to_owned(),
                Request::Delete => "send DEL failed: stdin channel closed".to_owned(),
                Request::Resize => "resize failed: stdin channel closed".to_owned(),
                Request::Signal => "signal channel closed".to_owned(),
            },
            ShellError::JoinFailed(reason) => text::joined("join_exit failed: ", reason.as_str()),
        }
    }
}

/// The outcome of handing over a message: an error where nobody took it.
pub fn delivery(request: Request, delivered: bool) -> (r: Result<(), ShellError>)
    ensures
        r == (if delivered {
            Ok(())
        } else {
            Err(ShellError::NotDelivered(request))
        }),
{
    if delivered {
        Ok(())
    } else {
        Err(ShellError::NotDelivered(request))
    }
}

/// An error in words says what it is about: the path, the shell, the time or the reason
/// stands in it as it is. A command that failed speaks for itself, in the words of its
/// error stream.
pub proof fn errors_say_what_they_are_about(error: ShellError)
    ensures
        message_text(error) == (match error {
            ShellError::CommandFailed(s) => s@,
            ShellError::InvalidShellPath(s) => "invalid shell path: "@ + s@,
            ShellError::UnsupportedShell(s) => "unsupported shell: "@ + s@,
            ShellError::JoinFailed(s) => "join_exit failed: "@ + s@,
            ShellError::CommandTimedOut(s) => "command timed out after "@ + s@ + seq![' '],
            ShellError::EmptyShellPath => "shell path cannot be empty"@,
            ShellError::Closed => "shell is closed"@,
            ShellError::ScreenTrackingDisabled =>
                "screen tracking is disabled; remove disable_snapshot() to use this feature"@,
            ShellError::NotDelivered(Request::Eof) => "send EOF failed"@,
            ShellError::NotDelivered(Request::Signal) => "signal channel closed"@,
            ShellError::NotDelivered(request) => (match request {
                Request::Command => "send"@,
                Request::ControlChar => "send control char"@,
                Request::Delete => "send DEL"@,
                _ => "resize"@,
            }) + " failed: stdin channel closed"@,
            ShellError::RequiresPty(request) => message_text(error),
        }),
        error matches ShellError::RequiresPty(request) ==> {
            let words = message_text(error);
            let end = "() requires enable_pty()"@;
            &&& words.len() > end.len()
            &&& words.skip(words.len() - end.len()) == end
            &&& words.take(words.len() - end.len()) == (match request {
                PtyRequest::Snapshot => "output_snapshot"@,
                PtyRequest::ScreenClone => "screen_clone"@,
                PtyRequest::Resize => "resize"@,
                PtyRequest::Signal => "send_signal"@,
            })
        },
{
    reveal_strlit(" ");
    assert(" "@ == seq![' ']);
    lemma_not_delivered();
    reveal_strlit("() requires enable_pty()");
    reveal_strlit("output_snapshot() requires enable_pty()");
    reveal_strlit("screen_clone() requires enable_pty()");
    reveal_strlit("resize() requires enable_pty()");
    reveal_strlit("send_signal() requires enable_pty()");
    reveal_strlit("output_snapshot");
    reveal_strlit("screen_clone");
    reveal_strlit("resize");
    reveal_strlit("send_signal");
    if let ShellError::RequiresPty(request) = error {
        let words = message_text(error);
        let end = "() requires enable_pty()"@;
        assert(words.skip(words.len() - end.len()) == end);
        let start = words.take(words.len() - end.len());
        match request {
            PtyRequest::Snapshot => {
                assert(start == "output_snapshot"@);
            },
            PtyRequest::ScreenClone => {
                assert(start == "screen_clone"@);
            },
            PtyRequest::Resize => {
                assert(start == "resize"@);
            },
            PtyRequest::Signal => {
                assert(start == "send_signal"@);
            },
        }
    }
}

/// What was to be sent is named before the reason.
proof fn lemma_not_delivered()
    ensures
        not_delivered_text(Request::Command) == "send"@ + " failed: stdin channel closed"@,
        not_delivered_text(Request::ControlChar) == "send control char"@
            + " failed: stdin channel closed"@,
        not_delivered_text(Request::Delete) == "send DEL"@ + " failed: stdin channel closed"@,
        not_delivered_text(Request::Resize) == "resize"@ + " failed: stdin channel closed"@,
{
    reveal_strlit(" failed: stdin channel closed");
    reveal_strlit("send");
    reveal_strlit("send control char");
    reveal_strlit("send DEL");
    reveal_strlit("resize");
    reveal_strlit("send failed: stdin channel closed");
    reveal_strlit("send control char failed: stdin channel closed");
    reveal_strlit("send DEL failed: stdin channel closed");
    reveal_strlit("resize failed: stdin channel closed");
    assert("send failed: stdin channel closed"@ == "send"@ + " failed: stdin channel closed"@);
    assert("send control char failed: stdin channel closed"@ == "send control char"@
        + " failed: stdin channel closed"@);
    assert("send DEL failed: stdin channel closed"@ == "send DEL"@
        + " failed: stdin channel closed"@);
    assert("resize failed: stdin channel closed"@ == "resize"@
        + " failed: stdin channel closed"@);
}

} // verus!
