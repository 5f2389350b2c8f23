//! A persistent, long-lived shell session manager.
//!
//! The library decides: how a shell is started, what is written to it, how its
//! bytes become text and text becomes callbacks, what a bounded buffer keeps,
//! and which requests a session accepts in which state. The processes, pipes,
//! terminals, timers and locks around it belong to the caller, who performs the
//! actions that the library hands out and reports back what happened.

pub mod decode;
pub mod error;
pub mod exec;
pub mod pipe;
pub mod pty;
pub mod screen;
pub mod shell;
pub mod supervisor;
pub mod text;
pub mod util;
pub mod xterm;

pub use error::ShellError;
pub use shell::{bash, powershell};
pub use shell::{CallbackMode, OutputBuffer, PtySignal, Shell, ShellBuilder, ShellOutput};
