//! Shell sessions: how one is configured, started, driven and closed.

pub mod backend;
pub mod buffer;
pub mod builder;
pub mod callbacks;
pub mod control;
pub mod profile;
pub mod search;
pub mod session;
pub mod stream;

pub use buffer::OutputBuffer;
pub use builder::{bash, powershell, ShellBuilder};
pub use callbacks::CallbackMode;
pub use control::parse_control_shortcut;
pub use search::ShellOutput;
pub use session::{PtySignal, Shell};
