# shell_engine

A persistent, long-lived shell session manager whose decisions are proved with
Verus.

`src/` is the library. It is synchronous and does no input or output: it decides,
and the caller acts.

- `decode`, `util`, `text`: bytes to text, paths to shell names, strings
- `exec`: the command line of a one-shot command, and its result
- `shell::profile`: how each shell is started, told to use UTF-8 and asked to leave
- `shell::buffer`: the bounded output buffer
- `shell::callbacks`: which callback is to be called with what
- `shell::stream`: an output stream cut into chunks or lines
- `shell::control`: commands, shortcuts and control characters
- `shell::search`: what a session wrote, and the search for a text in it
- `shell::backend`, `shell::builder`, `shell::session`: configuring, starting,
  driving, restarting and closing a session
- `pipe`, `pty`, `supervisor`: the tasks around a process, step by step
- `screen`: the screen of a terminal session, followed by the `vt100` emulator
- `xterm`: what the messages of a terminal in a browser mean

`app/` performs the actions with `tokio` and `rust_pty`, and serves a terminal to a
browser with `axum`.
