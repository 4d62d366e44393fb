//! Launch commands very similarly to how the standard library does it, but with `git` specific
//! capabilities and adjustments.
//!
//! A command is described with [`prepare()`] and the builder methods of [`Prepare`], and
//! [`Command::from()`] turns the description into the program, arguments and environment of the
//! process to spawn. Whatever has to be known of the outside world for that is handed in by the
//! caller, who also does the spawning.
//!
//! Commands, arguments and paths are byte strings. On Unix these are the bytes that the operating
//! system uses, and on Windows they are UTF-8.

pub mod bytes;
pub mod command;
pub mod context;
pub mod file_promises;
pub mod laws;
pub mod path;
pub mod prepare;
pub mod promises;
pub mod shebang;
pub mod shell;

pub use command::{Command, Host, CREATE_NO_WINDOW};
pub use context::Context;
pub use path::{extract_interpreter, win_path_lookup, Lookup, Script, HEAD_LEN};
pub use prepare::{prepare, Prepare, Stdio};
