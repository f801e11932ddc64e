//! Address resolution for a line-oriented text editor in the tradition of `ed`.
//!
//! A command line starts with an optional address expression, such as `1,$`
//! or `.;+`, and goes on with a command letter. The [`addressing`] module scans
//! the expression into tokens and folds the tokens into the line range that
//! the command works on. The [`state`] module holds the session state that the
//! range is resolved against, and [`command`] says what a command letter asks
//! for.

pub mod addressing;
pub mod command;
pub mod state;

pub use command::{execute_commands, Action};
pub use state::{EditorConfig, EditorState, Mode, StateView};
