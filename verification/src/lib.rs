//! A personal task tracker as a verified library.
//!
//! - [`task`]: a to-do item and the line that a listing shows for it.
//! - [`model`]: the task list as a mathematical value, with the laws of
//!   adding, deleting and completing.
//! - [`list`]: the executable task list, which follows the model.
//! - [`text`]: trimming a line of input, reading an id, writing a number.
//! - [`logger`]: the text of an entry of the audit log.
//! - [`command`]: the menu-driven command loop as a state machine from a
//!   line of input to the next state and the effects to carry out.
//!
//! The library neither reads nor writes files or the console: a caller hands
//! it the lines that it read and carries out the effects that it gets back.

pub mod command;
pub mod list;
pub mod logger;
pub mod model;
pub mod task;
pub mod text;
