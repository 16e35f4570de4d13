//! A small task-list library: tasks are lines of text kept in a flat file,
//! one task per line. This crate holds the verified core: the line-based
//! file format (parsing and rendering), index-based removal, and the
//! command dispatcher as a pure function from arguments and loaded tasks
//! to a file effect and output lines. All file I/O lives outside.

pub mod codec;
pub mod command;
pub mod num;
pub mod store;
pub mod text;

pub use codec::{parse_content, render_task_line, render_tasks};
pub use command::{apply_effect, execute_command, FileEffect, Outcome};
pub use num::{parse_index, usize_to_string};
pub use store::{remove_at, StoreError};
pub use text::{join_words, str_eq};
