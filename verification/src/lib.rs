//! Verified core of the `agsh` agent shell: permission levels, the task list
//! kept by the `todo` tool, and the text handling behind the file, search and
//! stash tools.

pub mod permission;
pub mod replace;
pub mod stash;
pub mod subagent;
pub mod file;
pub mod find;
pub mod lines;
pub mod text;
pub mod todo;
pub mod tool;
pub mod util;
