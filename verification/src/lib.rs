//! Tips for shell aliases: given the aliases that a shell knows and a command
//! line, find the shorter way to write the command, or expand an alias that the
//! command begins with.

pub mod advice;
pub mod alias;
pub mod classify;
pub mod expand;
pub mod extract;
pub mod git;
pub mod order;
pub mod text;
pub mod tip;

pub use crate::alias::Alias;
pub use crate::classify::split_input;
pub use crate::expand::expand_input;
pub use crate::extract::parse_aliases;
pub use crate::tip::find_alias;
