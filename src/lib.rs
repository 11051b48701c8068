//! A dotfile installer's engine: tag rules that select manifest steps, the
//! layout of a remote staging tree, and the ordered list of actions that an
//! installation performs.

pub mod text;
pub mod tags;
pub mod manifest;
pub mod paths;
pub mod ssh;
pub mod install;
