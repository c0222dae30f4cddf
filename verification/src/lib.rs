//! ssh-menu: keep a list of SSH destinations, search it, build the `ssh`
//! command line for one of them, import entries from `~/.ssh/config`, and
//! drive the interactive host list.
pub mod text;
pub mod config;
pub mod ssh;
pub mod tui;
