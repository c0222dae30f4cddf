//! SSH command lines, finding the `ssh` program, and importing OpenSSH client
//! configuration.
pub mod connect;
pub mod import;
pub mod locate;

pub use connect::{build_ssh_args, build_ssh_args_with_home, expand_tilde, expand_tilde_with};
pub use import::{merge_into, parse_ssh_config_text};
pub use locate::ssh_candidates;
