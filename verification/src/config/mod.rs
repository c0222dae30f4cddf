//! The saved configuration and its data model.
pub mod model;
pub mod usage;

pub use model::{Config, Host, HostView};
