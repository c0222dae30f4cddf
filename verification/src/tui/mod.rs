//! The interactive host list: form state, list order, application state and
//! key handling. Drawing and the terminal loop live with the program.
pub mod app;
pub mod events;
pub mod form;
pub mod sort;
pub mod view;
