//! State and text logic behind the terminal interface.

pub mod app;
pub mod command_bar;
pub mod editing;
pub mod incoming;
pub mod input;
pub mod layout;
pub mod mention;
pub mod modals;
pub mod pane;
pub mod presence;
pub mod render_rows;
pub mod store;
pub mod str_map;
pub mod uuid_set;
