//! Calendar arithmetic over ISO weeks and a fixed-width month grid renderer.
pub mod error;
pub mod date;
pub mod week;
pub mod month;
pub mod render;
pub mod layout;
pub mod command;
