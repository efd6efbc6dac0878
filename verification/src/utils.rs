pub mod command;
pub mod render;
