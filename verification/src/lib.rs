pub mod bot;
pub mod dispatching;
pub mod network;
pub mod requests;
pub mod types;
pub mod utils;
