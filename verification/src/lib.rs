//! A relay chat.
pub mod client;
pub mod laws;
pub mod outside;
pub mod protocol;
pub mod server;
pub mod table;
pub mod text;
pub mod util;
