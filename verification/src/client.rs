//! The client.
pub mod commands;
pub mod crypto;
pub mod db;
pub mod http_auth;
pub mod laws;
pub mod state;
pub mod ws;
