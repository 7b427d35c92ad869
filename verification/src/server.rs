//! The server.
pub mod auth;
pub mod db;
pub mod laws;
pub mod state;
pub mod ws;
