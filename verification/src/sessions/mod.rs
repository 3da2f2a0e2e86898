//! Readers of the clients' session stores.
pub mod antigravity_cli;
pub mod hermes;
pub mod mux;
