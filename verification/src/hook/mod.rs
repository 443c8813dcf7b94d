//! What the hook inside Zed decides.
pub mod config;
pub mod discovery;
pub mod picker_sort;
pub mod socket_server;
pub mod sqlite3_bind;
pub mod sqlite3_prepare;
pub mod startup;
pub mod symbols;
pub mod sync;
