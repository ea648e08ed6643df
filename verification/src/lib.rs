//! Wifly: the logic of a Wi-Fi hotspot file-sharing server.
pub mod text;
pub mod format;
pub mod paths;
pub mod platform;
pub mod state;
pub mod server;
pub mod hotspot;
