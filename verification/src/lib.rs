//! Keyboard input encoding and decoding for terminal panes.
pub mod text;
pub mod keys;
pub mod decode;
pub mod encode;
pub mod laws;
pub mod platform;
pub mod session;
