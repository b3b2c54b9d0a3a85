//! Core logic of the sqwok end-to-end encrypted chat client: group key
//! chains, message and key-bundle encryption, the channel protocol, and the
//! state behind the terminal interface.

pub mod auth;
pub mod bytes;
pub mod channel;
pub mod crypto;
pub mod net;
pub mod text;
pub mod tui;
