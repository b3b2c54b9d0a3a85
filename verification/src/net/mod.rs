//! Decisions of the network layer: reconnect pacing, keepalive and invite codes.

pub mod invites;
pub mod reconnect;
pub mod registration;
