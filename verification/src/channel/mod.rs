//! The chat channel protocol: frame references, the sequence segments a
//! client reports, and how sync responses are cut into chunks.

pub mod protocol;
pub mod sync;
