//! Authentication tokens: what is signed and how the parts are joined.

pub mod token;
