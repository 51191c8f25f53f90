//! RESP: the value type, the streaming decoder and its rules, the encoder,
//! and the command engine with its store.

pub mod types;
pub mod decimal;
pub mod buffer;
pub mod rules;
pub mod codec;
pub mod store;
pub mod commands;
pub mod laws;
pub mod incremental;
