//! Wire-protocol codecs and request engines for two small servers: a DNS
//! message codec with a local reply builder and a forwarding merge step, and a
//! RESP streaming decoder, encoder and command engine over a key/value store.

pub mod text;
pub mod dns;
pub mod resp;
pub mod rdb;
pub mod config;
