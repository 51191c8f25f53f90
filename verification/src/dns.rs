//! DNS messages: header, question and resource-record codecs, and the
//! functions that answer or forward a query.

pub mod enums;
pub mod util;
pub mod header;
pub mod question;
pub mod rr;
pub mod request;
pub mod response;
pub mod message;
pub mod forward;
pub mod laws;

pub use enums::{Class, QType};
pub use message::{parse_into_req, parse_into_res, reply};
