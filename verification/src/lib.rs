//! Connection logic of a 360° video server with a user-space task scheduler:
//! byte-range parsing, request classification, response headers, the
//! per-connection streaming state machine, and the connection counter.

pub mod counter;
pub mod decimal;
pub mod errors;
pub mod http;
pub mod range;
pub mod stream;
