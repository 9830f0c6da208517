//! A client-side NETCONF protocol engine: request envelopes, reply
//! classification, message framing and session bookkeeping.
pub mod codec;
pub mod errors;
pub mod framer;
pub mod models;
pub mod reply;
pub mod request_reader;
pub mod session;
pub mod text;
