//! The record types of the protocol: requests sent and replies received.
pub mod replies;
pub mod requests;
