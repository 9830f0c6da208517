//! Failures that the protocol engine reports.
use crate::models::replies::RpcError;
use vstd::prelude::*;

verus! {

#[derive(Debug)]
pub enum NetconfClientError {
    /// A reply arrived and carries `rpc-error` entries, in the order received.
    NetconfError { err: Vec<RpcError> },
    /// The stream ended, or a read gave nothing, before a message was complete.
    SSHClientError { err: String },
    /// A reply could not be read as the expected record.
    DecodeError { err: String },
}

/// The failure of a read loop that met the end of the stream, or a read of
/// nothing, before a message was complete.
pub fn stream_exhausted() -> (r: NetconfClientError)
    ensures
        r matches NetconfClientError::SSHClientError { .. },
{
    NetconfClientError::SSHClientError {
        err: String::from_str("Buffer is empty, SSH channel read terminated"),
    }
}

} // verus!
