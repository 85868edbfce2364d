use vstd::prelude::*;

verus! {

/// The failure conditions that the query core can report.  None of them is
/// recovered from locally: every operation aborts on its first error and the
/// caller decides what to do.
#[derive(Clone, Copy, Debug, PartialEq, Eq, Structural)]
pub enum QueryError {
    /// A requested key, value, slot or block does not exist at the query
    /// point.
    NotFound,
    /// A call to the remote chain-state service failed (network error, server
    /// error, malformed response).
    RpcFailure,
    /// A value was present but could not be interpreted as the expected typed
    /// value.
    DecodeFailure,
    /// A search was requested over a degenerate or empty block window.
    InvalidRange,
}

impl QueryError {
    /// A short human-readable description of the error.
    pub fn describe(&self) -> (r: &'static str)
        ensures
            r@ == match self {
                QueryError::NotFound => "requested item not found"@,
                QueryError::RpcFailure => "chain rpc call failed"@,
                QueryError::DecodeFailure => "failed to decode storage value"@,
                QueryError::InvalidRange => "empty block search window"@,
            },
    {
        match self {
            QueryError::NotFound => "requested item not found",
            QueryError::RpcFailure => "chain rpc call failed",
            QueryError::DecodeFailure => "failed to decode storage value",
            QueryError::InvalidRange => "empty block search window",
        }
    }
}

} // verus!
