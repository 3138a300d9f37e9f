//! The error taxonomy of the RPC layer.

use vstd::prelude::*;

verus! {

/// Every fallible step of the RPC layer reports one of these kinds, so a
/// caller can tell a broken network from a broken payload from a remote
/// business failure.
#[derive(Debug)]
pub enum RpcError {
    /// Network, connection or non-2xx HTTP failure.
    TransportFailure { detail: String },
    /// A body that is not well-formed XML.
    MalformedXml { detail: String },
    /// An expected structural path segment was absent from a well-formed
    /// tree; carries the missing segment and the names of the children that
    /// were actually available at that point.
    MissingElement { segment: String, available: Vec<String> },
    /// The server reported an RPC-level fault inside a well-formed response.
    RemoteFault { code: String, message: String },
    /// The requested operation is not in the discovered operation table.
    UnknownOperation { name: String },
}

} // verus!
