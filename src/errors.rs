use vstd::prelude::*;

verus! {

/// Failures surfaced by the bridge to its caller.
#[derive(Debug)]
pub enum HissError {
    /// The transport or the handshake failed while connecting.
    Transport(String),
    /// The server rejected a batch, or its response was malformed.
    Protocol(String),
    /// The handle is not in the registry: it was closed or never issued.
    ConnectionClosed,
    /// A parameter value cannot be rendered as a literal.
    Encoding(String),
}

} // verus!
