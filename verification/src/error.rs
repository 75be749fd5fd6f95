use vstd::prelude::*;

verus! {

/// Error taxonomy of the messaging core.
///
/// `CryptoError` is fatal to the single operation that raised it;
/// `SessionNotFound` is recoverable by establishing a session first;
/// `ChatError` carries protocol-level complaints verbatim; `TlsError`
/// only occurs while preparing the transport identity.
#[derive(Debug, Clone)]
pub enum ArchivistError {
    CryptoError(String),
    SessionNotFound(String),
    ChatError(String),
    TlsError(String),
    IptvError(String),
    DebridError(String),
}

} // verus!
