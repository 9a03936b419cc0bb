use vstd::prelude::*;

verus! {

/// The error kinds this library reports to its callers.
///
/// Runtime errors are always returned, never swallowed; where an
/// operation owns a resource that survives the failure, the resource is
/// handed back beside the error.
#[derive(Debug)]
pub enum IoError {
    /// A consuming read reached end-of-stream before its target
    /// condition was satisfied.
    ConnectionReset,
    /// A peek could not fill its destination before the source was
    /// exhausted. The bytes already peeked remain in the wrapper.
    UnexpectedEof,
    /// Any other failure of the underlying stream, carried verbatim as
    /// its description.
    Other(String),
}

/// Builds the catch-all error kind from a description.
pub fn other_error(desc: &str) -> (r: IoError)
    ensures
        r matches IoError::Other(m) && m@ == desc@,
{
    IoError::Other(desc.to_owned())
}

} // verus!
