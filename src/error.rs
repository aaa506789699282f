//! The errors of the codec and of the resolvers.
use vstd::prelude::*;

verus! {

/// The step of an exchange with an upstream server that failed.
#[derive(Debug, Clone, Copy, PartialEq, Eq, Structural)]
pub enum UpstreamStep {
    Bind,
    Connect,
    Send,
    Receive,
}

#[derive(Debug, Clone, Copy, PartialEq, Eq, Structural)]
pub enum DnsError {
    /// The buffer ends before a field that it must hold, or holds a value
    /// that the wire format forbids.
    MalformedInput,
    /// The exchange with the upstream server failed at the given step.
    UpstreamFailure(UpstreamStep),
}

} // verus!
