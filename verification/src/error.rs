//! The error type shared by every decoding entry point.

use vstd::prelude::*;

verus! {

/// Decoding failure: the buffer ended before the structure it declares.
///
/// A malformed datagram is an expected, recoverable condition; every decode
/// entry point reports it through this type rather than panicking.
#[derive(Clone, Copy, Debug, PartialEq, Eq, Structural)]
pub enum DnsError {
    /// The buffer is shorter than required at some decode step: header,
    /// label, type/class, ttl/rdata length, or rdata.
    MessageIncomplete,
}

} // verus!
