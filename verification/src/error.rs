//! The failure kinds of version discovery and resolution.

use vstd::prelude::*;

verus! {

/// Everything that can go wrong while discovering or resolving a version.
///
/// `FetchFailed` and `FetchTimeout` report a failed or timed-out index fetch
/// and are the retryable kinds; they are produced by the I/O layer around the
/// library, never by the library itself. The remaining kinds are final: the
/// requested version string has the wrong shape, a well-formed version is not
/// in the discovered set, or a discovered token cannot be decomposed into a
/// numeric triple.
#[derive(Clone, Copy, Debug, PartialEq, Eq, Structural)]
pub enum VersionError {
    FetchFailed,
    FetchTimeout,
    InvalidVersionFormat,
    VersionNotAvailable,
    MalformedVersionToken,
}

impl VersionError {
    /// The one-line human-readable message for this failure kind.
    pub open spec fn spec_message(self) -> Seq<char> {
        match self {
            VersionError::FetchFailed => "failed to fetch the version index"@,
            VersionError::FetchTimeout => "timed out fetching the version index"@,
            VersionError::InvalidVersionFormat => "invalid version string"@,
            VersionError::VersionNotAvailable => "version not available"@,
            VersionError::MalformedVersionToken => "malformed version token"@,
        }
    }

    /// A one-line human-readable message per failure kind.
    pub fn message(&self) -> (r: &'static str)
        ensures
            r@ == self.spec_message(),
    {
        match self {
            VersionError::FetchFailed => "failed to fetch the version index",
            VersionError::FetchTimeout => "timed out fetching the version index",
            VersionError::InvalidVersionFormat => "invalid version string",
            VersionError::VersionNotAvailable => "version not available",
            VersionError::MalformedVersionToken => "malformed version token",
        }
    }

    /// Whether retrying the same invocation could succeed: only the transport
    /// failures are retryable; the other kinds need a different input.
    pub fn is_retryable(&self) -> (r: bool)
        ensures
            r == (self is FetchFailed || self is FetchTimeout),
    {
        match self {
            VersionError::FetchFailed => true,
            VersionError::FetchTimeout => true,
            _ => false,
        }
    }
}

} // verus!
