use vstd::prelude::*;

verus! {

/// The failures this library reports to its callers.
///
/// Every failure is surfaced to the immediate caller as a value of this
/// type; nothing is retried and nothing is swallowed.
#[derive(Debug, PartialEq, Eq)]
pub enum SendgridError {
    /// An attachment's file could not be read. Carries the text of the
    /// reading error.
    IoError(String),
    /// An attachment's path could not be rendered as UTF-8.
    InvalidFilename,
    /// The HTTP transport failed. Carries the text of the transport error.
    TransportError(String),
}

} // verus!
