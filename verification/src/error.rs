//! Error categories.
use vstd::prelude::*;

verus! {

/// The category of an error, as the operating system interface sorts them.
#[derive(Clone, Copy, Debug, PartialEq, Eq, Structural)]
pub enum ErrorKind {
    /// A parameter was incorrect.
    InvalidInput,
    /// Data was malformed.
    InvalidData,
    /// Time ran out.
    TimedOut,
    /// The operation is not supported.
    Unsupported,
    /// A write came to less than was asked for.
    WriteZero,
    /// Anything else.
    Other,
}

} // verus!
