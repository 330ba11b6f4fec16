//! What the library reads of an I/O error.

use vstd::prelude::*;

verus! {

/// The kinds of I/O error that the library tells apart.
#[derive(Copy, Clone, Debug, PartialEq, Eq, Structural)]
pub enum ErrorClass {
    /// The operation was interrupted and can be tried again.
    Interrupted,
    /// The operation would have had to wait.
    WouldBlock,
    /// A write accepted no byte.
    WriteZero,
    /// The data is malformed.
    InvalidData,
    /// Any other kind.
    Other,
}

/// The class of the kind that `std::io::Error::kind` gives for the error.
pub uninterp spec fn error_class(error: std::io::Error) -> ErrorClass;

/// `std::io::Error::kind`: the kind of the error, as one of the classes that
/// the library tells apart.
#[verifier::external_body]
pub(crate) fn class_of(error: &std::io::Error) -> (r: ErrorClass)
    ensures
        r == error_class(*error),
{
    match error.kind() {
        std::io::ErrorKind::Interrupted => ErrorClass::Interrupted,
        std::io::ErrorKind::WouldBlock => ErrorClass::WouldBlock,
        std::io::ErrorKind::WriteZero => ErrorClass::WriteZero,
        std::io::ErrorKind::InvalidData => ErrorClass::InvalidData,
        _ => ErrorClass::Other,
    }
}

} // verus!
