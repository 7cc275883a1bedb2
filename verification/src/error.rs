//! The failures of the codec.

use std::num::TryFromIntError;
use vstd::prelude::*;
use vstd::std_specs::convert::FromSpecImpl;

verus! {

/// `std::io::Error`, carried through as it is: nothing inside it is seen.
#[verifier::external_type_specification]
#[verifier::external_body]
pub struct ExIoError(std::io::Error);

/// Why an encoding was not accepted, or a sink not written.
#[derive(Debug)]
pub enum DerError {
    /// The number read does not fit the type asked for. A length header
    /// whose count 32 bits do not hold is refused with this too.
    IntValueTooLarge,
    /// The value has no encoding: a length of zero content octets was asked
    /// for where at least one is owed.
    InvalidEncoding,
    /// The reader or writer failed, for another reason than the end of input.
    Io(std::io::Error),
    /// The input ended before the encoding did.
    UnexpectedEof,
    /// The encoding is of another type than the one asked for.
    UnexpectedTag,
}

/// Whether the kind of the I/O error `e` is
/// `std::io::ErrorKind::UnexpectedEof`. The kind belongs to the error alone:
/// the same error always reports the same kind.
pub uninterp spec fn reports_unexpected_eof(e: std::io::Error) -> bool;

/// Asks `std::io::Error::kind` whether `e` reports an unexpected end of
/// input. The error is opaque, so the answer is not computed here but given
/// its name, `reports_unexpected_eof`: that the call returns it is believed,
/// not proved.
#[verifier::external_body]
fn kind_is_unexpected_eof(e: &std::io::Error) -> (eof: bool)
    ensures
        eof == reports_unexpected_eof(*e),
{
    matches!(e.kind(), std::io::ErrorKind::UnexpectedEof)
}

impl DerError {
    /// The failure that the I/O error `e` stands for, where `unexpected_eof`
    /// says whether its kind is `UnexpectedEof`: the end of input is a
    /// failure of its own, and every other error is passed on as it came.
    pub fn from_io_error(e: std::io::Error, unexpected_eof: bool) -> (r: DerError)
        ensures
            unexpected_eof ==> r == DerError::UnexpectedEof,
            !unexpected_eof ==> r == DerError::Io(e),
    {
        if unexpected_eof {
            DerError::UnexpectedEof
        } else {
            DerError::Io(e)
        }
    }
}

impl From<std::io::Error> for DerError {
    /// An error that reports an unexpected end of input becomes
    /// `UnexpectedEof`; every other error is passed on in `Io`.
    fn from(e: std::io::Error) -> (r: DerError)
        ensures
            reports_unexpected_eof(e) ==> r == DerError::UnexpectedEof,
            !reports_unexpected_eof(e) ==> r == DerError::Io(e),
    {
        let unexpected_eof = kind_is_unexpected_eof(&e);
        DerError::from_io_error(e, unexpected_eof)
    }
}

impl FromSpecImpl<std::io::Error> for DerError {
    open spec fn obeys_from_spec() -> bool {
        true
    }

    /// The conversion as a function of the error: which of the two failures
    /// comes is decided by the kind that the error reports.
    open spec fn from_spec(e: std::io::Error) -> DerError {
        if reports_unexpected_eof(e) {
            DerError::UnexpectedEof
        } else {
            DerError::Io(e)
        }
    }
}

impl From<TryFromIntError> for DerError {
    /// A number that does not fit is `IntValueTooLarge`.
    fn from(e: TryFromIntError) -> (r: DerError) {
        DerError::IntValueTooLarge
    }
}

impl FromSpecImpl<TryFromIntError> for DerError {
    open spec fn obeys_from_spec() -> bool {
        true
    }

    open spec fn from_spec(e: TryFromIntError) -> DerError {
        DerError::IntValueTooLarge
    }
}

} // verus!
