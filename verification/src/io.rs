//! Errors of the operating system.
use std::io::{Error, ErrorKind};
use vstd::prelude::*;

verus! {

/// The kinds of error that `std::io` tells apart.
#[verifier::external_type_specification]
pub struct ExErrorKind(std::io::ErrorKind);

/// An error of `std::io`.
#[verifier::external_type_specification]
#[verifier::external_body]
pub struct ExError(std::io::Error);

/// Whether the error is displayed as the text. The wording is that of the operating system.
pub open spec fn displayed_as(error: Error, text: String) -> bool {
    vstd::string::to_string_from_display_ensures::<Error>(&error, text)
}

/// The kind of an error.
pub uninterp spec fn error_kind(error: Error) -> ErrorKind;

/// `std::io::Error::kind`. Taken on trust: it gives the kind of the error, which does not change.
pub assume_specification[ std::io::Error::kind ](error: &Error) -> (kind: ErrorKind)
    ensures
        kind == error_kind(*error),
;

} // verus!
