//! Error taxonomy of the registration core and its mapping onto
//! protocol-level status classes and error codes.

use vstd::prelude::*;

verus! {

/// A terminal failure of a registration-core operation.
///
/// `AuthIncomplete` is deliberately not here: an unfinished authentication
/// flow is a normal intermediate protocol state, not an error.
#[derive(Clone, Copy, PartialEq, Eq, Structural, Debug)]
pub enum ErrorKind {
    /// The desired username violates the localpart grammar or policy.
    InvalidUsername,
    /// The desired username already names an account (detected early by the
    /// advisory check or late as a commit-time collision; surfaced the same).
    UserInUse,
    /// The persistence collaborator was unavailable, erred, or a server-side
    /// resource was exhausted.
    StorageFailure,
    /// The request asked for behaviour this server does not offer.
    NotSupported,
}

/// The protocol status that an [`ErrorKind`] maps onto: client errors for
/// recoverable input problems, a server error for storage trouble.
pub open spec fn spec_status_of(kind: ErrorKind) -> u16 {
    match kind {
        ErrorKind::InvalidUsername => 400,
        ErrorKind::UserInUse => 400,
        ErrorKind::StorageFailure => 500,
        ErrorKind::NotSupported => 400,
    }
}

impl ErrorKind {
    /// The HTTP-equivalent status this error renders as.
    pub fn status_code(&self) -> (s: u16)
        ensures
            s == spec_status_of(*self),
    {
        match self {
            ErrorKind::InvalidUsername => 400,
            ErrorKind::UserInUse => 400,
            ErrorKind::StorageFailure => 500,
            ErrorKind::NotSupported => 400,
        }
    }

    /// True exactly when the status class is a client error.
    pub fn is_client_error(&self) -> (b: bool)
        ensures
            b == (400 <= spec_status_of(*self) < 500),
    {
        let s = self.status_code();
        400 <= s && s < 500
    }

    /// The protocol error code this error renders as.
    pub fn code(&self) -> (s: &'static str)
        ensures
            *self == ErrorKind::InvalidUsername ==> s@ == "M_INVALID_USERNAME"@,
            *self == ErrorKind::UserInUse ==> s@ == "M_USER_IN_USE"@,
            *self == ErrorKind::StorageFailure ==> s@ == "M_UNKNOWN"@,
            *self == ErrorKind::NotSupported ==> s@ == "M_UNRECOGNIZED"@,
    {
        match self {
            ErrorKind::InvalidUsername => "M_INVALID_USERNAME",
            ErrorKind::UserInUse => "M_USER_IN_USE",
            ErrorKind::StorageFailure => "M_UNKNOWN",
            ErrorKind::NotSupported => "M_UNRECOGNIZED",
        }
    }
}

} // verus!
