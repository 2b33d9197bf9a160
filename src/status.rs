//! Method status codes reported by the device.
use vstd::prelude::*;

verus! {

/// The outcome a device reports for a method call.
#[derive(Clone, Copy, Debug, PartialEq, Eq, Structural)]
pub enum StatusCode {
    Success,
    NotAuthorized,
    SpBusy,
    SpFailed,
    SpDisabled,
    AuthorityLockedOut,
    Fail,
    /// A code this library has no name for.
    Unknown(u64),
}

pub open spec fn status_of(code: u64) -> StatusCode {
    if code == 0x00 {
        StatusCode::Success
    } else if code == 0x01 {
        StatusCode::NotAuthorized
    } else if code == 0x03 {
        StatusCode::SpBusy
    } else if code == 0x04 {
        StatusCode::SpFailed
    } else if code == 0x05 {
        StatusCode::SpDisabled
    } else if code == 0x12 {
        StatusCode::AuthorityLockedOut
    } else if code == 0x3F {
        StatusCode::Fail
    } else {
        StatusCode::Unknown(code)
    }
}

impl StatusCode {
    /// Names the status code carried on the wire.
    pub fn from_code(code: u64) -> (r: StatusCode)
        ensures
            r == status_of(code),
    {
        if code == 0x00 {
            StatusCode::Success
        } else if code == 0x01 {
            StatusCode::NotAuthorized
        } else if code == 0x03 {
            StatusCode::SpBusy
        } else if code == 0x04 {
            StatusCode::SpFailed
        } else if code == 0x05 {
            StatusCode::SpDisabled
        } else if code == 0x12 {
            StatusCode::AuthorityLockedOut
        } else if code == 0x3F {
            StatusCode::Fail
        } else {
            StatusCode::Unknown(code)
        }
    }
}

} // verus!
