//! Connect acknowledgement return codes.

use vstd::prelude::*;
use crate::serde::DecodeError;

verus! {

/// The result a broker reports in a Connack variable header.
#[derive(Clone, Copy, PartialEq, Eq, Structural, Debug)]
pub enum ConnackReturnCode {
    Accepted,
    UnacceptableProtocolVersion,
    IdentifierRejected,
    ServerUnavailable,
    BadUsernameOrPassword,
    NotAuthorized,
}

/// Numeric wire encoding of a return code.
pub open spec fn rc_num(c: ConnackReturnCode) -> u8 {
    match c {
        ConnackReturnCode::Accepted => 0,
        ConnackReturnCode::UnacceptableProtocolVersion => 1,
        ConnackReturnCode::IdentifierRejected => 2,
        ConnackReturnCode::ServerUnavailable => 3,
        ConnackReturnCode::BadUsernameOrPassword => 4,
        ConnackReturnCode::NotAuthorized => 5,
    }
}

/// The return code a byte decodes to, meaningful for bytes up to 5.
pub open spec fn rc_of_num(n: u8) -> ConnackReturnCode {
    if n == 0 {
        ConnackReturnCode::Accepted
    } else if n == 1 {
        ConnackReturnCode::UnacceptableProtocolVersion
    } else if n == 2 {
        ConnackReturnCode::IdentifierRejected
    } else if n == 3 {
        ConnackReturnCode::ServerUnavailable
    } else if n == 4 {
        ConnackReturnCode::BadUsernameOrPassword
    } else {
        ConnackReturnCode::NotAuthorized
    }
}

impl View for ConnackReturnCode {
    type V = ConnackReturnCode;

    open spec fn view(&self) -> ConnackReturnCode {
        *self
    }
}

impl ConnackReturnCode {
    /// Numeric wire encoding of this return code.
    pub fn to_byte(&self) -> (r: u8)
        ensures
            r == rc_num(*self),
    {
        match self {
            ConnackReturnCode::Accepted => 0,
            ConnackReturnCode::UnacceptableProtocolVersion => 1,
            ConnackReturnCode::IdentifierRejected => 2,
            ConnackReturnCode::ServerUnavailable => 3,
            ConnackReturnCode::BadUsernameOrPassword => 4,
            ConnackReturnCode::NotAuthorized => 5,
        }
    }

    /// The return code a byte encodes, rejecting bytes above 5.
    pub fn from_byte(n: u8) -> (r: Result<ConnackReturnCode, DecodeError>)
        ensures
            n <= 5 ==> r == Ok::<ConnackReturnCode, DecodeError>(rc_of_num(n)),
            n > 5 ==> r == Err::<ConnackReturnCode, DecodeError>(DecodeError::MalformedPayload),
    {
        if n == 0 {
            Ok(ConnackReturnCode::Accepted)
        } else if n == 1 {
            Ok(ConnackReturnCode::UnacceptableProtocolVersion)
        } else if n == 2 {
            Ok(ConnackReturnCode::IdentifierRejected)
        } else if n == 3 {
            Ok(ConnackReturnCode::ServerUnavailable)
        } else if n == 4 {
            Ok(ConnackReturnCode::BadUsernameOrPassword)
        } else if n == 5 {
            Ok(ConnackReturnCode::NotAuthorized)
        } else {
            Err(DecodeError::MalformedPayload)
        }
    }
}

} // verus!
