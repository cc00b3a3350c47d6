//! The 4-bit control-packet-type code of the fixed header.

use vstd::prelude::*;
use crate::serde::DecodeError;

verus! {

/// One of the sixteen 4-bit packet-type codes. The two reserved codes
/// exist as values so a decoded nibble always has a representation, but
/// the fixed-header decoder rejects them as invalid on the wire.
#[derive(Clone, Copy, PartialEq, Eq, Structural, Debug)]
pub enum ControlPacketType {
    ReservedLow,
    Connect,
    Connack,
    Publish,
    Puback,
    Pubrec,
    Pubrel,
    Pubcomp,
    Subscribe,
    Suback,
    Unsubscribe,
    Unsuback,
    Pingreq,
    Pingresp,
    Disconnect,
    ReservedHigh,
}

/// Numeric code of a packet type.
pub open spec fn cpt_num(t: ControlPacketType) -> u8 {
    match t {
        ControlPacketType::ReservedLow => 0,
        ControlPacketType::Connect => 1,
        ControlPacketType::Connack => 2,
        ControlPacketType::Publish => 3,
        ControlPacketType::Puback => 4,
        ControlPacketType::Pubrec => 5,
        ControlPacketType::Pubrel => 6,
        ControlPacketType::Pubcomp => 7,
        ControlPacketType::Subscribe => 8,
        ControlPacketType::Suback => 9,
        ControlPacketType::Unsubscribe => 10,
        ControlPacketType::Unsuback => 11,
        ControlPacketType::Pingreq => 12,
        ControlPacketType::Pingresp => 13,
        ControlPacketType::Disconnect => 14,
        ControlPacketType::ReservedHigh => 15,
    }
}

/// The packet type a code decodes to, meaningful for codes up to 15.
pub open spec fn cpt_of_num(n: u8) -> ControlPacketType {
    if n == 0 {
        ControlPacketType::ReservedLow
    } else if n == 1 {
        ControlPacketType::Connect
    } else if n == 2 {
        ControlPacketType::Connack
    } else if n == 3 {
        ControlPacketType::Publish
    } else if n == 4 {
        ControlPacketType::Puback
    } else if n == 5 {
        ControlPacketType::Pubrec
    } else if n == 6 {
        ControlPacketType::Pubrel
    } else if n == 7 {
        ControlPacketType::Pubcomp
    } else if n == 8 {
        ControlPacketType::Subscribe
    } else if n == 9 {
        ControlPacketType::Suback
    } else if n == 10 {
        ControlPacketType::Unsubscribe
    } else if n == 11 {
        ControlPacketType::Unsuback
    } else if n == 12 {
        ControlPacketType::Pingreq
    } else if n == 13 {
        ControlPacketType::Pingresp
    } else if n == 14 {
        ControlPacketType::Disconnect
    } else {
        ControlPacketType::ReservedHigh
    }
}

/// Decoding a type's own code yields the type back.
pub proof fn lemma_cpt_roundtrip(t: ControlPacketType)
    ensures
        cpt_of_num(cpt_num(t)) == t,
{
}

/// Whether the protocol mandates the flag nibble `0b0010` for this type.
pub open spec fn has_mandated_flags(t: ControlPacketType) -> bool {
    t == ControlPacketType::Pubrel || t == ControlPacketType::Subscribe || t
        == ControlPacketType::Unsubscribe
}

impl View for ControlPacketType {
    type V = ControlPacketType;

    open spec fn view(&self) -> ControlPacketType {
        *self
    }
}

impl ControlPacketType {
    /// Numeric code of this packet type.
    pub fn to_byte(&self) -> (r: u8)
        ensures
            r == cpt_num(*self),
    {
        match self {
            ControlPacketType::ReservedLow => 0,
            ControlPacketType::Connect => 1,
            ControlPacketType::Connack => 2,
            ControlPacketType::Publish => 3,
            ControlPacketType::Puback => 4,
            ControlPacketType::Pubrec => 5,
            ControlPacketType::Pubrel => 6,
            ControlPacketType::Pubcomp => 7,
            ControlPacketType::Subscribe => 8,
            ControlPacketType::Suback => 9,
            ControlPacketType::Unsubscribe => 10,
            ControlPacketType::Unsuback => 11,
            ControlPacketType::Pingreq => 12,
            ControlPacketType::Pingresp => 13,
            ControlPacketType::Disconnect => 14,
            ControlPacketType::ReservedHigh => 15,
        }
    }

    /// The packet type encoded by a code byte, for codes up to 15.
    pub fn from_byte(n: u8) -> (r: Result<ControlPacketType, DecodeError>)
        ensures
            n <= 15 ==> r == Ok::<ControlPacketType, DecodeError>(cpt_of_num(n)),
            n > 15 ==> r == Err::<ControlPacketType, DecodeError>(
                DecodeError::InvalidControlPacketType,
            ),
    {
        if n == 0 {
            Ok(ControlPacketType::ReservedLow)
        } else if n == 1 {
            Ok(ControlPacketType::Connect)
        } else if n == 2 {
            Ok(ControlPacketType::Connack)
        } else if n == 3 {
            Ok(ControlPacketType::Publish)
        } else if n == 4 {
            Ok(ControlPacketType::Puback)
        } else if n == 5 {
            Ok(ControlPacketType::Pubrec)
        } else if n == 6 {
            Ok(ControlPacketType::Pubrel)
        } else if n == 7 {
            Ok(ControlPacketType::Pubcomp)
        } else if n == 8 {
            Ok(ControlPacketType::Subscribe)
        } else if n == 9 {
            Ok(ControlPacketType::Suback)
        } else if n == 10 {
            Ok(ControlPacketType::Unsubscribe)
        } else if n == 11 {
            Ok(ControlPacketType::Unsuback)
        } else if n == 12 {
            Ok(ControlPacketType::Pingreq)
        } else if n == 13 {
            Ok(ControlPacketType::Pingresp)
        } else if n == 14 {
            Ok(ControlPacketType::Disconnect)
        } else if n == 15 {
            Ok(ControlPacketType::ReservedHigh)
        } else {
            Err(DecodeError::InvalidControlPacketType)
        }
    }

    /// The packet type encoded by the first byte of a stream.
    pub fn from_bytes(bytes: &[u8]) -> (r: Result<ControlPacketType, DecodeError>)
        ensures
            bytes@.len() == 0 ==> r == Err::<ControlPacketType, DecodeError>(
                DecodeError::UnexpectedEndOfInput,
            ),
            bytes@.len() > 0 && bytes@[0] <= 15 ==> r == Ok::<ControlPacketType, DecodeError>(
                cpt_of_num(bytes@[0]),
            ),
            bytes@.len() > 0 && bytes@[0] > 15 ==> r == Err::<ControlPacketType, DecodeError>(
                DecodeError::InvalidControlPacketType,
            ),
    {
        if bytes.len() == 0 {
            Err(DecodeError::UnexpectedEndOfInput)
        } else {
            ControlPacketType::from_byte(bytes[0])
        }
    }
}

} // verus!
