//! The fixed header: packet type, flag nibble and Remaining Length,
//! the outermost framing of every control packet.

use vstd::prelude::*;
use crate::control::{cpt_num, cpt_of_num, has_mandated_flags, ControlPacketType};
use crate::remaining_length::{rl_decode, rl_encode, RemainingLength, REMAINING_LENGTH_MAX};
use crate::serde::{DecodeError, EncodeError, Serde};

verus! {

/// A flag's contribution to the nibble when set.
pub open spec fn bit_if(b: bool, weight: u8) -> u8 {
    if b {
        weight
    } else {
        0
    }
}

/// The nibble carried by four flag bits, index 0 being the most
/// significant bit of the nibble.
pub open spec fn flags_nibble(f: [bool; 4]) -> u8 {
    (bit_if(f[0], 8) + bit_if(f[1], 4) + bit_if(f[2], 2) + bit_if(f[3], 1)) as u8
}

/// The four flag bits a nibble carries.
pub open spec fn nibble_flags(n: u8) -> [bool; 4] {
    [(n / 8) % 2 == 1, (n / 4) % 2 == 1, (n / 2) % 2 == 1, n % 2 == 1]
}

/// First byte of a packet: type code in the high nibble, flags in the
/// low nibble, joined by bitwise or of disjoint nibbles, which here
/// coincides with addition of the shifted values.
pub open spec fn fh_first_byte(t: ControlPacketType, f: [bool; 4]) -> u8 {
    (cpt_num(t) * 16 + flags_nibble(f)) as u8
}

/// Mathematical model of a fixed header.
#[verifier::ext_equal]
pub struct FixedHeaderView {
    pub packet_type: ControlPacketType,
    pub flags: [bool; 4],
    pub remaining_length: u32,
}

/// Bytes of a fixed header: the type-and-flags byte followed by the
/// Remaining Length encoding.
pub open spec fn fh_encode(h: FixedHeaderView) -> Seq<u8> {
    seq![fh_first_byte(h.packet_type, h.flags)] + rl_encode(h.remaining_length as nat)
}

/// What decoding the front of a byte stream as a fixed header yields.
/// The reserved type codes are invalid; a type with mandated flags must
/// carry exactly the nibble 2.
pub open spec fn fh_decode(s: Seq<u8>) -> Result<(FixedHeaderView, int), DecodeError> {
    if s.len() == 0 {
        Err(DecodeError::UnexpectedEndOfInput)
    } else {
        let code = s[0] / 16;
        let nib = s[0] % 16;
        if code == 0 || code == 15 {
            Err(DecodeError::InvalidControlPacketType)
        } else if has_mandated_flags(cpt_of_num(code)) && nib != 2 {
            Err(DecodeError::InvalidFlags)
        } else {
            match rl_decode(s.skip(1)) {
                Ok((v, n)) => Ok(
                    (
                        FixedHeaderView {
                            packet_type: cpt_of_num(code),
                            flags: nibble_flags(nib),
                            remaining_length: v,
                        },
                        1 + n,
                    ),
                ),
                Err(e) => Err(e),
            }
        }
    }
}

/// The outermost framing of a control packet.
#[derive(Clone, Copy, Debug)]
pub struct FixedHeader {
    pub packet_type: ControlPacketType,
    pub flags: [bool; 4],
    pub remaining_length: RemainingLength,
}

impl View for FixedHeader {
    type V = FixedHeaderView;

    open spec fn view(&self) -> FixedHeaderView {
        FixedHeaderView {
            packet_type: self.packet_type,
            flags: self.flags,
            remaining_length: self.remaining_length@,
        }
    }
}

impl FixedHeader {
    /// Renders the type-and-flags byte.
    pub fn to_first_byte(&self) -> (r: u8)
        ensures
            r == fh_first_byte(self.packet_type, self.flags),
    {
        let nib = (if self.flags[0] {
            8u8
        } else {
            0u8
        }) + (if self.flags[1] {
            4u8
        } else {
            0u8
        }) + (if self.flags[2] {
            2u8
        } else {
            0u8
        }) + (if self.flags[3] {
            1u8
        } else {
            0u8
        });
        self.packet_type.to_byte() * 16 + nib
    }

    /// Splits the type-and-flags byte, rejecting reserved type codes
    /// and, for types with mandated flags, any nibble but 2.
    pub fn from_first_byte(b: u8) -> (r: Result<(ControlPacketType, [bool; 4]), DecodeError>)
        ensures
            b / 16 == 0 || b / 16 == 15 ==> r == Err::<(ControlPacketType, [bool; 4]), DecodeError>(
                DecodeError::InvalidControlPacketType,
            ),
            0 < b / 16 < 15 && has_mandated_flags(cpt_of_num(b / 16)) && b % 16 != 2 ==> r == Err::<
                (ControlPacketType, [bool; 4]),
                DecodeError,
            >(DecodeError::InvalidFlags),
            0 < b / 16 < 15 && (has_mandated_flags(cpt_of_num(b / 16)) ==> b % 16 == 2) ==> r
                == Ok::<(ControlPacketType, [bool; 4]), DecodeError>(
                (cpt_of_num(b / 16), nibble_flags(b % 16)),
            ),
    {
        let code = b / 16;
        let nib = b % 16;
        if code == 0 || code == 15 {
            return Err(DecodeError::InvalidControlPacketType);
        }
        let t = match ControlPacketType::from_byte(code) {
            Ok(t) => t,
            Err(e) => {
                return Err(e);
            },
        };
        let mandated = match t {
            ControlPacketType::Pubrel => true,
            ControlPacketType::Subscribe => true,
            ControlPacketType::Unsubscribe => true,
            _ => false,
        };
        if mandated && nib != 2 {
            return Err(DecodeError::InvalidFlags);
        }
        let flags = [(nib / 8) % 2 == 1, (nib / 4) % 2 == 1, (nib / 2) % 2 == 1, nib % 2 == 1];
        assert(flags =~= nibble_flags(b % 16));
        Ok((t, flags))
    }
}

impl Serde for FixedHeader {
    open spec fn spec_ser(&self) -> Seq<u8> {
        fh_encode(self@)
    }

    open spec fn ser_ok(&self) -> bool {
        self.remaining_length@ <= REMAINING_LENGTH_MAX
    }

    open spec fn spec_de(bytes: Seq<u8>) -> Result<(FixedHeaderView, int), DecodeError> {
        fh_decode(bytes)
    }

    fn ser(&self) -> (r: Result<Vec<u8>, EncodeError>)
        ensures
            self.ser_ok() ==> (r matches Ok(v) && v@ == self.spec_ser()),
            !self.ser_ok() ==> r is Err,
    {
        let mut out: Vec<u8> = Vec::new();
        out.push(self.to_first_byte());
        let mut rl_bytes = match self.remaining_length.ser() {
            Ok(b) => b,
            Err(e) => {
                return Err(e);
            },
        };
        out.append(&mut rl_bytes);
        assert(self.ser_ok() ==> out@ =~= self.spec_ser());
        Ok(out)
    }

    fn de(bytes: &[u8]) -> (r: Result<(FixedHeader, usize), DecodeError>)
        ensures
            match r {
                Ok((v, n)) => fh_decode(bytes@) == Ok::<(FixedHeaderView, int), DecodeError>(
                    (v@, n as int),
                ),
                Err(e) => fh_decode(bytes@) == Err::<(FixedHeaderView, int), DecodeError>(e),
            },
    {
        if bytes.len() == 0 {
            return Err(DecodeError::UnexpectedEndOfInput);
        }
        let (packet_type, flags) = match FixedHeader::from_first_byte(bytes[0]) {
            Ok(p) => p,
            Err(e) => {
                return Err(e);
            },
        };
        assert(bytes@.skip(1) =~= bytes@.subrange(1, bytes@.len() as int));
        let (remaining_length, n) = match RemainingLength::de(&bytes[1..bytes.len()]) {
            Ok(p) => p,
            Err(e) => {
                return Err(e);
            },
        };
        Ok((FixedHeader { packet_type, flags, remaining_length }, 1 + n))
    }
}

/// Reading back an encoded fixed header yields the header, for every
/// header a conforming encoder can emit: a usable packet type, the
/// mandated nibble where one is mandated, and a bounded length.
pub proof fn lemma_fh_roundtrip(h: FixedHeaderView, rest: Seq<u8>)
    requires
        h.packet_type != ControlPacketType::ReservedLow,
        h.packet_type != ControlPacketType::ReservedHigh,
        has_mandated_flags(h.packet_type) ==> flags_nibble(h.flags) == 2,
        h.remaining_length <= REMAINING_LENGTH_MAX,
    ensures
        fh_decode(fh_encode(h) + rest) == Ok::<(FixedHeaderView, int), DecodeError>(
            (h, fh_encode(h).len() as int),
        ),
{
    let s = fh_encode(h) + rest;
    let b = fh_first_byte(h.packet_type, h.flags);
    assert(s[0] == b);
    assert(flags_nibble(h.flags) < 16);
    assert(b / 16 == cpt_num(h.packet_type) && b % 16 == flags_nibble(h.flags));
    crate::control::lemma_cpt_roundtrip(h.packet_type);
    assert(nibble_flags(flags_nibble(h.flags)) =~= h.flags);
    assert(s.skip(1) =~= rl_encode(h.remaining_length as nat) + rest);
    crate::remaining_length::lemma_rl_roundtrip(h.remaining_length, rest);
    crate::remaining_length::lemma_rl_encode_shape(h.remaining_length as nat);
}

} // verus!
