//! The Remaining Length field: a 28-bit-bounded value carried in one to
//! four bytes, seven data bits and one continuation bit per byte, least
//! significant group first.

use vstd::prelude::*;
use crate::serde::{DecodeError, EncodeError, Serde};

verus! {

/// Largest value the four-byte encoding can carry.
pub const REMAINING_LENGTH_MAX: u32 = 268435455;

/// The byte sequence of the continuation encoding of a value: its
/// base-128 digits in order of increasing weight, every byte but the
/// last carrying the continuation bit.
pub open spec fn rl_encode(v: nat) -> Seq<u8>
    decreases v,
{
    if v < 128 {
        seq![v as u8]
    } else {
        seq![(v % 128 + 128) as u8] + rl_encode(v / 128)
    }
}

/// How many bytes the encoding of a value occupies.
pub open spec fn rl_size(v: nat) -> int {
    if v < 128 {
        1
    } else if v < 16384 {
        2
    } else if v < 2097152 {
        3
    } else {
        4
    }
}

/// What decoding the front of a byte stream yields: the value and the
/// count of bytes consumed, or the reason the stream was rejected. A
/// fifth continuation byte is malformed; a stream that ends while every
/// byte so far carries the continuation bit is incomplete.
pub open spec fn rl_decode(s: Seq<u8>) -> Result<(u32, int), DecodeError> {
    if s.len() == 0 {
        Err(DecodeError::UnexpectedEndOfInput)
    } else if s[0] < 128 {
        Ok((s[0] as u32, 1))
    } else if s.len() == 1 {
        Err(DecodeError::UnexpectedEndOfInput)
    } else if s[1] < 128 {
        Ok((((s[0] - 128) + 128 * s[1]) as u32, 2))
    } else if s.len() == 2 {
        Err(DecodeError::UnexpectedEndOfInput)
    } else if s[2] < 128 {
        Ok((((s[0] - 128) + 128 * (s[1] - 128) + 16384 * s[2]) as u32, 3))
    } else if s.len() == 3 {
        Err(DecodeError::UnexpectedEndOfInput)
    } else if s[3] < 128 {
        Ok((((s[0] - 128) + 128 * (s[1] - 128) + 16384 * (s[2] - 128) + 2097152 * s[3]) as u32, 4))
    } else if s.len() == 4 {
        Err(DecodeError::UnexpectedEndOfInput)
    } else {
        Err(DecodeError::Malformed)
    }
}

/// A validated Remaining Length value.
#[derive(Clone, Copy, PartialEq, Eq, Structural, Debug)]
pub struct RemainingLength(u32);

impl View for RemainingLength {
    type V = u32;

    closed spec fn view(&self) -> u32 {
        self.0
    }
}

impl RemainingLength {
    /// Validates a value against the four-byte bound.
    pub fn try_new(value: u32) -> (r: Result<RemainingLength, EncodeError>)
        ensures
            value <= REMAINING_LENGTH_MAX ==> (r matches Ok(rl) && rl@ == value),
            value > REMAINING_LENGTH_MAX ==> r == Err::<RemainingLength, EncodeError>(
                EncodeError::OutOfRange,
            ),
    {
        if value <= REMAINING_LENGTH_MAX {
            Ok(RemainingLength(value))
        } else {
            Err(EncodeError::OutOfRange)
        }
    }

    /// The carried value.
    pub fn value(&self) -> (r: u32)
        ensures
            r == self@,
    {
        self.0
    }

    /// Decodes a Remaining Length off the front of a byte stream,
    /// dropping the consumed-byte count.
    pub fn from_bytes(bytes: &[u8]) -> (r: Result<RemainingLength, DecodeError>)
        ensures
            match r {
                Ok(rl) => rl_decode(bytes@) matches Ok(p) && p.0 == rl@,
                Err(e) => rl_decode(bytes@) == Err::<(u32, int), DecodeError>(e),
            },
    {
        match RemainingLength::de(bytes) {
            Ok((rl, _)) => Ok(rl),
            Err(e) => Err(e),
        }
    }

    /// How many bytes the encoding of this value occupies: one below
    /// 128, two below 16384, three below 2097152, four otherwise.
    pub fn size(&self) -> (r: usize)
        ensures
            r == rl_size(self@ as nat),
    {
        let n = self.0;
        if n < 128 {
            1
        } else if n < 16384 {
            2
        } else if n < 2097152 {
            3
        } else {
            4
        }
    }
}

impl Serde for RemainingLength {
    open spec fn spec_ser(&self) -> Seq<u8> {
        rl_encode(self@ as nat)
    }

    open spec fn ser_ok(&self) -> bool {
        self@ <= REMAINING_LENGTH_MAX
    }

    open spec fn spec_de(bytes: Seq<u8>) -> Result<(u32, int), DecodeError> {
        rl_decode(bytes)
    }

    fn ser(&self) -> (r: Result<Vec<u8>, EncodeError>)
        ensures
            self.ser_ok() ==> (r matches Ok(v) && v@ == self.spec_ser()),
            !self.ser_ok() ==> r is Err,
    {
        let v = self.0;
        if v > REMAINING_LENGTH_MAX {
            return Err(EncodeError::OutOfRange);
        }
        let mut out: Vec<u8> = Vec::new();
        if v == 0 {
            out.push(0);
            assert(out@ =~= rl_encode(0));
            return Ok(out);
        }
        let mut x = v;
        while x > 0
            invariant
                rl_encode(v as nat) == out@ + (if x > 0 {
                    rl_encode(x as nat)
                } else {
                    Seq::<u8>::empty()
                }),
            decreases x,
        {
            let digit = (x % 128) as u8;
            let old_x = x;
            x = x / 128;
            proof {
                if old_x >= 128 {
                    assert(rl_encode(old_x as nat) == seq![(old_x as nat % 128 + 128) as u8]
                        + rl_encode(old_x as nat / 128));
                }
            }
            if x > 0 {
                out.push(digit + 128);
            } else {
                out.push(digit);
                assert(rl_encode(old_x as nat) =~= seq![digit]);
            }
            assert(rl_encode(v as nat) =~= out@ + (if x > 0 {
                rl_encode(x as nat)
            } else {
                Seq::<u8>::empty()
            }));
        }
        assert(rl_encode(v as nat) =~= out@);
        Ok(out)
    }

    fn de(bytes: &[u8]) -> (r: Result<(RemainingLength, usize), DecodeError>)
        ensures
            match r {
                Ok((v, n)) => rl_decode(bytes@) == Ok::<(u32, int), DecodeError>((v@, n as int)),
                Err(e) => rl_decode(bytes@) == Err::<(u32, int), DecodeError>(e),
            },
    {
        if bytes.len() == 0 {
            Err(DecodeError::UnexpectedEndOfInput)
        } else if bytes[0] < 128 {
            Ok((RemainingLength(bytes[0] as u32), 1))
        } else if bytes.len() == 1 {
            Err(DecodeError::UnexpectedEndOfInput)
        } else if bytes[1] < 128 {
            let value = (bytes[0] - 128) as u32 + 128 * (bytes[1] as u32);
            Ok((RemainingLength(value), 2))
        } else if bytes.len() == 2 {
            Err(DecodeError::UnexpectedEndOfInput)
        } else if bytes[2] < 128 {
            let value = (bytes[0] - 128) as u32 + 128 * ((bytes[1] - 128) as u32) + 16384 * (
            bytes[2] as u32);
            Ok((RemainingLength(value), 3))
        } else if bytes.len() == 3 {
            Err(DecodeError::UnexpectedEndOfInput)
        } else if bytes[3] < 128 {
            let value = (bytes[0] - 128) as u32 + 128 * ((bytes[1] - 128) as u32) + 16384 * ((
            bytes[2] - 128) as u32) + 2097152 * (bytes[3] as u32);
            Ok((RemainingLength(value), 4))
        } else if bytes.len() == 4 {
            Err(DecodeError::UnexpectedEndOfInput)
        } else {
            Err(DecodeError::Malformed)
        }
    }
}

/// The encoding occupies exactly the bytes the size table names, every
/// byte but the last carries the continuation bit, and the last does
/// not.
pub proof fn lemma_rl_encode_shape(v: nat)
    requires
        v <= REMAINING_LENGTH_MAX,
    ensures
        rl_encode(v).len() == rl_size(v),
        forall|i: int| 0 <= i < rl_encode(v).len() - 1 ==> rl_encode(v)[i] >= 128,
        rl_encode(v)[rl_encode(v).len() - 1] < 128,
    decreases v,
{
    if v >= 128 {
        lemma_rl_encode_shape(v / 128);
    }
}

/// Decoding an encoded value off the front of any byte stream yields
/// the value back and consumes exactly its encoding.
pub proof fn lemma_rl_roundtrip(v: u32, rest: Seq<u8>)
    requires
        v <= REMAINING_LENGTH_MAX,
    ensures
        rl_decode(rl_encode(v as nat) + rest) == Ok::<(u32, int), DecodeError>((
            v,
            rl_size(v as nat),
        )),
{
    let s = rl_encode(v as nat) + rest;
    lemma_rl_encode_shape(v as nat);
    if v < 128 {
        assert(s[0] == v as u8);
    } else if v < 16384 {
        assert(rl_encode(v as nat) == seq![(v as nat % 128 + 128) as u8] + rl_encode(
            v as nat / 128,
        ));
        assert(s[0] == (v as nat % 128 + 128) as u8);
        assert(s[1] == (v as nat / 128) as u8);
    } else if v < 2097152 {
        let q1 = v as nat / 128;
        assert(rl_encode(v as nat) == seq![(v as nat % 128 + 128) as u8] + rl_encode(q1));
        assert(rl_encode(q1) == seq![(q1 % 128 + 128) as u8] + rl_encode(q1 / 128));
        assert(s[0] == (v as nat % 128 + 128) as u8);
        assert(s[1] == (q1 % 128 + 128) as u8);
        assert(s[2] == (q1 / 128) as u8);
    } else {
        let q1 = v as nat / 128;
        let q2 = q1 / 128;
        assert(rl_encode(v as nat) == seq![(v as nat % 128 + 128) as u8] + rl_encode(q1));
        assert(rl_encode(q1) == seq![(q1 % 128 + 128) as u8] + rl_encode(q2));
        assert(rl_encode(q2) == seq![(q2 % 128 + 128) as u8] + rl_encode(q2 / 128));
        assert(s[0] == (v as nat % 128 + 128) as u8);
        assert(s[1] == (q1 % 128 + 128) as u8);
        assert(s[2] == (q2 % 128 + 128) as u8);
        assert(s[3] == (q2 / 128) as u8);
    }
}

} // verus!
