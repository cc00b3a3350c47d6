//! Shared serialization interface and the error kinds of the codec,
//! together with the big-endian 16-bit helpers every layout uses.

use vstd::prelude::*;

verus! {

/// Why a byte stream was rejected while decoding a control packet.
#[derive(Clone, Copy, PartialEq, Eq, Structural, Debug)]
pub enum DecodeError {
    /// A Remaining Length field ran into a fifth continuation byte.
    Malformed,
    /// The input ended before the field under decode was complete.
    UnexpectedEndOfInput,
    /// The packet-type nibble was one of the two reserved codes.
    InvalidControlPacketType,
    /// The flag nibble did not match the pattern the packet type mandates.
    InvalidFlags,
    /// Fewer bytes were available than the Remaining Length announced.
    TruncatedPacket,
    /// The variable header or payload violated its per-type layout.
    MalformedPayload,
}

/// Why a message could not be serialized.
#[derive(Clone, Copy, PartialEq, Eq, Structural, Debug)]
pub enum EncodeError {
    /// A length exceeded what its wire field can carry.
    OutOfRange,
}

/// High byte of a 16-bit value in big-endian order.
pub open spec fn u16_hi(v: u16) -> u8 {
    (v / 256) as u8
}

/// Low byte of a 16-bit value in big-endian order.
pub open spec fn u16_lo(v: u16) -> u8 {
    (v % 256) as u8
}

/// Big-endian byte pair of a 16-bit value.
pub open spec fn u16_be(v: u16) -> Seq<u8> {
    seq![u16_hi(v), u16_lo(v)]
}

/// The 16-bit value read from a big-endian byte pair.
pub open spec fn u16_of(hi: u8, lo: u8) -> u16 {
    (hi * 256 + lo) as u16
}

/// Reading back the two bytes of a value yields the value.
pub proof fn lemma_u16_be_roundtrip(v: u16)
    ensures
        u16_of(u16_hi(v), u16_lo(v)) == v,
{
}

/// Joins a big-endian byte pair into the 16-bit value it encodes.
pub fn be_u16_join(hi: u8, lo: u8) -> (r: u16)
    ensures
        r == u16_of(hi, lo),
{
    (hi as u16) * 256 + (lo as u16)
}

/// A byte string as it stands on the wire: a big-endian 16-bit byte
/// count followed by the bytes themselves.
pub open spec fn lp(s: Seq<u8>) -> Seq<u8> {
    u16_be(s.len() as u16) + s
}

/// Appends the bytes of a slice to an output buffer.
pub fn push_bytes(out: &mut Vec<u8>, src: &[u8])
    ensures
        final(out)@ == old(out)@ + src@,
{
    let mut i: usize = 0;
    while i < src.len()
        invariant
            i <= src@.len(),
            out@ == old(out)@ + src@.subrange(0, i as int),
        decreases src@.len() - i,
    {
        out.push(src[i]);
        assert(out@ =~= old(out)@ + src@.subrange(0, i + 1));
        i = i + 1;
    }
    assert(out@ =~= old(out)@ + src@);
}

/// Copies a byte string.
pub fn clone_bytes(src: &Vec<u8>) -> (r: Vec<u8>)
    ensures
        r@ == src@,
{
    let mut out: Vec<u8> = Vec::new();
    push_bytes(&mut out, src.as_slice());
    assert(out@ =~= src@);
    out
}

/// Appends a 16-bit value in big-endian order to an output buffer.
pub fn push_u16_be(out: &mut Vec<u8>, v: u16)
    ensures
        final(out)@ == old(out)@ + u16_be(v),
{
    out.push((v / 256) as u8);
    out.push((v % 256) as u8);
    assert(out@ =~= old(out)@ + u16_be(v));
}

/// Appends a length-prefixed byte string to an output buffer.
pub fn push_lp(out: &mut Vec<u8>, src: &[u8])
    requires
        src@.len() <= 65535,
    ensures
        final(out)@ == old(out)@ + lp(src@),
{
    push_u16_be(out, src.len() as u16);
    push_bytes(out, src);
    assert(out@ =~= old(out)@ + lp(src@));
}

/// The length-prefixed string at an offset of a region: its bytes and
/// the offset just after it, or nothing if the region is too short.
pub open spec fn parse_lp(s: Seq<u8>, i: int) -> Option<(Seq<u8>, int)> {
    if 0 <= i && i + 2 <= s.len() {
        let n = u16_of(s[i], s[i + 1]) as int;
        if i + 2 + n <= s.len() {
            Some((s.subrange(i + 2, i + 2 + n), i + 2 + n))
        } else {
            None
        }
    } else {
        None
    }
}

/// Reading a string at an offset is reading it at the front of the
/// region that starts there.
pub proof fn lemma_parse_lp_shift(s: Seq<u8>, i: int)
    requires
        0 <= i <= s.len(),
    ensures
        parse_lp(s.skip(i), 0) == (match parse_lp(s, i) {
            Some(p) => Some::<(Seq<u8>, int)>((p.0, p.1 - i)),
            None => None::<(Seq<u8>, int)>,
        }),
{
    let t = s.skip(i);
    if i + 2 <= s.len() {
        assert(t[0] == s[i] && t[1] == s[i + 1]);
        let n = u16_of(s[i], s[i + 1]) as int;
        if i + 2 + n <= s.len() {
            assert(t.subrange(2, 2 + n) =~= s.subrange(i + 2, i + 2 + n));
        }
    }
}

/// Copies part of a slice into a fresh buffer.
pub fn slice_to_vec(s: &[u8], from: usize, to: usize) -> (r: Vec<u8>)
    requires
        from <= to <= s@.len(),
    ensures
        r@ == s@.subrange(from as int, to as int),
{
    let mut out: Vec<u8> = Vec::new();
    push_bytes(&mut out, &s[from..to]);
    assert(out@ =~= s@.subrange(from as int, to as int));
    out
}

/// Reads the big-endian 16-bit value at an offset.
pub fn read_u16(s: &[u8], i: usize) -> (r: u16)
    requires
        i + 2 <= s@.len(),
    ensures
        r == u16_of(s@[i as int], s@[i as int + 1]),
{
    be_u16_join(s[i], s[i + 1])
}

/// Reads the length-prefixed string at an offset.
pub fn take_lp(s: &[u8], i: usize) -> (r: Option<(Vec<u8>, usize)>)
    requires
        i <= s@.len(),
    ensures
        match r {
            Some(p) => parse_lp(s@, i as int) == Some::<(Seq<u8>, int)>((p.0@, p.1 as int)) && i
                < p.1 <= s@.len(),
            None => parse_lp(s@, i as int) is None,
        },
{
    if s.len() - i < 2 {
        return None;
    }
    let n = be_u16_join(s[i], s[i + 1]) as usize;
    if s.len() - (i + 2) < n {
        return None;
    }
    let t = slice_to_vec(s, i + 2, i + 2 + n);
    Some((t, i + 2 + n))
}

/// Reads the length-prefixed string at an offset when the field is
/// present; an absent field reads as empty and consumes nothing.
pub open spec fn parse_opt_lp(s: Seq<u8>, i: int, present: bool) -> Option<(Seq<u8>, int)> {
    if present {
        parse_lp(s, i)
    } else {
        Some((Seq::empty(), i))
    }
}

/// Reads an optional length-prefixed string field.
pub fn take_opt_lp(s: &[u8], i: usize, present: bool) -> (r: Option<(Vec<u8>, usize)>)
    requires
        i <= s@.len(),
    ensures
        match r {
            Some(p) => parse_opt_lp(s@, i as int, present) == Some::<(Seq<u8>, int)>(
                (p.0@, p.1 as int),
            ) && i <= p.1 <= s@.len(),
            None => parse_opt_lp(s@, i as int, present) is None,
        },
{
    if present {
        take_lp(s, i)
    } else {
        let empty: Vec<u8> = Vec::new();
        assert(empty@ =~= Seq::<u8>::empty());
        Some((empty, i))
    }
}

/// Wire serialization: `ser` renders a value to bytes, `de` reads one
/// value back off the front of a byte stream and reports how many bytes
/// it consumed.
pub trait Serde: View + Sized {
    /// The bytes `ser` produces when it succeeds.
    spec fn spec_ser(&self) -> Seq<u8>;

    /// Whether `ser` succeeds on this value.
    spec fn ser_ok(&self) -> bool;

    /// The complete decoding relation: what `de` returns on any input.
    spec fn spec_de(bytes: Seq<u8>) -> Result<(Self::V, int), DecodeError>;

    fn ser(&self) -> (r: Result<Vec<u8>, EncodeError>)
        ensures
            self.ser_ok() ==> (r matches Ok(v) && v@ == self.spec_ser()),
            !self.ser_ok() ==> r is Err,
    ;

    fn de(bytes: &[u8]) -> (r: Result<(Self, usize), DecodeError>)
        ensures
            match r {
                Ok((v, n)) => Self::spec_de(bytes@) == Ok::<(Self::V, int), DecodeError>(
                    (v@, n as int),
                ),
                Err(e) => Self::spec_de(bytes@) == Err::<(Self::V, int), DecodeError>(e),
            },
    ;
}

} // verus!
