//! Per-packet-type variable headers and their byte layouts.

use vstd::prelude::*;
use crate::connack::{rc_num, ConnackReturnCode};
use crate::fixed_header::bit_if;
use crate::qos::{qos_num, QualityOfService};
use crate::serde::{lp, push_lp, push_u16_be, u16_be, u16_hi, u16_lo};

verus! {

/// A 16-bit value correlating requests with acknowledgements.
pub type PacketId = u16;

/// The connect-flags byte: username and password presence, will
/// retain, will quality of service, will presence and clean session,
/// from the most significant bit down; the least significant bit is
/// reserved as zero.
pub open spec fn connect_flags_byte(
    username: bool,
    password: bool,
    will_retain: bool,
    will_qos: QualityOfService,
    will_flag: bool,
    clean_session: bool,
) -> u8 {
    (bit_if(username, 128) + bit_if(password, 64) + bit_if(will_retain, 32) + qos_num(will_qos) * 8
        + bit_if(will_flag, 4) + bit_if(clean_session, 2)) as u8
}

/// Mathematical model of a variable header.
#[verifier::ext_equal]
pub enum VariableHeaderView {
    Connect {
        username: bool,
        password: bool,
        will_retain: bool,
        will_qos: QualityOfService,
        will_flag: bool,
        clean_session: bool,
        keep_alive: u16,
    },
    Connack { session_present: bool, return_code: ConnackReturnCode },
    Publish { topic_name: Seq<u8>, packet_id: Option<PacketId> },
    Puback(PacketId),
    Pubrec(PacketId),
    Pubrel(PacketId),
    Pubcomp(PacketId),
    Subscribe(PacketId),
    Suback(PacketId),
    Unsubscribe(PacketId),
    Unsuback(PacketId),
}

/// Whether a variable header fits its wire fields: a Publish topic
/// must fit the 16-bit length prefix.
pub open spec fn vh_wf(v: VariableHeaderView) -> bool {
    v matches VariableHeaderView::Publish { topic_name, .. } ==> topic_name.len() <= 65535
}

/// Bytes of a variable header. The Connect header is ten bytes: the
/// length-prefixed protocol name, the protocol level 4, the
/// connect-flags byte and the big-endian keep-alive.
pub open spec fn vh_bytes(v: VariableHeaderView) -> Seq<u8> {
    match v {
        VariableHeaderView::Connect {
            username,
            password,
            will_retain,
            will_qos,
            will_flag,
            clean_session,
            keep_alive,
        } => seq![
            0u8,
            4u8,
            77u8,
            81u8,
            84u8,
            84u8,
            4u8,
            connect_flags_byte(username, password, will_retain, will_qos, will_flag, clean_session),
            u16_hi(keep_alive),
            u16_lo(keep_alive),
        ],
        VariableHeaderView::Connack { session_present, return_code } => seq![
            bit_if(session_present, 1),
            rc_num(return_code),
        ],
        VariableHeaderView::Publish { topic_name, packet_id } => lp(topic_name) + (match packet_id {
            Some(p) => u16_be(p),
            None => Seq::<u8>::empty(),
        }),
        VariableHeaderView::Puback(p) => u16_be(p),
        VariableHeaderView::Pubrec(p) => u16_be(p),
        VariableHeaderView::Pubrel(p) => u16_be(p),
        VariableHeaderView::Pubcomp(p) => u16_be(p),
        VariableHeaderView::Subscribe(p) => u16_be(p),
        VariableHeaderView::Suback(p) => u16_be(p),
        VariableHeaderView::Unsubscribe(p) => u16_be(p),
        VariableHeaderView::Unsuback(p) => u16_be(p),
    }
}

/// The variable header a control packet carries between its fixed
/// header and its payload.
#[derive(Clone, Debug, PartialEq, Eq)]
pub enum VariableHeader {
    Connect {
        username: bool,
        password: bool,
        will_retain: bool,
        will_qos: QualityOfService,
        will_flag: bool,
        clean_session: bool,
        keep_alive: u16,
    },
    Connack { session_present: bool, return_code: ConnackReturnCode },
    Publish { topic_name: Vec<u8>, packet_id: Option<PacketId> },
    Puback(PacketId),
    Pubrec(PacketId),
    Pubrel(PacketId),
    Pubcomp(PacketId),
    Subscribe(PacketId),
    Suback(PacketId),
    Unsubscribe(PacketId),
    Unsuback(PacketId),
}

impl View for VariableHeader {
    type V = VariableHeaderView;

    open spec fn view(&self) -> VariableHeaderView {
        match self {
            VariableHeader::Connect {
                username,
                password,
                will_retain,
                will_qos,
                will_flag,
                clean_session,
                keep_alive,
            } => VariableHeaderView::Connect {
                username: *username,
                password: *password,
                will_retain: *will_retain,
                will_qos: *will_qos,
                will_flag: *will_flag,
                clean_session: *clean_session,
                keep_alive: *keep_alive,
            },
            VariableHeader::Connack { session_present, return_code } => VariableHeaderView::Connack {
                session_present: *session_present,
                return_code: *return_code,
            },
            VariableHeader::Publish { topic_name, packet_id } => VariableHeaderView::Publish {
                topic_name: topic_name@,
                packet_id: *packet_id,
            },
            VariableHeader::Puback(p) => VariableHeaderView::Puback(*p),
            VariableHeader::Pubrec(p) => VariableHeaderView::Pubrec(*p),
            VariableHeader::Pubrel(p) => VariableHeaderView::Pubrel(*p),
            VariableHeader::Pubcomp(p) => VariableHeaderView::Pubcomp(*p),
            VariableHeader::Subscribe(p) => VariableHeaderView::Subscribe(*p),
            VariableHeader::Suback(p) => VariableHeaderView::Suback(*p),
            VariableHeader::Unsubscribe(p) => VariableHeaderView::Unsubscribe(*p),
            VariableHeader::Unsuback(p) => VariableHeaderView::Unsuback(*p),
        }
    }
}

impl VariableHeader {
    /// How many bytes this variable header occupies on the wire.
    pub fn len(&self) -> (r: u32)
        requires
            vh_wf(self@),
        ensures
            r == vh_bytes(self@).len(),
    {
        match self {
            VariableHeader::Connect { .. } => 10,
            VariableHeader::Connack { .. } => 2,
            VariableHeader::Publish { topic_name, packet_id } => {
                let base = 2 + topic_name.len() as u32;
                match packet_id {
                    Some(_) => base + 2,
                    None => base,
                }
            },
            _ => 2,
        }
    }

    /// Renders this variable header to bytes.
    pub fn as_bytes(&self) -> (r: Vec<u8>)
        requires
            vh_wf(self@),
        ensures
            r@ == vh_bytes(self@),
    {
        let mut out: Vec<u8> = Vec::new();
        match self {
            VariableHeader::Connect {
                username,
                password,
                will_retain,
                will_qos,
                will_flag,
                clean_session,
                keep_alive,
            } => {
                out.push(0);
                out.push(4);
                out.push(77);
                out.push(81);
                out.push(84);
                out.push(84);
                out.push(4);
                let mut f: u8 = will_qos.to_byte() * 8;
                if *username {
                    f = f + 128;
                }
                if *password {
                    f = f + 64;
                }
                if *will_retain {
                    f = f + 32;
                }
                if *will_flag {
                    f = f + 4;
                }
                if *clean_session {
                    f = f + 2;
                }
                out.push(f);
                push_u16_be(&mut out, *keep_alive);
                assert(out@ =~= vh_bytes(self@));
            },
            VariableHeader::Connack { session_present, return_code } => {
                out.push(if *session_present {
                    1
                } else {
                    0
                });
                out.push(return_code.to_byte());
                assert(out@ =~= vh_bytes(self@));
            },
            VariableHeader::Publish { topic_name, packet_id } => {
                push_lp(&mut out, topic_name.as_slice());
                match packet_id {
                    Some(p) => push_u16_be(&mut out, *p),
                    None => (),
                }
                assert(out@ =~= vh_bytes(self@));
            },
            VariableHeader::Puback(p) => {
                push_u16_be(&mut out, *p);
                assert(out@ =~= vh_bytes(self@));
            },
            VariableHeader::Pubrec(p) => {
                push_u16_be(&mut out, *p);
                assert(out@ =~= vh_bytes(self@));
            },
            VariableHeader::Pubrel(p) => {
                push_u16_be(&mut out, *p);
                assert(out@ =~= vh_bytes(self@));
            },
            VariableHeader::Pubcomp(p) => {
                push_u16_be(&mut out, *p);
                assert(out@ =~= vh_bytes(self@));
            },
            VariableHeader::Subscribe(p) => {
                push_u16_be(&mut out, *p);
                assert(out@ =~= vh_bytes(self@));
            },
            VariableHeader::Suback(p) => {
                push_u16_be(&mut out, *p);
                assert(out@ =~= vh_bytes(self@));
            },
            VariableHeader::Unsubscribe(p) => {
                push_u16_be(&mut out, *p);
                assert(out@ =~= vh_bytes(self@));
            },
            VariableHeader::Unsuback(p) => {
                push_u16_be(&mut out, *p);
                assert(out@ =~= vh_bytes(self@));
            },
        }
        out
    }
}

} // verus!
