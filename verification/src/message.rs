//! The fourteen control-packet kinds, their views, and the codec that
//! round-trips a whole packet through bytes.

use vstd::prelude::*;
use crate::connack::{rc_of_num, ConnackReturnCode};
use crate::control::{cpt_num, ControlPacketType};
use crate::fixed_header::{
    fh_decode, fh_encode, FixedHeader, FixedHeaderView,
};
use crate::payload::{
    codes_bytes, filters_bytes, filters_view, filters_wf, payload_bytes, payload_wf, suback_code,
    topics_bytes, topics_view, topics_wf, lemma_filters_bytes_split, lemma_topics_bytes_split,
    lemma_filters_view_push, lemma_topics_view_push, Payload, PayloadView,
};
use crate::qos::{qos_num, qos_of_num, QualityOfService};
use crate::remaining_length::{RemainingLength, REMAINING_LENGTH_MAX};
use crate::serde::{
    clone_bytes, lemma_parse_lp_shift, lp, parse_lp, parse_opt_lp, push_bytes, push_lp,
    push_u16_be, read_u16, slice_to_vec, take_lp, take_opt_lp, u16_of, DecodeError, EncodeError,
    Serde,
};
use crate::variable_header::{vh_bytes, vh_wf, PacketId, VariableHeader, VariableHeaderView};
use crate::will::{opt_will_view, Will, WillView};

verus! {

/// A connection request.
#[derive(Clone, Debug, PartialEq, Eq)]
pub struct Connect {
    pub client_id: Vec<u8>,
    pub username: Vec<u8>,
    pub password: Vec<u8>,
    pub will: Option<Will>,
    pub clean_session: bool,
    pub keep_alive: u16,
}

/// Mathematical model of a Connect. An empty username or password
/// stands for an absent one.
#[verifier::ext_equal]
pub struct ConnectView {
    pub client_id: Seq<u8>,
    pub username: Seq<u8>,
    pub password: Seq<u8>,
    pub will: Option<WillView>,
    pub clean_session: bool,
    pub keep_alive: u16,
}

impl View for Connect {
    type V = ConnectView;

    open spec fn view(&self) -> ConnectView {
        ConnectView {
            client_id: self.client_id@,
            username: self.username@,
            password: self.password@,
            will: opt_will_view(self.will),
            clean_session: self.clean_session,
            keep_alive: self.keep_alive,
        }
    }
}

/// A connection acknowledgement.
#[derive(Clone, Copy, PartialEq, Eq, Structural, Debug)]
pub struct Connack {
    pub session_present: bool,
    pub return_code: ConnackReturnCode,
}

impl View for Connack {
    type V = Connack;

    open spec fn view(&self) -> Connack {
        *self
    }
}

/// An application message.
#[derive(Clone, Debug, PartialEq, Eq)]
pub struct Publish {
    pub dup: bool,
    pub qos: QualityOfService,
    pub retain: bool,
    pub topic: Vec<u8>,
    pub packet_id: Option<PacketId>,
    pub payload: Vec<u8>,
}

/// Mathematical model of a Publish.
#[verifier::ext_equal]
pub struct PublishView {
    pub dup: bool,
    pub qos: QualityOfService,
    pub retain: bool,
    pub topic: Seq<u8>,
    pub packet_id: Option<PacketId>,
    pub payload: Seq<u8>,
}

impl View for Publish {
    type V = PublishView;

    open spec fn view(&self) -> PublishView {
        PublishView {
            dup: self.dup,
            qos: self.qos,
            retain: self.retain,
            topic: self.topic@,
            packet_id: self.packet_id,
            payload: self.payload@,
        }
    }
}

/// A first acknowledgement of a Publish.
#[derive(Clone, Copy, PartialEq, Eq, Structural, Debug)]
pub struct Puback {
    pub packet_id: PacketId,
}

impl View for Puback {
    type V = Puback;

    open spec fn view(&self) -> Puback {
        *self
    }
}

/// The first step of the exactly-once handshake.
#[derive(Clone, Copy, PartialEq, Eq, Structural, Debug)]
pub struct Pubrec {
    pub packet_id: PacketId,
}

impl View for Pubrec {
    type V = Pubrec;

    open spec fn view(&self) -> Pubrec {
        *self
    }
}

/// The second step of the exactly-once handshake.
#[derive(Clone, Copy, PartialEq, Eq, Structural, Debug)]
pub struct Pubrel {
    pub packet_id: PacketId,
}

impl View for Pubrel {
    type V = Pubrel;

    open spec fn view(&self) -> Pubrel {
        *self
    }
}

/// The final step of the exactly-once handshake.
#[derive(Clone, Copy, PartialEq, Eq, Structural, Debug)]
pub struct Pubcomp {
    pub packet_id: PacketId,
}

impl View for Pubcomp {
    type V = Pubcomp;

    open spec fn view(&self) -> Pubcomp {
        *self
    }
}

/// A subscription request.
#[derive(Clone, Debug, PartialEq, Eq)]
pub struct Subscribe {
    pub packet_id: PacketId,
    pub topic_filters: Vec<(Vec<u8>, QualityOfService)>,
}

/// Mathematical model of a Subscribe.
#[verifier::ext_equal]
pub struct SubscribeView {
    pub packet_id: PacketId,
    pub topic_filters: Seq<(Seq<u8>, QualityOfService)>,
}

impl View for Subscribe {
    type V = SubscribeView;

    open spec fn view(&self) -> SubscribeView {
        SubscribeView {
            packet_id: self.packet_id,
            topic_filters: filters_view(self.topic_filters@),
        }
    }
}

/// A subscription acknowledgement: one granted level or failure per
/// requested filter, in order.
#[derive(Clone, Debug, PartialEq, Eq)]
pub struct Suback {
    pub packet_id: PacketId,
    pub return_codes: Vec<Option<QualityOfService>>,
}

/// Mathematical model of a Suback.
#[verifier::ext_equal]
pub struct SubackView {
    pub packet_id: PacketId,
    pub return_codes: Seq<Option<QualityOfService>>,
}

impl View for Suback {
    type V = SubackView;

    open spec fn view(&self) -> SubackView {
        SubackView { packet_id: self.packet_id, return_codes: self.return_codes@ }
    }
}

/// An unsubscription request.
#[derive(Clone, Debug, PartialEq, Eq)]
pub struct Unsubscribe {
    pub packet_id: PacketId,
    pub topic_filters: Vec<Vec<u8>>,
}

/// Mathematical model of an Unsubscribe.
#[verifier::ext_equal]
pub struct UnsubscribeView {
    pub packet_id: PacketId,
    pub topic_filters: Seq<Seq<u8>>,
}

impl View for Unsubscribe {
    type V = UnsubscribeView;

    open spec fn view(&self) -> UnsubscribeView {
        UnsubscribeView {
            packet_id: self.packet_id,
            topic_filters: topics_view(self.topic_filters@),
        }
    }
}

/// An unsubscription acknowledgement.
#[derive(Clone, Copy, PartialEq, Eq, Structural, Debug)]
pub struct Unsuback {
    pub packet_id: PacketId,
}

impl View for Unsuback {
    type V = Unsuback;

    open spec fn view(&self) -> Unsuback {
        *self
    }
}

/// A keep-alive probe.
#[derive(Clone, Copy, PartialEq, Eq, Structural, Debug)]
pub struct Pingreq {}

impl View for Pingreq {
    type V = Pingreq;

    open spec fn view(&self) -> Pingreq {
        *self
    }
}

/// The reply to a keep-alive probe.
#[derive(Clone, Copy, PartialEq, Eq, Structural, Debug)]
pub struct Pingresp {}

impl View for Pingresp {
    type V = Pingresp;

    open spec fn view(&self) -> Pingresp {
        *self
    }
}

/// A graceful connection shutdown, cancelling any will.
#[derive(Clone, Copy, PartialEq, Eq, Structural, Debug)]
pub struct Disconnect {}

impl View for Disconnect {
    type V = Disconnect;

    open spec fn view(&self) -> Disconnect {
        *self
    }
}

/// Mathematical model of a control packet of any kind.
#[verifier::ext_equal]
pub enum MsgView {
    Connect(ConnectView),
    Connack(Connack),
    Publish(PublishView),
    Puback(Puback),
    Pubrec(Pubrec),
    Pubrel(Pubrel),
    Pubcomp(Pubcomp),
    Subscribe(SubscribeView),
    Suback(SubackView),
    Unsubscribe(UnsubscribeView),
    Unsuback(Unsuback),
    Pingreq(Pingreq),
    Pingresp(Pingresp),
    Disconnect(Disconnect),
}

/// A control packet of any of the fourteen kinds: the unit the codec
/// serializes and deserializes as a whole.
#[derive(Clone, Debug, PartialEq, Eq)]
pub enum WrappedMessage {
    WConnect(Connect),
    WConnack(Connack),
    WPublish(Publish),
    WPuback(Puback),
    WPubrec(Pubrec),
    WPubrel(Pubrel),
    WPubcomp(Pubcomp),
    WSubscribe(Subscribe),
    WSuback(Suback),
    WUnsubscribe(Unsubscribe),
    WUnsuback(Unsuback),
    WPingreq(Pingreq),
    WPingresp(Pingresp),
    WDisconnect(Disconnect),
}

impl View for WrappedMessage {
    type V = MsgView;

    open spec fn view(&self) -> MsgView {
        match self {
            WrappedMessage::WConnect(m) => MsgView::Connect(m@),
            WrappedMessage::WConnack(m) => MsgView::Connack(m@),
            WrappedMessage::WPublish(m) => MsgView::Publish(m@),
            WrappedMessage::WPuback(m) => MsgView::Puback(m@),
            WrappedMessage::WPubrec(m) => MsgView::Pubrec(m@),
            WrappedMessage::WPubrel(m) => MsgView::Pubrel(m@),
            WrappedMessage::WPubcomp(m) => MsgView::Pubcomp(m@),
            WrappedMessage::WSubscribe(m) => MsgView::Subscribe(m@),
            WrappedMessage::WSuback(m) => MsgView::Suback(m@),
            WrappedMessage::WUnsubscribe(m) => MsgView::Unsubscribe(m@),
            WrappedMessage::WUnsuback(m) => MsgView::Unsuback(m@),
            WrappedMessage::WPingreq(m) => MsgView::Pingreq(m@),
            WrappedMessage::WPingresp(m) => MsgView::Pingresp(m@),
            WrappedMessage::WDisconnect(m) => MsgView::Disconnect(m@),
        }
    }
}

/// The packet type of a message.
pub open spec fn msg_type(m: MsgView) -> ControlPacketType {
    match m {
        MsgView::Connect(_) => ControlPacketType::Connect,
        MsgView::Connack(_) => ControlPacketType::Connack,
        MsgView::Publish(_) => ControlPacketType::Publish,
        MsgView::Puback(_) => ControlPacketType::Puback,
        MsgView::Pubrec(_) => ControlPacketType::Pubrec,
        MsgView::Pubrel(_) => ControlPacketType::Pubrel,
        MsgView::Pubcomp(_) => ControlPacketType::Pubcomp,
        MsgView::Subscribe(_) => ControlPacketType::Subscribe,
        MsgView::Suback(_) => ControlPacketType::Suback,
        MsgView::Unsubscribe(_) => ControlPacketType::Unsubscribe,
        MsgView::Unsuback(_) => ControlPacketType::Unsuback,
        MsgView::Pingreq(_) => ControlPacketType::Pingreq,
        MsgView::Pingresp(_) => ControlPacketType::Pingresp,
        MsgView::Disconnect(_) => ControlPacketType::Disconnect,
    }
}

/// The flag bits of a Publish: duplicate-delivery, the two
/// quality-of-service bits, and retain.
pub open spec fn publish_flags(dup: bool, qos: QualityOfService, retain: bool) -> [bool; 4] {
    [dup, qos_num(qos) / 2 == 1, qos_num(qos) % 2 == 1, retain]
}

/// The flag nibble of a message: derived for Publish, mandated as
/// `0,0,1,0` for Pubrel, Subscribe and Unsubscribe, zero otherwise.
pub open spec fn msg_flags(m: MsgView) -> [bool; 4] {
    match m {
        MsgView::Publish(p) => publish_flags(p.dup, p.qos, p.retain),
        MsgView::Pubrel(_) => [false, false, true, false],
        MsgView::Subscribe(_) => [false, false, true, false],
        MsgView::Unsubscribe(_) => [false, false, true, false],
        _ => [false, false, false, false],
    }
}

/// The variable header of a message, none for the three header-less
/// kinds.
pub open spec fn msg_vh_view(m: MsgView) -> Option<VariableHeaderView> {
    match m {
        MsgView::Connect(c) => Some(
            VariableHeaderView::Connect {
                username: c.username.len() > 0,
                password: c.password.len() > 0,
                will_retain: match c.will {
                    Some(w) => w.retain,
                    None => false,
                },
                will_qos: match c.will {
                    Some(w) => w.qos,
                    None => QualityOfService::AtMostOnce,
                },
                will_flag: c.will is Some,
                clean_session: c.clean_session,
                keep_alive: c.keep_alive,
            },
        ),
        MsgView::Connack(c) => Some(
            VariableHeaderView::Connack {
                session_present: c.session_present,
                return_code: c.return_code,
            },
        ),
        MsgView::Publish(p) => Some(
            VariableHeaderView::Publish { topic_name: p.topic, packet_id: p.packet_id },
        ),
        MsgView::Puback(m) => Some(VariableHeaderView::Puback(m.packet_id)),
        MsgView::Pubrec(m) => Some(VariableHeaderView::Pubrec(m.packet_id)),
        MsgView::Pubrel(m) => Some(VariableHeaderView::Pubrel(m.packet_id)),
        MsgView::Pubcomp(m) => Some(VariableHeaderView::Pubcomp(m.packet_id)),
        MsgView::Subscribe(m) => Some(VariableHeaderView::Subscribe(m.packet_id)),
        MsgView::Suback(m) => Some(VariableHeaderView::Suback(m.packet_id)),
        MsgView::Unsubscribe(m) => Some(VariableHeaderView::Unsubscribe(m.packet_id)),
        MsgView::Unsuback(m) => Some(VariableHeaderView::Unsuback(m.packet_id)),
        MsgView::Pingreq(_) => None,
        MsgView::Pingresp(_) => None,
        MsgView::Disconnect(_) => None,
    }
}

/// The payload of a message, none for the kinds that carry none.
pub open spec fn msg_payload_view(m: MsgView) -> Option<PayloadView> {
    match m {
        MsgView::Connect(c) => Some(
            PayloadView::Connect {
                client_id: c.client_id,
                will: match c.will {
                    Some(w) => Some((w.topic, w.message)),
                    None => None,
                },
                username: c.username,
                password: c.password,
            },
        ),
        MsgView::Publish(p) => Some(PayloadView::Publish(p.payload)),
        MsgView::Subscribe(s) => Some(PayloadView::Subscribe(s.topic_filters)),
        MsgView::Suback(s) => Some(PayloadView::Suback(s.return_codes)),
        MsgView::Unsubscribe(u) => Some(PayloadView::Unsubscribe(u.topic_filters)),
        _ => None,
    }
}

/// Bytes of an optional variable header.
pub open spec fn opt_vh_bytes(o: Option<VariableHeaderView>) -> Seq<u8> {
    match o {
        Some(v) => vh_bytes(v),
        None => Seq::<u8>::empty(),
    }
}

/// Bytes of an optional payload.
pub open spec fn opt_payload_bytes(o: Option<PayloadView>) -> Seq<u8> {
    match o {
        Some(p) => payload_bytes(p),
        None => Seq::<u8>::empty(),
    }
}

/// The body of a packet: variable header bytes then payload bytes.
/// Its length is the packet's Remaining Length.
pub open spec fn msg_body(m: MsgView) -> Seq<u8> {
    opt_vh_bytes(msg_vh_view(m)) + opt_payload_bytes(msg_payload_view(m))
}

/// Whether an optional variable header fits its wire fields.
pub open spec fn opt_vh_wf(o: Option<VariableHeaderView>) -> bool {
    match o {
        Some(v) => vh_wf(v),
        None => true,
    }
}

/// Whether an optional payload fits its wire fields.
pub open spec fn opt_payload_wf(o: Option<PayloadView>) -> bool {
    match o {
        Some(p) => payload_wf(p),
        None => true,
    }
}

/// Whether every string of the message fits its 16-bit length prefix.
pub open spec fn msg_wf(m: MsgView) -> bool {
    opt_vh_wf(msg_vh_view(m)) && opt_payload_wf(msg_payload_view(m))
}

/// Whether the message can be serialized: its strings fit their
/// prefixes and its body length fits the Remaining Length bound.
pub open spec fn msg_encodable(m: MsgView) -> bool {
    msg_wf(m) && msg_body(m).len() <= REMAINING_LENGTH_MAX
}

/// Whether a message is a conforming packet that survives a round
/// trip through the codec: it is serializable, a Subscribe or
/// Unsubscribe names at least one filter, and a Publish carries a
/// packet identifier exactly when its level is above at-most-once.
pub open spec fn msg_valid(m: MsgView) -> bool {
    &&& msg_encodable(m)
    &&& (m matches MsgView::Subscribe(s) ==> s.topic_filters.len() > 0)
    &&& (m matches MsgView::Unsubscribe(u) ==> u.topic_filters.len() > 0)
    &&& (m matches MsgView::Publish(p) ==> ((p.packet_id is Some) <==> p.qos
        != QualityOfService::AtMostOnce))
}

/// The fixed header a message is framed with.
pub open spec fn msg_fh_view(m: MsgView) -> FixedHeaderView {
    FixedHeaderView {
        packet_type: msg_type(m),
        flags: msg_flags(m),
        remaining_length: msg_body(m).len() as u32,
    }
}

/// The complete wire encoding of a message.
pub open spec fn msg_encode(m: MsgView) -> Seq<u8> {
    fh_encode(msg_fh_view(m)) + msg_body(m)
}

/// One control packet: its type, its flag bits, and its parts.
pub trait Message: Sized {
    fn packet_type(&self) -> ControlPacketType;

    fn flags(&self) -> [bool; 4];

    fn variable_header(&self) -> Option<VariableHeader>;

    fn payload(&self) -> Option<Payload>;
}

/// The view of an optional variable header value.
pub open spec fn opt_vh_view(o: Option<VariableHeader>) -> Option<VariableHeaderView> {
    match o {
        Some(v) => Some(v@),
        None => None,
    }
}

/// The view of an optional payload value.
pub open spec fn opt_payload_view(o: Option<Payload>) -> Option<PayloadView> {
    match o {
        Some(p) => Some(p@),
        None => None,
    }
}

/// Copies a list of subscription entries.
fn clone_filters(src: &Vec<(Vec<u8>, QualityOfService)>) -> (r: Vec<(Vec<u8>, QualityOfService)>)
    ensures
        filters_view(r@) == filters_view(src@),
{
    let mut out: Vec<(Vec<u8>, QualityOfService)> = Vec::new();
    let mut i: usize = 0;
    while i < src.len()
        invariant
            i <= src@.len(),
            filters_view(out@) == filters_view(src@.take(i as int)),
        decreases src@.len() - i,
    {
        let ghost prev = out@;
        let t = clone_bytes(&src[i].0);
        out.push((t, src[i].1));
        proof {
            let taken = src@.take(i as int + 1);
            assert(filters_view(prev).len() == prev.len());
            assert(filters_view(src@.take(i as int)).len() == src@.take(i as int).len());
            assert(prev.len() == i as int);
            assert(out@ == prev.push((t, src@[i as int].1)));
            assert(out@.len() == i + 1);
            assert(taken.len() == i + 1);
            assert(filters_view(taken).len() == taken.len());
            assert(filters_view(out@).len() == out@.len());
            assert forall|j: int| 0 <= j < out@.len() implies filters_view(out@)[j] == filters_view(
                taken,
            )[j] by {
                assert(filters_view(out@)[j] == (out@[j].0@, out@[j].1));
                assert(filters_view(taken)[j] == (taken[j].0@, taken[j].1));
                if j < i as int {
                    assert(out@[j] == prev[j]);
                    assert(filters_view(prev)[j] == (prev[j].0@, prev[j].1));
                }
            }
            assert(filters_view(out@) =~= filters_view(taken));
        }
        i = i + 1;
    }
    assert(src@.take(src@.len() as int) =~= src@);
    out
}

/// Copies a list of topic filters.
fn clone_topics(src: &Vec<Vec<u8>>) -> (r: Vec<Vec<u8>>)
    ensures
        topics_view(r@) == topics_view(src@),
{
    let mut out: Vec<Vec<u8>> = Vec::new();
    let mut i: usize = 0;
    while i < src.len()
        invariant
            i <= src@.len(),
            topics_view(out@) == topics_view(src@.take(i as int)),
        decreases src@.len() - i,
    {
        let ghost prev = out@;
        out.push(clone_bytes(&src[i]));
        proof {
            let taken = src@.take(i as int + 1);
            assert(topics_view(prev).len() == prev.len());
            assert(topics_view(src@.take(i as int)).len() == src@.take(i as int).len());
            assert(prev.len() == i as int);
            assert(out@.len() == i + 1);
            assert(taken.len() == i + 1);
            assert(topics_view(taken).len() == taken.len());
            assert(topics_view(out@).len() == out@.len());
            assert forall|j: int| 0 <= j < out@.len() implies topics_view(out@)[j] == topics_view(
                taken,
            )[j] by {
                assert(topics_view(out@)[j] == out@[j]@);
                assert(topics_view(taken)[j] == taken[j]@);
                if j < i as int {
                    assert(out@[j] == prev[j]);
                    assert(topics_view(prev)[j] == prev[j]@);
                }
            }
            assert(topics_view(out@) =~= topics_view(taken));
        }
        i = i + 1;
    }
    assert(src@.take(src@.len() as int) =~= src@);
    out
}

/// Copies a list of Suback codes.
fn clone_codes(src: &Vec<Option<QualityOfService>>) -> (r: Vec<Option<QualityOfService>>)
    ensures
        r@ == src@,
{
    let mut out: Vec<Option<QualityOfService>> = Vec::new();
    let mut i: usize = 0;
    while i < src.len()
        invariant
            i <= src@.len(),
            out@ == src@.take(i as int),
        decreases src@.len() - i,
    {
        out.push(src[i]);
        assert(out@ =~= src@.take(i + 1));
        i = i + 1;
    }
    assert(src@.take(src@.len() as int) =~= src@);
    out
}

impl Message for Connect {
    fn packet_type(&self) -> (r: ControlPacketType)
        ensures
            r == msg_type(MsgView::Connect(self@)),
    {
        ControlPacketType::Connect
    }

    fn flags(&self) -> (r: [bool; 4])
        ensures
            r == msg_flags(MsgView::Connect(self@)),
    {
        [false, false, false, false]
    }

    fn variable_header(&self) -> (r: Option<VariableHeader>)
        ensures
            opt_vh_view(r) == msg_vh_view(MsgView::Connect(self@)),
    {
        let (will_retain, will_qos, will_flag) = match &self.will {
            Some(w) => (w.retain, w.qos, true),
            None => (false, QualityOfService::AtMostOnce, false),
        };
        Some(
            VariableHeader::Connect {
                username: self.username.len() > 0,
                password: self.password.len() > 0,
                will_retain,
                will_qos,
                will_flag,
                clean_session: self.clean_session,
                keep_alive: self.keep_alive,
            },
        )
    }

    fn payload(&self) -> (r: Option<Payload>)
        ensures
            opt_payload_view(r) == msg_payload_view(MsgView::Connect(self@)),
    {
        let will = match &self.will {
            Some(w) => Some((clone_bytes(&w.topic), clone_bytes(&w.message))),
            None => None,
        };
        let r = Some(
            Payload::Connect {
                client_id: clone_bytes(&self.client_id),
                will,
                username: clone_bytes(&self.username),
                password: clone_bytes(&self.password),
            },
        );
        assert(opt_payload_view(r) =~= msg_payload_view(MsgView::Connect(self@)));
        r
    }
}

impl Message for Connack {
    fn packet_type(&self) -> (r: ControlPacketType)
        ensures
            r == msg_type(MsgView::Connack(self@)),
    {
        ControlPacketType::Connack
    }

    fn flags(&self) -> (r: [bool; 4])
        ensures
            r == msg_flags(MsgView::Connack(self@)),
    {
        [false, false, false, false]
    }

    fn variable_header(&self) -> (r: Option<VariableHeader>)
        ensures
            opt_vh_view(r) == msg_vh_view(MsgView::Connack(self@)),
    {
        Some(
            VariableHeader::Connack {
                session_present: self.session_present,
                return_code: self.return_code,
            },
        )
    }

    fn payload(&self) -> (r: Option<Payload>)
        ensures
            opt_payload_view(r) == msg_payload_view(MsgView::Connack(self@)),
    {
        None
    }
}

impl Message for Publish {
    fn packet_type(&self) -> (r: ControlPacketType)
        ensures
            r == msg_type(MsgView::Publish(self@)),
    {
        ControlPacketType::Publish
    }

    fn flags(&self) -> (r: [bool; 4])
        ensures
            r == msg_flags(MsgView::Publish(self@)),
    {
        let (qos_high, qos_low) = self.qos.bits();
        let r = [self.dup, qos_high, qos_low, self.retain];
        assert(r =~= publish_flags(self.dup, self.qos, self.retain));
        r
    }

    fn variable_header(&self) -> (r: Option<VariableHeader>)
        ensures
            opt_vh_view(r) == msg_vh_view(MsgView::Publish(self@)),
    {
        let r = Some(
            VariableHeader::Publish {
                topic_name: clone_bytes(&self.topic),
                packet_id: self.packet_id,
            },
        );
        assert(opt_vh_view(r) =~= msg_vh_view(MsgView::Publish(self@)));
        r
    }

    fn payload(&self) -> (r: Option<Payload>)
        ensures
            opt_payload_view(r) == msg_payload_view(MsgView::Publish(self@)),
    {
        let r = Some(Payload::Publish(clone_bytes(&self.payload)));
        assert(opt_payload_view(r) =~= msg_payload_view(MsgView::Publish(self@)));
        r
    }
}

impl Message for Puback {
    fn packet_type(&self) -> (r: ControlPacketType)
        ensures
            r == msg_type(MsgView::Puback(self@)),
    {
        ControlPacketType::Puback
    }

    fn flags(&self) -> (r: [bool; 4])
        ensures
            r == msg_flags(MsgView::Puback(self@)),
    {
        [false, false, false, false]
    }

    fn variable_header(&self) -> (r: Option<VariableHeader>)
        ensures
            opt_vh_view(r) == msg_vh_view(MsgView::Puback(self@)),
    {
        Some(VariableHeader::Puback(self.packet_id))
    }

    fn payload(&self) -> (r: Option<Payload>)
        ensures
            opt_payload_view(r) == msg_payload_view(MsgView::Puback(self@)),
    {
        None
    }
}

impl Message for Pubrec {
    fn packet_type(&self) -> (r: ControlPacketType)
        ensures
            r == msg_type(MsgView::Pubrec(self@)),
    {
        ControlPacketType::Pubrec
    }

    fn flags(&self) -> (r: [bool; 4])
        ensures
            r == msg_flags(MsgView::Pubrec(self@)),
    {
        [false, false, false, false]
    }

    fn variable_header(&self) -> (r: Option<VariableHeader>)
        ensures
            opt_vh_view(r) == msg_vh_view(MsgView::Pubrec(self@)),
    {
        Some(VariableHeader::Pubrec(self.packet_id))
    }

    fn payload(&self) -> (r: Option<Payload>)
        ensures
            opt_payload_view(r) == msg_payload_view(MsgView::Pubrec(self@)),
    {
        None
    }
}

impl Message for Pubrel {
    fn packet_type(&self) -> (r: ControlPacketType)
        ensures
            r == msg_type(MsgView::Pubrel(self@)),
    {
        ControlPacketType::Pubrel
    }

    fn flags(&self) -> (r: [bool; 4])
        ensures
            r == msg_flags(MsgView::Pubrel(self@)),
    {
        [false, false, true, false]
    }

    fn variable_header(&self) -> (r: Option<VariableHeader>)
        ensures
            opt_vh_view(r) == msg_vh_view(MsgView::Pubrel(self@)),
    {
        Some(VariableHeader::Pubrel(self.packet_id))
    }

    fn payload(&self) -> (r: Option<Payload>)
        ensures
            opt_payload_view(r) == msg_payload_view(MsgView::Pubrel(self@)),
    {
        None
    }
}

impl Message for Pubcomp {
    fn packet_type(&self) -> (r: ControlPacketType)
        ensures
            r == msg_type(MsgView::Pubcomp(self@)),
    {
        ControlPacketType::Pubcomp
    }

    fn flags(&self) -> (r: [bool; 4])
        ensures
            r == msg_flags(MsgView::Pubcomp(self@)),
    {
        [false, false, false, false]
    }

    fn variable_header(&self) -> (r: Option<VariableHeader>)
        ensures
            opt_vh_view(r) == msg_vh_view(MsgView::Pubcomp(self@)),
    {
        Some(VariableHeader::Pubcomp(self.packet_id))
    }

    fn payload(&self) -> (r: Option<Payload>)
        ensures
            opt_payload_view(r) == msg_payload_view(MsgView::Pubcomp(self@)),
    {
        None
    }
}

impl Message for Subscribe {
    fn packet_type(&self) -> (r: ControlPacketType)
        ensures
            r == msg_type(MsgView::Subscribe(self@)),
    {
        ControlPacketType::Subscribe
    }

    fn flags(&self) -> (r: [bool; 4])
        ensures
            r == msg_flags(MsgView::Subscribe(self@)),
    {
        [false, false, true, false]
    }

    fn variable_header(&self) -> (r: Option<VariableHeader>)
        ensures
            opt_vh_view(r) == msg_vh_view(MsgView::Subscribe(self@)),
    {
        Some(VariableHeader::Subscribe(self.packet_id))
    }

    fn payload(&self) -> (r: Option<Payload>)
        ensures
            opt_payload_view(r) == msg_payload_view(MsgView::Subscribe(self@)),
    {
        let r = Some(Payload::Subscribe(clone_filters(&self.topic_filters)));
        assert(opt_payload_view(r) =~= msg_payload_view(MsgView::Subscribe(self@)));
        r
    }
}

impl Message for Suback {
    fn packet_type(&self) -> (r: ControlPacketType)
        ensures
            r == msg_type(MsgView::Suback(self@)),
    {
        ControlPacketType::Suback
    }

    fn flags(&self) -> (r: [bool; 4])
        ensures
            r == msg_flags(MsgView::Suback(self@)),
    {
        [false, false, false, false]
    }

    fn variable_header(&self) -> (r: Option<VariableHeader>)
        ensures
            opt_vh_view(r) == msg_vh_view(MsgView::Suback(self@)),
    {
        Some(VariableHeader::Suback(self.packet_id))
    }

    fn payload(&self) -> (r: Option<Payload>)
        ensures
            opt_payload_view(r) == msg_payload_view(MsgView::Suback(self@)),
    {
        let r = Some(Payload::Suback(clone_codes(&self.return_codes)));
        assert(opt_payload_view(r) =~= msg_payload_view(MsgView::Suback(self@)));
        r
    }
}

impl Message for Unsubscribe {
    fn packet_type(&self) -> (r: ControlPacketType)
        ensures
            r == msg_type(MsgView::Unsubscribe(self@)),
    {
        ControlPacketType::Unsubscribe
    }

    fn flags(&self) -> (r: [bool; 4])
        ensures
            r == msg_flags(MsgView::Unsubscribe(self@)),
    {
        [false, false, true, false]
    }

    fn variable_header(&self) -> (r: Option<VariableHeader>)
        ensures
            opt_vh_view(r) == msg_vh_view(MsgView::Unsubscribe(self@)),
    {
        Some(VariableHeader::Unsubscribe(self.packet_id))
    }

    fn payload(&self) -> (r: Option<Payload>)
        ensures
            opt_payload_view(r) == msg_payload_view(MsgView::Unsubscribe(self@)),
    {
        let r = Some(Payload::Unsubscribe(clone_topics(&self.topic_filters)));
        assert(opt_payload_view(r) =~= msg_payload_view(MsgView::Unsubscribe(self@)));
        r
    }
}

impl Message for Unsuback {
    fn packet_type(&self) -> (r: ControlPacketType)
        ensures
            r == msg_type(MsgView::Unsuback(self@)),
    {
        ControlPacketType::Unsuback
    }

    fn flags(&self) -> (r: [bool; 4])
        ensures
            r == msg_flags(MsgView::Unsuback(self@)),
    {
        [false, false, false, false]
    }

    fn variable_header(&self) -> (r: Option<VariableHeader>)
        ensures
            opt_vh_view(r) == msg_vh_view(MsgView::Unsuback(self@)),
    {
        Some(VariableHeader::Unsuback(self.packet_id))
    }

    fn payload(&self) -> (r: Option<Payload>)
        ensures
            opt_payload_view(r) == msg_payload_view(MsgView::Unsuback(self@)),
    {
        None
    }
}

impl Message for Pingreq {
    fn packet_type(&self) -> (r: ControlPacketType)
        ensures
            r == msg_type(MsgView::Pingreq(self@)),
    {
        ControlPacketType::Pingreq
    }

    fn flags(&self) -> (r: [bool; 4])
        ensures
            r == msg_flags(MsgView::Pingreq(self@)),
    {
        [false, false, false, false]
    }

    fn variable_header(&self) -> (r: Option<VariableHeader>)
        ensures
            opt_vh_view(r) == msg_vh_view(MsgView::Pingreq(self@)),
    {
        None
    }

    fn payload(&self) -> (r: Option<Payload>)
        ensures
            opt_payload_view(r) == msg_payload_view(MsgView::Pingreq(self@)),
    {
        None
    }
}

impl Message for Pingresp {
    fn packet_type(&self) -> (r: ControlPacketType)
        ensures
            r == msg_type(MsgView::Pingresp(self@)),
    {
        ControlPacketType::Pingresp
    }

    fn flags(&self) -> (r: [bool; 4])
        ensures
            r == msg_flags(MsgView::Pingresp(self@)),
    {
        [false, false, false, false]
    }

    fn variable_header(&self) -> (r: Option<VariableHeader>)
        ensures
            opt_vh_view(r) == msg_vh_view(MsgView::Pingresp(self@)),
    {
        None
    }

    fn payload(&self) -> (r: Option<Payload>)
        ensures
            opt_payload_view(r) == msg_payload_view(MsgView::Pingresp(self@)),
    {
        None
    }
}

impl Message for Disconnect {
    fn packet_type(&self) -> (r: ControlPacketType)
        ensures
            r == msg_type(MsgView::Disconnect(self@)),
    {
        ControlPacketType::Disconnect
    }

    fn flags(&self) -> (r: [bool; 4])
        ensures
            r == msg_flags(MsgView::Disconnect(self@)),
    {
        [false, false, false, false]
    }

    fn variable_header(&self) -> (r: Option<VariableHeader>)
        ensures
            opt_vh_view(r) == msg_vh_view(MsgView::Disconnect(self@)),
    {
        None
    }

    fn payload(&self) -> (r: Option<Payload>)
        ensures
            opt_payload_view(r) == msg_payload_view(MsgView::Disconnect(self@)),
    {
        None
    }
}

/// Renders a payload to bytes, rejecting any string that does not fit
/// its 16-bit length prefix.
fn payload_as_bytes(p: &Payload) -> (r: Result<Vec<u8>, EncodeError>)
    ensures
        payload_wf(p@) ==> (r matches Ok(v) && v@ == payload_bytes(p@)),
        !payload_wf(p@) ==> r is Err,
{
    let mut out: Vec<u8> = Vec::new();
    match p {
        Payload::Connect { client_id, will, username, password } => {
            if client_id.len() > 65535 || username.len() > 65535 || password.len() > 65535 {
                return Err(EncodeError::OutOfRange);
            }
            push_lp(&mut out, client_id.as_slice());
            match will {
                Some(w) => {
                    if w.0.len() > 65535 || w.1.len() > 65535 {
                        return Err(EncodeError::OutOfRange);
                    }
                    push_lp(&mut out, w.0.as_slice());
                    push_lp(&mut out, w.1.as_slice());
                },
                None => (),
            }
            if username.len() > 0 {
                push_lp(&mut out, username.as_slice());
            }
            if password.len() > 0 {
                push_lp(&mut out, password.as_slice());
            }
            assert(out@ =~= payload_bytes(p@));
            Ok(out)
        },
        Payload::Publish(b) => {
            push_bytes(&mut out, b.as_slice());
            assert(out@ =~= payload_bytes(p@));
            Ok(out)
        },
        Payload::Subscribe(f) => {
            let ghost fv = filters_view(f@);
            let mut i: usize = 0;
            while i < f.len()
                invariant
                    i <= f@.len(),
                    fv == filters_view(f@),
                    p@ == PayloadView::Subscribe(fv),
                    out@ == filters_bytes(fv.take(i as int)),
                    filters_wf(fv.take(i as int)),
                decreases f@.len() - i,
            {
                if f[i].0.len() > 65535 {
                    assert(fv[i as int].0.len() > 65535);
                    assert(!filters_wf(fv));
                    return Err(EncodeError::OutOfRange);
                }
                push_lp(&mut out, f[i].0.as_slice());
                out.push(f[i].1.to_byte());
                proof {
                    lemma_filters_bytes_split(fv.take(i as int + 1), i as int);
                    assert(fv.take(i as int + 1).take(i as int) =~= fv.take(i as int));
                    assert(fv.take(i as int + 1).skip(i as int) =~= seq![fv[i as int]]);
                    assert(seq![fv[i as int]].skip(1) =~= Seq::<
                        (Seq<u8>, QualityOfService),
                    >::empty());
                    assert(filters_bytes(Seq::<(Seq<u8>, QualityOfService)>::empty()) =~= Seq::<
                        u8,
                    >::empty());
                    assert(filters_bytes(seq![fv[i as int]]) =~= lp(fv[i as int].0) + seq![
                        qos_num(fv[i as int].1),
                    ]);
                    assert(out@ =~= filters_bytes(fv.take(i as int + 1)));
                }
                i = i + 1;
            }
            assert(fv.take(f@.len() as int) =~= fv);
            Ok(out)
        },
        Payload::Suback(c) => {
            let mut i: usize = 0;
            while i < c.len()
                invariant
                    i <= c@.len(),
                    out@ == codes_bytes(c@.take(i as int)),
                decreases c@.len() - i,
            {
                let code = crate::payload::SubackReturn::from_qos(c[i]);
                out.push(code.to_byte());
                proof {
                    crate::payload::lemma_codes_bytes_split(c@.take(i as int + 1), i as int);
                    assert(c@.take(i as int + 1).take(i as int) =~= c@.take(i as int));
                    assert(c@.take(i as int + 1).skip(i as int) =~= seq![c@[i as int]]);
                    assert(seq![c@[i as int]].skip(1) =~= Seq::<Option<QualityOfService>>::empty());
                    assert(codes_bytes(Seq::<Option<QualityOfService>>::empty()) =~= Seq::<
                        u8,
                    >::empty());
                    assert(codes_bytes(seq![c@[i as int]]) =~= seq![suback_code(c@[i as int])]);
                    assert(out@ =~= codes_bytes(c@.take(i as int + 1)));
                }
                i = i + 1;
            }
            assert(c@.take(c@.len() as int) =~= c@);
            Ok(out)
        },
        Payload::Unsubscribe(t) => {
            let ghost tv = topics_view(t@);
            let mut i: usize = 0;
            while i < t.len()
                invariant
                    i <= t@.len(),
                    tv == topics_view(t@),
                    p@ == PayloadView::Unsubscribe(tv),
                    out@ == topics_bytes(tv.take(i as int)),
                    topics_wf(tv.take(i as int)),
                decreases t@.len() - i,
            {
                if t[i].len() > 65535 {
                    assert(tv[i as int].len() > 65535);
                    assert(!topics_wf(tv));
                    return Err(EncodeError::OutOfRange);
                }
                push_lp(&mut out, t[i].as_slice());
                proof {
                    lemma_topics_bytes_split(tv.take(i as int + 1), i as int);
                    assert(tv.take(i as int + 1).take(i as int) =~= tv.take(i as int));
                    assert(tv.take(i as int + 1).skip(i as int) =~= seq![tv[i as int]]);
                    assert(seq![tv[i as int]].skip(1) =~= Seq::<Seq<u8>>::empty());
                    assert(topics_bytes(Seq::<Seq<u8>>::empty()) =~= Seq::<u8>::empty());
                    assert(topics_bytes(seq![tv[i as int]]) =~= lp(tv[i as int]));
                    assert(out@ =~= topics_bytes(tv.take(i as int + 1)));
                }
                i = i + 1;
            }
            assert(tv.take(t@.len() as int) =~= tv);
            Ok(out)
        },
    }
}

/// Renders the body of a packet: variable header bytes then payload
/// bytes.
fn body_bytes(vh: &Option<VariableHeader>, pl: &Option<Payload>) -> (r: Result<
    Vec<u8>,
    EncodeError,
>)
    ensures
        opt_vh_wf(opt_vh_view(*vh)) && opt_payload_wf(opt_payload_view(*pl)) ==> (r matches Ok(v)
            && v@ == opt_vh_bytes(opt_vh_view(*vh)) + opt_payload_bytes(opt_payload_view(*pl))),
        !(opt_vh_wf(opt_vh_view(*vh)) && opt_payload_wf(opt_payload_view(*pl))) ==> r is Err,
{
    let mut out: Vec<u8> = Vec::new();
    match vh {
        Some(v) => {
            match v {
                VariableHeader::Publish { topic_name, .. } => {
                    if topic_name.len() > 65535 {
                        return Err(EncodeError::OutOfRange);
                    }
                },
                _ => (),
            }
            let mut vb = v.as_bytes();
            out.append(&mut vb);
        },
        None => (),
    }
    match pl {
        Some(p) => {
            let mut pb = match payload_as_bytes(p) {
                Ok(b) => b,
                Err(e) => {
                    return Err(e);
                },
            };
            out.append(&mut pb);
        },
        None => (),
    }
    assert(opt_vh_wf(opt_vh_view(*vh)) && opt_payload_wf(opt_payload_view(*pl)) ==> out@
        =~= opt_vh_bytes(opt_vh_view(*vh)) + opt_payload_bytes(opt_payload_view(*pl)));
    Ok(out)
}

impl WrappedMessage {
    /// The packet type of this message.
    pub fn packet_type(&self) -> (r: ControlPacketType)
        ensures
            r == msg_type(self@),
    {
        match self {
            WrappedMessage::WConnect(m) => m.packet_type(),
            WrappedMessage::WConnack(m) => m.packet_type(),
            WrappedMessage::WPublish(m) => m.packet_type(),
            WrappedMessage::WPuback(m) => m.packet_type(),
            WrappedMessage::WPubrec(m) => m.packet_type(),
            WrappedMessage::WPubrel(m) => m.packet_type(),
            WrappedMessage::WPubcomp(m) => m.packet_type(),
            WrappedMessage::WSubscribe(m) => m.packet_type(),
            WrappedMessage::WSuback(m) => m.packet_type(),
            WrappedMessage::WUnsubscribe(m) => m.packet_type(),
            WrappedMessage::WUnsuback(m) => m.packet_type(),
            WrappedMessage::WPingreq(m) => m.packet_type(),
            WrappedMessage::WPingresp(m) => m.packet_type(),
            WrappedMessage::WDisconnect(m) => m.packet_type(),
        }
    }

    /// The flag nibble bits this message is framed with.
    pub fn flags(&self) -> (r: [bool; 4])
        ensures
            r == msg_flags(self@),
    {
        match self {
            WrappedMessage::WConnect(m) => m.flags(),
            WrappedMessage::WConnack(m) => m.flags(),
            WrappedMessage::WPublish(m) => m.flags(),
            WrappedMessage::WPuback(m) => m.flags(),
            WrappedMessage::WPubrec(m) => m.flags(),
            WrappedMessage::WPubrel(m) => m.flags(),
            WrappedMessage::WPubcomp(m) => m.flags(),
            WrappedMessage::WSubscribe(m) => m.flags(),
            WrappedMessage::WSuback(m) => m.flags(),
            WrappedMessage::WUnsubscribe(m) => m.flags(),
            WrappedMessage::WUnsuback(m) => m.flags(),
            WrappedMessage::WPingreq(m) => m.flags(),
            WrappedMessage::WPingresp(m) => m.flags(),
            WrappedMessage::WDisconnect(m) => m.flags(),
        }
    }

    /// The variable header of this message.
    pub fn variable_header(&self) -> (r: Option<VariableHeader>)
        ensures
            opt_vh_view(r) == msg_vh_view(self@),
    {
        match self {
            WrappedMessage::WConnect(m) => m.variable_header(),
            WrappedMessage::WConnack(m) => m.variable_header(),
            WrappedMessage::WPublish(m) => m.variable_header(),
            WrappedMessage::WPuback(m) => m.variable_header(),
            WrappedMessage::WPubrec(m) => m.variable_header(),
            WrappedMessage::WPubrel(m) => m.variable_header(),
            WrappedMessage::WPubcomp(m) => m.variable_header(),
            WrappedMessage::WSubscribe(m) => m.variable_header(),
            WrappedMessage::WSuback(m) => m.variable_header(),
            WrappedMessage::WUnsubscribe(m) => m.variable_header(),
            WrappedMessage::WUnsuback(m) => m.variable_header(),
            WrappedMessage::WPingreq(m) => m.variable_header(),
            WrappedMessage::WPingresp(m) => m.variable_header(),
            WrappedMessage::WDisconnect(m) => m.variable_header(),
        }
    }

    /// The payload of this message.
    pub fn payload(&self) -> (r: Option<Payload>)
        ensures
            opt_payload_view(r) == msg_payload_view(self@),
    {
        match self {
            WrappedMessage::WConnect(m) => m.payload(),
            WrappedMessage::WConnack(m) => m.payload(),
            WrappedMessage::WPublish(m) => m.payload(),
            WrappedMessage::WPuback(m) => m.payload(),
            WrappedMessage::WPubrec(m) => m.payload(),
            WrappedMessage::WPubrel(m) => m.payload(),
            WrappedMessage::WPubcomp(m) => m.payload(),
            WrappedMessage::WSubscribe(m) => m.payload(),
            WrappedMessage::WSuback(m) => m.payload(),
            WrappedMessage::WUnsubscribe(m) => m.payload(),
            WrappedMessage::WUnsuback(m) => m.payload(),
            WrappedMessage::WPingreq(m) => m.payload(),
            WrappedMessage::WPingresp(m) => m.payload(),
            WrappedMessage::WDisconnect(m) => m.payload(),
        }
    }

    /// The Remaining Length this message is framed with: the byte
    /// count of its variable header and payload together.
    pub fn remaining_length(&self) -> (r: Result<RemainingLength, EncodeError>)
        ensures
            msg_encodable(self@) ==> (r matches Ok(rl) && rl@ == msg_body(self@).len()),
            !msg_encodable(self@) ==> r is Err,
    {
        let vh = self.variable_header();
        let pl = self.payload();
        let body = match body_bytes(&vh, &pl) {
            Ok(b) => b,
            Err(e) => {
                return Err(e);
            },
        };
        if body.len() > REMAINING_LENGTH_MAX as usize {
            return Err(EncodeError::OutOfRange);
        }
        RemainingLength::try_new(body.len() as u32)
    }

    /// The fixed header this message is framed with.
    pub fn fixed_header(&self) -> (r: Result<FixedHeader, EncodeError>)
        ensures
            msg_encodable(self@) ==> (r matches Ok(h) && h@ == msg_fh_view(self@)),
            !msg_encodable(self@) ==> r is Err,
    {
        let remaining_length = match self.remaining_length() {
            Ok(rl) => rl,
            Err(e) => {
                return Err(e);
            },
        };
        Ok(
            FixedHeader {
                packet_type: self.packet_type(),
                flags: self.flags(),
                remaining_length,
            },
        )
    }
}

/// What decoding a Connect body yields: the ten-byte variable header
/// with the protocol name and level validated, the connect-flags byte
/// with its reserved bit and will level validated, then the
/// length-prefixed payload fields the flags announce, which must fill
/// the body exactly.
pub open spec fn parse_connect(s: Seq<u8>) -> Result<MsgView, DecodeError> {
    if s.len() < 10 {
        Err(DecodeError::MalformedPayload)
    } else if !(s[0] == 0 && s[1] == 4 && s[2] == 77 && s[3] == 81 && s[4] == 84 && s[5] == 84
        && s[6] == 4) {
        Err(DecodeError::MalformedPayload)
    } else if s[7] % 2 != 0 {
        Err(DecodeError::MalformedPayload)
    } else if (s[7] / 8) % 4 == 3 {
        Err(DecodeError::MalformedPayload)
    } else {
        let cf = s[7];
        let username_flag = (cf / 128) % 2 == 1;
        let password_flag = (cf / 64) % 2 == 1;
        let will_retain = (cf / 32) % 2 == 1;
        let will_qos = qos_of_num(((cf / 8) % 4) as u8);
        let will_flag = (cf / 4) % 2 == 1;
        let clean_session = (cf / 2) % 2 == 1;
        let keep_alive = u16_of(s[8], s[9]);
        match parse_lp(s, 10) {
            None => Err(DecodeError::MalformedPayload),
            Some((client_id, j1)) => match parse_opt_lp(s, j1, will_flag) {
                None => Err(DecodeError::MalformedPayload),
                Some((wtopic, j2)) => match parse_opt_lp(s, j2, will_flag) {
                    None => Err(DecodeError::MalformedPayload),
                    Some((wmsg, j3)) => match parse_opt_lp(s, j3, username_flag) {
                        None => Err(DecodeError::MalformedPayload),
                        Some((username, j4)) => match parse_opt_lp(s, j4, password_flag) {
                            None => Err(DecodeError::MalformedPayload),
                            Some((password, j5)) => {
                                if j5 == s.len() {
                                    Ok(
                                        MsgView::Connect(
                                            ConnectView {
                                                client_id,
                                                username,
                                                password,
                                                will: if will_flag {
                                                    Some(
                                                        WillView {
                                                            retain: will_retain,
                                                            qos: will_qos,
                                                            topic: wtopic,
                                                            message: wmsg,
                                                        },
                                                    )
                                                } else {
                                                    None
                                                },
                                                clean_session,
                                                keep_alive,
                                            },
                                        ),
                                    )
                                } else {
                                    Err(DecodeError::MalformedPayload)
                                }
                            },
                        },
                    },
                },
            },
        }
    }
}

/// What decoding a Connack body yields: exactly two bytes, the first
/// carrying only the session-present bit, the second a return code up
/// to 5.
pub open spec fn parse_connack(s: Seq<u8>) -> Result<MsgView, DecodeError> {
    if s.len() != 2 {
        Err(DecodeError::MalformedPayload)
    } else if s[0] > 1 {
        Err(DecodeError::MalformedPayload)
    } else if s[1] > 5 {
        Err(DecodeError::MalformedPayload)
    } else {
        Ok(MsgView::Connack(Connack { session_present: s[0] == 1, return_code: rc_of_num(s[1]) }))
    }
}

/// What decoding a Publish body yields, given the flag bits of its
/// fixed header: the quality of service comes from the two middle flag
/// bits, with the pair set together invalid; a packet identifier
/// follows the topic exactly when the level is above at-most-once; the
/// rest of the body is the application payload.
pub open spec fn parse_publish(flags: [bool; 4], s: Seq<u8>) -> Result<MsgView, DecodeError> {
    if flags[1] && flags[2] {
        Err(DecodeError::InvalidFlags)
    } else {
        let qos = qos_of_num(((if flags[1] { 2int } else { 0int }) + (if flags[2] { 1int } else { 0int })) as u8);
        match parse_lp(s, 0) {
            None => Err(DecodeError::MalformedPayload),
            Some((topic, j)) => {
                if qos == QualityOfService::AtMostOnce {
                    Ok(
                        MsgView::Publish(
                            PublishView {
                                dup: flags[0],
                                qos,
                                retain: flags[3],
                                topic,
                                packet_id: None,
                                payload: s.skip(j),
                            },
                        ),
                    )
                } else if j + 2 <= s.len() {
                    Ok(
                        MsgView::Publish(
                            PublishView {
                                dup: flags[0],
                                qos,
                                retain: flags[3],
                                topic,
                                packet_id: Some(u16_of(s[j], s[j + 1])),
                                payload: s.skip(j + 2),
                            },
                        ),
                    )
                } else {
                    Err(DecodeError::MalformedPayload)
                }
            },
        }
    }
}

/// What decoding a packet-identifier-only body yields: exactly the two
/// bytes of the identifier.
pub open spec fn parse_pid(s: Seq<u8>) -> Result<u16, DecodeError> {
    if s.len() == 2 {
        Ok(u16_of(s[0], s[1]))
    } else {
        Err(DecodeError::MalformedPayload)
    }
}

/// What decoding a Subscribe payload yields: entries of a
/// length-prefixed filter and a requested level up to 2, filling the
/// region exactly.
pub open spec fn parse_filters(s: Seq<u8>) -> Result<
    Seq<(Seq<u8>, QualityOfService)>,
    DecodeError,
>
    decreases s.len(),
{
    if s.len() == 0 {
        Ok(Seq::empty())
    } else {
        match parse_lp(s, 0) {
            None => Err(DecodeError::MalformedPayload),
            Some((t, j)) => {
                if j >= s.len() {
                    Err(DecodeError::MalformedPayload)
                } else if s[j] > 2 {
                    Err(DecodeError::MalformedPayload)
                } else {
                    match parse_filters(s.skip(j + 1)) {
                        Ok(rest) => Ok(seq![(t, qos_of_num(s[j]))] + rest),
                        Err(e) => Err(e),
                    }
                }
            },
        }
    }
}

/// What decoding a Suback payload yields: one code per byte, each a
/// granted level or the failure marker 128.
pub open spec fn parse_codes(s: Seq<u8>) -> Result<Seq<Option<QualityOfService>>, DecodeError>
    decreases s.len(),
{
    if s.len() == 0 {
        Ok(Seq::empty())
    } else if s[0] <= 2 || s[0] == 128 {
        match parse_codes(s.skip(1)) {
            Ok(rest) => Ok(
                seq![(if s[0] == 128 {
                    None
                } else {
                    Some(qos_of_num(s[0]))
                })] + rest,
            ),
            Err(e) => Err(e),
        }
    } else {
        Err(DecodeError::MalformedPayload)
    }
}

/// What decoding an Unsubscribe payload yields: length-prefixed
/// filters filling the region exactly.
pub open spec fn parse_topics(s: Seq<u8>) -> Result<Seq<Seq<u8>>, DecodeError>
    decreases s.len(),
{
    if s.len() == 0 {
        Ok(Seq::empty())
    } else {
        match parse_lp(s, 0) {
            None => Err(DecodeError::MalformedPayload),
            Some((t, j)) => match parse_topics(s.skip(j)) {
                Ok(rest) => Ok(seq![t] + rest),
                Err(e) => Err(e),
            },
        }
    }
}

/// What decoding a Subscribe body yields: the packet identifier, then
/// at least one filter entry.
pub open spec fn parse_subscribe(s: Seq<u8>) -> Result<MsgView, DecodeError> {
    if s.len() < 2 {
        Err(DecodeError::MalformedPayload)
    } else {
        match parse_filters(s.skip(2)) {
            Ok(f) => {
                if f.len() == 0 {
                    Err(DecodeError::MalformedPayload)
                } else {
                    Ok(
                        MsgView::Subscribe(
                            SubscribeView { packet_id: u16_of(s[0], s[1]), topic_filters: f },
                        ),
                    )
                }
            },
            Err(e) => Err(e),
        }
    }
}

/// What decoding a Suback body yields: the packet identifier, then the
/// return codes.
pub open spec fn parse_suback(s: Seq<u8>) -> Result<MsgView, DecodeError> {
    if s.len() < 2 {
        Err(DecodeError::MalformedPayload)
    } else {
        match parse_codes(s.skip(2)) {
            Ok(c) => Ok(
                MsgView::Suback(SubackView { packet_id: u16_of(s[0], s[1]), return_codes: c }),
            ),
            Err(e) => Err(e),
        }
    }
}

/// What decoding an Unsubscribe body yields: the packet identifier,
/// then at least one filter.
pub open spec fn parse_unsubscribe(s: Seq<u8>) -> Result<MsgView, DecodeError> {
    if s.len() < 2 {
        Err(DecodeError::MalformedPayload)
    } else {
        match parse_topics(s.skip(2)) {
            Ok(t) => {
                if t.len() == 0 {
                    Err(DecodeError::MalformedPayload)
                } else {
                    Ok(
                        MsgView::Unsubscribe(
                            UnsubscribeView { packet_id: u16_of(s[0], s[1]), topic_filters: t },
                        ),
                    )
                }
            },
            Err(e) => Err(e),
        }
    }
}

/// What decoding the body of a packet of the given type code yields.
/// The three body-less kinds demand an empty body.
pub open spec fn msg_body_decode(code: u8, flags: [bool; 4], s: Seq<u8>) -> Result<
    MsgView,
    DecodeError,
> {
    if code == 1 {
        parse_connect(s)
    } else if code == 2 {
        parse_connack(s)
    } else if code == 3 {
        parse_publish(flags, s)
    } else if code == 4 {
        match parse_pid(s) {
            Ok(p) => Ok(MsgView::Puback(Puback { packet_id: p })),
            Err(e) => Err(e),
        }
    } else if code == 5 {
        match parse_pid(s) {
            Ok(p) => Ok(MsgView::Pubrec(Pubrec { packet_id: p })),
            Err(e) => Err(e),
        }
    } else if code == 6 {
        match parse_pid(s) {
            Ok(p) => Ok(MsgView::Pubrel(Pubrel { packet_id: p })),
            Err(e) => Err(e),
        }
    } else if code == 7 {
        match parse_pid(s) {
            Ok(p) => Ok(MsgView::Pubcomp(Pubcomp { packet_id: p })),
            Err(e) => Err(e),
        }
    } else if code == 8 {
        parse_subscribe(s)
    } else if code == 9 {
        parse_suback(s)
    } else if code == 10 {
        parse_unsubscribe(s)
    } else if code == 11 {
        match parse_pid(s) {
            Ok(p) => Ok(MsgView::Unsuback(Unsuback { packet_id: p })),
            Err(e) => Err(e),
        }
    } else if code == 12 {
        if s.len() == 0 {
            Ok(MsgView::Pingreq(Pingreq {  }))
        } else {
            Err(DecodeError::MalformedPayload)
        }
    } else if code == 13 {
        if s.len() == 0 {
            Ok(MsgView::Pingresp(Pingresp {  }))
        } else {
            Err(DecodeError::MalformedPayload)
        }
    } else if code == 14 {
        if s.len() == 0 {
            Ok(MsgView::Disconnect(Disconnect {  }))
        } else {
            Err(DecodeError::MalformedPayload)
        }
    } else {
        Err(DecodeError::InvalidControlPacketType)
    }
}

/// What decoding a whole packet off the front of a byte stream yields:
/// the fixed header, then exactly Remaining Length bytes of body,
/// which the per-type decoder must consume exactly.
pub open spec fn msg_decode(s: Seq<u8>) -> Result<(MsgView, int), DecodeError> {
    match fh_decode(s) {
        Err(e) => Err(e),
        Ok((h, n)) => {
            let rl = h.remaining_length as int;
            if s.len() < n + rl {
                Err(DecodeError::TruncatedPacket)
            } else {
                match msg_body_decode(cpt_num(h.packet_type), h.flags, s.subrange(n, n + rl)) {
                    Ok(m) => Ok((m, n + rl)),
                    Err(e) => Err(e),
                }
            }
        },
    }
}

/// Decodes a Connect body.
fn de_connect(s: &[u8]) -> (r: Result<Connect, DecodeError>)
    ensures
        match r {
            Ok(m) => parse_connect(s@) == Ok::<MsgView, DecodeError>(MsgView::Connect(m@)),
            Err(e) => parse_connect(s@) == Err::<MsgView, DecodeError>(e),
        },
{
    if s.len() < 10 {
        return Err(DecodeError::MalformedPayload);
    }
    if !(s[0] == 0 && s[1] == 4 && s[2] == 77 && s[3] == 81 && s[4] == 84 && s[5] == 84 && s[6]
        == 4) {
        return Err(DecodeError::MalformedPayload);
    }
    let cf = s[7];
    if cf % 2 != 0 {
        return Err(DecodeError::MalformedPayload);
    }
    if (cf / 8) % 4 == 3 {
        return Err(DecodeError::MalformedPayload);
    }
    let username_flag = (cf / 128) % 2 == 1;
    let password_flag = (cf / 64) % 2 == 1;
    let will_retain = (cf / 32) % 2 == 1;
    let will_qos = QualityOfService::from_byte((cf / 8) % 4);
    let will_flag = (cf / 4) % 2 == 1;
    let clean_session = (cf / 2) % 2 == 1;
    let keep_alive = read_u16(s, 8);
    let (client_id, j1) = match take_lp(s, 10) {
        Some(p) => p,
        None => {
            return Err(DecodeError::MalformedPayload);
        },
    };
    let (wtopic, j2) = match take_opt_lp(s, j1, will_flag) {
        Some(p) => p,
        None => {
            return Err(DecodeError::MalformedPayload);
        },
    };
    let (wmsg, j3) = match take_opt_lp(s, j2, will_flag) {
        Some(p) => p,
        None => {
            return Err(DecodeError::MalformedPayload);
        },
    };
    let (username, j4) = match take_opt_lp(s, j3, username_flag) {
        Some(p) => p,
        None => {
            return Err(DecodeError::MalformedPayload);
        },
    };
    let (password, j5) = match take_opt_lp(s, j4, password_flag) {
        Some(p) => p,
        None => {
            return Err(DecodeError::MalformedPayload);
        },
    };
    if j5 != s.len() {
        return Err(DecodeError::MalformedPayload);
    }
    let will = if will_flag {
        Some(Will { retain: will_retain, qos: will_qos, topic: wtopic, message: wmsg })
    } else {
        None
    };
    let m = Connect { client_id, username, password, will, clean_session, keep_alive };
    assert(parse_connect(s@) == Ok::<MsgView, DecodeError>(MsgView::Connect(m@)));
    Ok(m)
}

/// Decodes a Connack body.
fn de_connack(s: &[u8]) -> (r: Result<Connack, DecodeError>)
    ensures
        match r {
            Ok(m) => parse_connack(s@) == Ok::<MsgView, DecodeError>(MsgView::Connack(m@)),
            Err(e) => parse_connack(s@) == Err::<MsgView, DecodeError>(e),
        },
{
    if s.len() != 2 {
        return Err(DecodeError::MalformedPayload);
    }
    if s[0] > 1 {
        return Err(DecodeError::MalformedPayload);
    }
    let return_code = match ConnackReturnCode::from_byte(s[1]) {
        Ok(c) => c,
        Err(e) => {
            return Err(e);
        },
    };
    Ok(Connack { session_present: s[0] == 1, return_code })
}

/// Decodes a Publish body, given the flag bits of its fixed header.
fn de_publish(flags: [bool; 4], s: &[u8]) -> (r: Result<Publish, DecodeError>)
    ensures
        match r {
            Ok(m) => parse_publish(flags, s@) == Ok::<MsgView, DecodeError>(MsgView::Publish(m@)),
            Err(e) => parse_publish(flags, s@) == Err::<MsgView, DecodeError>(e),
        },
{
    if flags[1] && flags[2] {
        return Err(DecodeError::InvalidFlags);
    }
    let qos_bits: u8 = (if flags[1] {
        2
    } else {
        0
    }) + (if flags[2] {
        1
    } else {
        0
    });
    let qos = QualityOfService::from_byte(qos_bits);
    let (topic, j) = match take_lp(s, 0) {
        Some(p) => p,
        None => {
            return Err(DecodeError::MalformedPayload);
        },
    };
    if qos_bits == 0 {
        let payload = slice_to_vec(s, j, s.len());
        assert(payload@ =~= s@.skip(j as int));
        Ok(Publish { dup: flags[0], qos, retain: flags[3], topic, packet_id: None, payload })
    } else {
        if s.len() - j < 2 {
            return Err(DecodeError::MalformedPayload);
        }
        let pid = read_u16(s, j);
        let payload = slice_to_vec(s, j + 2, s.len());
        assert(payload@ =~= s@.skip(j as int + 2));
        Ok(
            Publish {
                dup: flags[0],
                qos,
                retain: flags[3],
                topic,
                packet_id: Some(pid),
                payload,
            },
        )
    }
}

/// Decodes a body that carries exactly a packet identifier.
fn de_pid(s: &[u8]) -> (r: Result<u16, DecodeError>)
    ensures
        match r {
            Ok(p) => parse_pid(s@) == Ok::<u16, DecodeError>(p),
            Err(e) => parse_pid(s@) == Err::<u16, DecodeError>(e),
        },
{
    if s.len() != 2 {
        return Err(DecodeError::MalformedPayload);
    }
    Ok(read_u16(s, 0))
}

/// Decodes the entries of a Subscribe payload.
fn de_filters(s: &[u8]) -> (r: Result<Vec<(Vec<u8>, QualityOfService)>, DecodeError>)
    ensures
        match r {
            Ok(f) => parse_filters(s@) == Ok::<Seq<(Seq<u8>, QualityOfService)>, DecodeError>(
                filters_view(f@),
            ),
            Err(e) => parse_filters(s@) == Err::<Seq<(Seq<u8>, QualityOfService)>, DecodeError>(e),
        },
{
    let mut out: Vec<(Vec<u8>, QualityOfService)> = Vec::new();
    let mut i: usize = 0;
    proof {
        assert(s@.skip(0) =~= s@);
        assert(filters_view(out@) =~= Seq::<(Seq<u8>, QualityOfService)>::empty());
        match parse_filters(s@) {
            Ok(rest) => {
                assert(filters_view(out@) + rest =~= rest);
            },
            Err(_) => {},
        }
    }
    while i < s.len()
        invariant
            i <= s@.len(),
            parse_filters(s@) == (match parse_filters(s@.skip(i as int)) {
                Ok(rest) => Ok::<Seq<(Seq<u8>, QualityOfService)>, DecodeError>(
                    filters_view(out@) + rest,
                ),
                Err(e) => Err::<Seq<(Seq<u8>, QualityOfService)>, DecodeError>(e),
            }),
        decreases s@.len() - i,
    {
        proof {
            lemma_parse_lp_shift(s@, i as int);
        }
        let (topic, j) = match take_lp(s, i) {
            Some(p) => p,
            None => {
                return Err(DecodeError::MalformedPayload);
            },
        };
        if j >= s.len() {
            return Err(DecodeError::MalformedPayload);
        }
        proof {
            assert(s@.skip(i as int)[j - i] == s@[j as int]);
        }
        let qb = s[j];
        if qb > 2 {
            return Err(DecodeError::MalformedPayload);
        }
        let q = QualityOfService::from_byte(qb);
        let ghost prev = out@;
        out.push((topic, q));
        proof {
            let si = s@.skip(i as int);
            assert(si.skip(j - i + 1) =~= s@.skip(j as int + 1));
            lemma_filters_view_push(prev, (topic, q));
            match parse_filters(s@.skip(j as int + 1)) {
                Ok(rest) => {
                    assert(filters_view(out@) + rest =~= filters_view(prev) + (seq![
                        (topic@, qos_of_num(s@[j as int])),
                    ] + rest));
                },
                Err(_) => {},
            }
        }
        i = j + 1;
    }
    proof {
        assert(s@.skip(s@.len() as int) =~= Seq::<u8>::empty());
    }
    Ok(out)
}

/// Decodes the codes of a Suback payload.
fn de_codes(s: &[u8]) -> (r: Result<Vec<Option<QualityOfService>>, DecodeError>)
    ensures
        match r {
            Ok(c) => parse_codes(s@) == Ok::<Seq<Option<QualityOfService>>, DecodeError>(c@),
            Err(e) => parse_codes(s@) == Err::<Seq<Option<QualityOfService>>, DecodeError>(e),
        },
{
    let mut out: Vec<Option<QualityOfService>> = Vec::new();
    let mut i: usize = 0;
    proof {
        assert(s@.skip(0) =~= s@);
        match parse_codes(s@) {
            Ok(rest) => {
                assert(out@ + rest =~= rest);
            },
            Err(_) => {},
        }
    }
    while i < s.len()
        invariant
            i <= s@.len(),
            parse_codes(s@) == (match parse_codes(s@.skip(i as int)) {
                Ok(rest) => Ok::<Seq<Option<QualityOfService>>, DecodeError>(out@ + rest),
                Err(e) => Err::<Seq<Option<QualityOfService>>, DecodeError>(e),
            }),
        decreases s@.len() - i,
    {
        proof {
            assert(s@.skip(i as int)[0] == s@[i as int]);
        }
        let b = s[i];
        if b > 2 && b != 128 {
            return Err(DecodeError::MalformedPayload);
        }
        let x = if b == 128 {
            None
        } else {
            Some(QualityOfService::from_byte(b))
        };
        let ghost prev = out@;
        out.push(x);
        proof {
            assert(s@.skip(i as int).skip(1) =~= s@.skip(i as int + 1));
            match parse_codes(s@.skip(i as int + 1)) {
                Ok(rest) => {
                    assert(out@ + rest =~= prev + (seq![x] + rest));
                },
                Err(_) => {},
            }
        }
        i = i + 1;
    }
    proof {
        assert(s@.skip(s@.len() as int) =~= Seq::<u8>::empty());
    }
    Ok(out)
}

/// Decodes the filters of an Unsubscribe payload.
fn de_topics(s: &[u8]) -> (r: Result<Vec<Vec<u8>>, DecodeError>)
    ensures
        match r {
            Ok(t) => parse_topics(s@) == Ok::<Seq<Seq<u8>>, DecodeError>(topics_view(t@)),
            Err(e) => parse_topics(s@) == Err::<Seq<Seq<u8>>, DecodeError>(e),
        },
{
    let mut out: Vec<Vec<u8>> = Vec::new();
    let mut i: usize = 0;
    proof {
        assert(s@.skip(0) =~= s@);
        assert(topics_view(out@) =~= Seq::<Seq<u8>>::empty());
        match parse_topics(s@) {
            Ok(rest) => {
                assert(topics_view(out@) + rest =~= rest);
            },
            Err(_) => {},
        }
    }
    while i < s.len()
        invariant
            i <= s@.len(),
            parse_topics(s@) == (match parse_topics(s@.skip(i as int)) {
                Ok(rest) => Ok::<Seq<Seq<u8>>, DecodeError>(topics_view(out@) + rest),
                Err(e) => Err::<Seq<Seq<u8>>, DecodeError>(e),
            }),
        decreases s@.len() - i,
    {
        proof {
            lemma_parse_lp_shift(s@, i as int);
        }
        let (topic, j) = match take_lp(s, i) {
            Some(p) => p,
            None => {
                return Err(DecodeError::MalformedPayload);
            },
        };
        let ghost prev = out@;
        out.push(topic);
        proof {
            let si = s@.skip(i as int);
            assert(si.skip(j - i) =~= s@.skip(j as int));
            lemma_topics_view_push(prev, topic);
            match parse_topics(s@.skip(j as int)) {
                Ok(rest) => {
                    assert(topics_view(out@) + rest =~= topics_view(prev) + (seq![topic@] + rest));
                },
                Err(_) => {},
            }
        }
        i = j;
    }
    proof {
        assert(s@.skip(s@.len() as int) =~= Seq::<u8>::empty());
    }
    Ok(out)
}

/// Decodes a Subscribe body.
fn de_subscribe(s: &[u8]) -> (r: Result<Subscribe, DecodeError>)
    ensures
        match r {
            Ok(m) => parse_subscribe(s@) == Ok::<MsgView, DecodeError>(MsgView::Subscribe(m@)),
            Err(e) => parse_subscribe(s@) == Err::<MsgView, DecodeError>(e),
        },
{
    if s.len() < 2 {
        return Err(DecodeError::MalformedPayload);
    }
    let packet_id = read_u16(s, 0);
    assert(s@.subrange(2, s@.len() as int) =~= s@.skip(2));
    let topic_filters = match de_filters(&s[2..s.len()]) {
        Ok(f) => f,
        Err(e) => {
            return Err(e);
        },
    };
    if topic_filters.len() == 0 {
        return Err(DecodeError::MalformedPayload);
    }
    Ok(Subscribe { packet_id, topic_filters })
}

/// Decodes a Suback body.
fn de_suback(s: &[u8]) -> (r: Result<Suback, DecodeError>)
    ensures
        match r {
            Ok(m) => parse_suback(s@) == Ok::<MsgView, DecodeError>(MsgView::Suback(m@)),
            Err(e) => parse_suback(s@) == Err::<MsgView, DecodeError>(e),
        },
{
    if s.len() < 2 {
        return Err(DecodeError::MalformedPayload);
    }
    let packet_id = read_u16(s, 0);
    assert(s@.subrange(2, s@.len() as int) =~= s@.skip(2));
    let return_codes = match de_codes(&s[2..s.len()]) {
        Ok(c) => c,
        Err(e) => {
            return Err(e);
        },
    };
    Ok(Suback { packet_id, return_codes })
}

/// Decodes an Unsubscribe body.
fn de_unsubscribe(s: &[u8]) -> (r: Result<Unsubscribe, DecodeError>)
    ensures
        match r {
            Ok(m) => parse_unsubscribe(s@) == Ok::<MsgView, DecodeError>(MsgView::Unsubscribe(m@)),
            Err(e) => parse_unsubscribe(s@) == Err::<MsgView, DecodeError>(e),
        },
{
    if s.len() < 2 {
        return Err(DecodeError::MalformedPayload);
    }
    let packet_id = read_u16(s, 0);
    assert(s@.subrange(2, s@.len() as int) =~= s@.skip(2));
    let topic_filters = match de_topics(&s[2..s.len()]) {
        Ok(t) => t,
        Err(e) => {
            return Err(e);
        },
    };
    if topic_filters.len() == 0 {
        return Err(DecodeError::MalformedPayload);
    }
    Ok(Unsubscribe { packet_id, topic_filters })
}

impl Serde for WrappedMessage {
    open spec fn spec_ser(&self) -> Seq<u8> {
        msg_encode(self@)
    }

    open spec fn ser_ok(&self) -> bool {
        msg_encodable(self@)
    }

    open spec fn spec_de(bytes: Seq<u8>) -> Result<(MsgView, int), DecodeError> {
        msg_decode(bytes)
    }

    fn ser(&self) -> (r: Result<Vec<u8>, EncodeError>)
        ensures
            self.ser_ok() ==> (r matches Ok(v) && v@ == self.spec_ser()),
            !self.ser_ok() ==> r is Err,
    {
        let vh = self.variable_header();
        let pl = self.payload();
        let body = match body_bytes(&vh, &pl) {
            Ok(b) => b,
            Err(e) => {
                return Err(e);
            },
        };
        if body.len() > REMAINING_LENGTH_MAX as usize {
            return Err(EncodeError::OutOfRange);
        }
        let remaining_length = match RemainingLength::try_new(body.len() as u32) {
            Ok(rl) => rl,
            Err(e) => {
                return Err(e);
            },
        };
        let fh = FixedHeader {
            packet_type: self.packet_type(),
            flags: self.flags(),
            remaining_length,
        };
        let mut out = match fh.ser() {
            Ok(b) => b,
            Err(e) => {
                return Err(e);
            },
        };
        push_bytes(&mut out, body.as_slice());
        proof {
            assert(fh@ == msg_fh_view(self@));
            assert(out@ =~= msg_encode(self@));
        }
        Ok(out)
    }

    fn de(bytes: &[u8]) -> (r: Result<(WrappedMessage, usize), DecodeError>)
        ensures
            match r {
                Ok((v, n)) => msg_decode(bytes@) == Ok::<(MsgView, int), DecodeError>(
                    (v@, n as int),
                ),
                Err(e) => msg_decode(bytes@) == Err::<(MsgView, int), DecodeError>(e),
            },
    {
        let (fh, hn) = match FixedHeader::de(bytes) {
            Ok(p) => p,
            Err(e) => {
                return Err(e);
            },
        };
        assert(hn <= bytes@.len());
        let rl = fh.remaining_length.value() as usize;
        if bytes.len() - hn < rl {
            return Err(DecodeError::TruncatedPacket);
        }
        let region = &bytes[hn..hn + rl];
        let code = fh.packet_type.to_byte();
        let consumed = hn + rl;
        if code == 1 {
            match de_connect(region) {
                Ok(m) => Ok((WrappedMessage::WConnect(m), consumed)),
                Err(e) => Err(e),
            }
        } else if code == 2 {
            match de_connack(region) {
                Ok(m) => Ok((WrappedMessage::WConnack(m), consumed)),
                Err(e) => Err(e),
            }
        } else if code == 3 {
            match de_publish(fh.flags, region) {
                Ok(m) => Ok((WrappedMessage::WPublish(m), consumed)),
                Err(e) => Err(e),
            }
        } else if code == 4 {
            match de_pid(region) {
                Ok(p) => Ok((WrappedMessage::WPuback(Puback { packet_id: p }), consumed)),
                Err(e) => Err(e),
            }
        } else if code == 5 {
            match de_pid(region) {
                Ok(p) => Ok((WrappedMessage::WPubrec(Pubrec { packet_id: p }), consumed)),
                Err(e) => Err(e),
            }
        } else if code == 6 {
            match de_pid(region) {
                Ok(p) => Ok((WrappedMessage::WPubrel(Pubrel { packet_id: p }), consumed)),
                Err(e) => Err(e),
            }
        } else if code == 7 {
            match de_pid(region) {
                Ok(p) => Ok((WrappedMessage::WPubcomp(Pubcomp { packet_id: p }), consumed)),
                Err(e) => Err(e),
            }
        } else if code == 8 {
            match de_subscribe(region) {
                Ok(m) => Ok((WrappedMessage::WSubscribe(m), consumed)),
                Err(e) => Err(e),
            }
        } else if code == 9 {
            match de_suback(region) {
                Ok(m) => Ok((WrappedMessage::WSuback(m), consumed)),
                Err(e) => Err(e),
            }
        } else if code == 10 {
            match de_unsubscribe(region) {
                Ok(m) => Ok((WrappedMessage::WUnsubscribe(m), consumed)),
                Err(e) => Err(e),
            }
        } else if code == 11 {
            match de_pid(region) {
                Ok(p) => Ok((WrappedMessage::WUnsuback(Unsuback { packet_id: p }), consumed)),
                Err(e) => Err(e),
            }
        } else if code == 12 {
            if region.len() == 0 {
                Ok((WrappedMessage::WPingreq(Pingreq {  }), consumed))
            } else {
                Err(DecodeError::MalformedPayload)
            }
        } else if code == 13 {
            if region.len() == 0 {
                Ok((WrappedMessage::WPingresp(Pingresp {  }), consumed))
            } else {
                Err(DecodeError::MalformedPayload)
            }
        } else if code == 14 {
            if region.len() == 0 {
                Ok((WrappedMessage::WDisconnect(Disconnect {  }), consumed))
            } else {
                Err(DecodeError::MalformedPayload)
            }
        } else {
            Err(DecodeError::InvalidControlPacketType)
        }
    }
}

} // verus!
