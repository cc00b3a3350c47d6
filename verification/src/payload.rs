//! Per-packet-type payloads and their byte layouts.

use vstd::prelude::*;
use crate::qos::{qos_num, qos_of_num, QualityOfService};
use crate::serde::{lp, DecodeError};

verus! {

/// One entry of a Suback payload: a granted quality of service, or the
/// failure marker.
#[derive(Clone, Copy, PartialEq, Eq, Structural, Debug)]
pub enum SubackReturn {
    AtMostOnce,
    AtLeastOnce,
    ExactlyOnce,
    Failure,
}

/// The byte a Suback entry carries: the granted level, or 128 for
/// failure.
pub open spec fn suback_code(oq: Option<QualityOfService>) -> u8 {
    match oq {
        None => 128,
        Some(q) => qos_num(q),
    }
}

impl View for SubackReturn {
    type V = SubackReturn;

    open spec fn view(&self) -> SubackReturn {
        *self
    }
}

impl SubackReturn {
    /// The entry reporting a grant of the given level, or failure.
    pub fn from_qos(qos: Option<QualityOfService>) -> (r: SubackReturn)
        ensures
            r.to_qos_spec() == qos,
    {
        match qos {
            None => SubackReturn::Failure,
            Some(QualityOfService::AtMostOnce) => SubackReturn::AtMostOnce,
            Some(QualityOfService::AtLeastOnce) => SubackReturn::AtLeastOnce,
            Some(QualityOfService::ExactlyOnce) => SubackReturn::ExactlyOnce,
        }
    }

    /// The level this entry grants, none on failure.
    pub open spec fn to_qos_spec(&self) -> Option<QualityOfService> {
        match self {
            SubackReturn::Failure => None,
            SubackReturn::AtMostOnce => Some(QualityOfService::AtMostOnce),
            SubackReturn::AtLeastOnce => Some(QualityOfService::AtLeastOnce),
            SubackReturn::ExactlyOnce => Some(QualityOfService::ExactlyOnce),
        }
    }

    /// The level this entry grants, none on failure.
    pub fn to_qos(&self) -> (r: Option<QualityOfService>)
        ensures
            r == self.to_qos_spec(),
    {
        match self {
            SubackReturn::Failure => None,
            SubackReturn::AtMostOnce => Some(QualityOfService::AtMostOnce),
            SubackReturn::AtLeastOnce => Some(QualityOfService::AtLeastOnce),
            SubackReturn::ExactlyOnce => Some(QualityOfService::ExactlyOnce),
        }
    }

    /// Numeric wire encoding of this entry.
    pub fn to_byte(&self) -> (r: u8)
        ensures
            r == suback_code(self.to_qos_spec()),
    {
        match self {
            SubackReturn::AtMostOnce => 0,
            SubackReturn::AtLeastOnce => 1,
            SubackReturn::ExactlyOnce => 2,
            SubackReturn::Failure => 128,
        }
    }

    /// The entry a byte encodes: 0, 1 and 2 grant, 128 reports
    /// failure, everything else is rejected.
    pub fn from_byte(byte: u8) -> (r: Result<SubackReturn, DecodeError>)
        ensures
            byte <= 2 ==> (r matches Ok(s) && s.to_qos_spec() == Some(qos_of_num(byte))),
            byte == 128 ==> (r matches Ok(s) && s.to_qos_spec() is None),
            byte > 2 && byte != 128 ==> r == Err::<SubackReturn, DecodeError>(
                DecodeError::MalformedPayload,
            ),
    {
        match byte {
            0 => Ok(SubackReturn::AtMostOnce),
            1 => Ok(SubackReturn::AtLeastOnce),
            2 => Ok(SubackReturn::ExactlyOnce),
            128 => Ok(SubackReturn::Failure),
            _ => Err(DecodeError::MalformedPayload),
        }
    }
}

/// Bytes of a Subscribe payload: for each entry the length-prefixed
/// topic filter followed by the requested level.
pub open spec fn filters_bytes(f: Seq<(Seq<u8>, QualityOfService)>) -> Seq<u8>
    decreases f.len(),
{
    if f.len() == 0 {
        Seq::empty()
    } else {
        lp(f[0].0) + seq![qos_num(f[0].1)] + filters_bytes(f.skip(1))
    }
}

/// Bytes of a Suback payload: one code per entry.
pub open spec fn codes_bytes(c: Seq<Option<QualityOfService>>) -> Seq<u8>
    decreases c.len(),
{
    if c.len() == 0 {
        Seq::empty()
    } else {
        seq![suback_code(c[0])] + codes_bytes(c.skip(1))
    }
}

/// Bytes of an Unsubscribe payload: the length-prefixed topic filters
/// in order.
pub open spec fn topics_bytes(t: Seq<Seq<u8>>) -> Seq<u8>
    decreases t.len(),
{
    if t.len() == 0 {
        Seq::empty()
    } else {
        lp(t[0]) + topics_bytes(t.skip(1))
    }
}

/// A string field of the Connect payload, written only when present.
pub open spec fn opt_str_bytes(present: bool, s: Seq<u8>) -> Seq<u8> {
    if present {
        lp(s)
    } else {
        Seq::empty()
    }
}

/// Whether every Subscribe entry fits its 16-bit length prefix.
pub open spec fn filters_wf(f: Seq<(Seq<u8>, QualityOfService)>) -> bool {
    forall|i: int| 0 <= i < f.len() ==> f[i].0.len() <= 65535
}

/// Whether every Unsubscribe filter fits its 16-bit length prefix.
pub open spec fn topics_wf(t: Seq<Seq<u8>>) -> bool {
    forall|i: int| 0 <= i < t.len() ==> t[i].len() <= 65535
}

/// Mathematical model of a payload.
#[verifier::ext_equal]
pub enum PayloadView {
    Connect {
        client_id: Seq<u8>,
        will: Option<(Seq<u8>, Seq<u8>)>,
        username: Seq<u8>,
        password: Seq<u8>,
    },
    Publish(Seq<u8>),
    Subscribe(Seq<(Seq<u8>, QualityOfService)>),
    Suback(Seq<Option<QualityOfService>>),
    Unsubscribe(Seq<Seq<u8>>),
}

/// Whether a payload fits its wire fields. An empty Connect username
/// or password stands for an absent one, so only present fields are
/// measured.
pub open spec fn payload_wf(p: PayloadView) -> bool {
    match p {
        PayloadView::Connect { client_id, will, username, password } => {
            &&& client_id.len() <= 65535
            &&& (will matches Some(w) ==> w.0.len() <= 65535 && w.1.len() <= 65535)
            &&& username.len() <= 65535
            &&& password.len() <= 65535
        },
        PayloadView::Publish(_) => true,
        PayloadView::Subscribe(f) => filters_wf(f),
        PayloadView::Suback(_) => true,
        PayloadView::Unsubscribe(t) => topics_wf(t),
    }
}

/// Bytes of a payload. The Connect payload carries the client id, the
/// will topic and message when a will is present, and the username and
/// password when present, every string length-prefixed; a Publish
/// payload is the raw application bytes.
pub open spec fn payload_bytes(p: PayloadView) -> Seq<u8> {
    match p {
        PayloadView::Connect { client_id, will, username, password } => lp(client_id) + (match will {
            Some(w) => lp(w.0) + lp(w.1),
            None => Seq::<u8>::empty(),
        }) + opt_str_bytes(username.len() > 0, username) + opt_str_bytes(
            password.len() > 0,
            password,
        ),
        PayloadView::Publish(b) => b,
        PayloadView::Subscribe(f) => filters_bytes(f),
        PayloadView::Suback(c) => codes_bytes(c),
        PayloadView::Unsubscribe(t) => topics_bytes(t),
    }
}

/// The payload a control packet carries after its variable header.
#[derive(Clone, Debug, PartialEq, Eq)]
pub enum Payload {
    Connect {
        client_id: Vec<u8>,
        will: Option<(Vec<u8>, Vec<u8>)>,
        username: Vec<u8>,
        password: Vec<u8>,
    },
    Publish(Vec<u8>),
    Subscribe(Vec<(Vec<u8>, QualityOfService)>),
    Suback(Vec<Option<QualityOfService>>),
    Unsubscribe(Vec<Vec<u8>>),
}

/// The view of a Subscribe entry list.
pub open spec fn filters_view(f: Seq<(Vec<u8>, QualityOfService)>) -> Seq<
    (Seq<u8>, QualityOfService),
> {
    f.map_values(|p: (Vec<u8>, QualityOfService)| (p.0@, p.1))
}

/// The view of an Unsubscribe filter list.
pub open spec fn topics_view(t: Seq<Vec<u8>>) -> Seq<Seq<u8>> {
    t.map_values(|s: Vec<u8>| s@)
}

impl View for Payload {
    type V = PayloadView;

    open spec fn view(&self) -> PayloadView {
        match self {
            Payload::Connect { client_id, will, username, password } => PayloadView::Connect {
                client_id: client_id@,
                will: match will {
                    Some(w) => Some((w.0@, w.1@)),
                    None => None,
                },
                username: username@,
                password: password@,
            },
            Payload::Publish(b) => PayloadView::Publish(b@),
            Payload::Subscribe(f) => PayloadView::Subscribe(filters_view(f@)),
            Payload::Suback(c) => PayloadView::Suback(c@),
            Payload::Unsubscribe(t) => PayloadView::Unsubscribe(topics_view(t@)),
        }
    }
}

/// Appending an entry to a list appends its view to the list's view.
pub proof fn lemma_filters_view_push(f: Seq<(Vec<u8>, QualityOfService)>, x: (
    Vec<u8>,
    QualityOfService,
))
    ensures
        filters_view(f.push(x)) == filters_view(f).push((x.0@, x.1)),
{
    let lhs = filters_view(f.push(x));
    let rhs = filters_view(f).push((x.0@, x.1));
    assert(lhs.len() == rhs.len());
    assert forall|j: int| 0 <= j < lhs.len() implies lhs[j] == rhs[j] by {
        assert(lhs[j] == (f.push(x)[j].0@, f.push(x)[j].1));
        if j < f.len() {
            assert(f.push(x)[j] == f[j]);
            assert(filters_view(f)[j] == (f[j].0@, f[j].1));
        }
    }
    assert(lhs =~= rhs);
}

/// Appending a filter to a list appends its view to the list's view.
pub proof fn lemma_topics_view_push(t: Seq<Vec<u8>>, x: Vec<u8>)
    ensures
        topics_view(t.push(x)) == topics_view(t).push(x@),
{
    let lhs = topics_view(t.push(x));
    let rhs = topics_view(t).push(x@);
    assert(lhs.len() == rhs.len());
    assert forall|j: int| 0 <= j < lhs.len() implies lhs[j] == rhs[j] by {
        assert(lhs[j] == t.push(x)[j]@);
        if j < t.len() {
            assert(t.push(x)[j] == t[j]);
            assert(topics_view(t)[j] == t[j]@);
        }
    }
    assert(lhs =~= rhs);
}

/// The bytes of a list of Subscribe entries split anywhere: the bytes
/// of the front followed by the bytes of the back.
pub proof fn lemma_filters_bytes_split(f: Seq<(Seq<u8>, QualityOfService)>, i: int)
    requires
        0 <= i <= f.len(),
    ensures
        filters_bytes(f) == filters_bytes(f.take(i)) + filters_bytes(f.skip(i)),
    decreases i,
{
    if i == 0 {
        assert(f.take(0) =~= Seq::<(Seq<u8>, QualityOfService)>::empty());
        assert(f.skip(0) =~= f);
        assert(filters_bytes(f) =~= filters_bytes(f.take(0)) + filters_bytes(f.skip(0)));
    } else {
        lemma_filters_bytes_split(f.skip(1), i - 1);
        assert(f.skip(1).take(i - 1) =~= f.take(i).skip(1));
        assert(f.skip(1).skip(i - 1) =~= f.skip(i));
        assert(f.take(i).len() != 0 && f.take(i)[0] == f[0]);
        assert(filters_bytes(f.take(i)) == lp(f[0].0) + seq![qos_num(f[0].1)] + filters_bytes(
            f.take(i).skip(1),
        ));
        assert(filters_bytes(f) =~= filters_bytes(f.take(i)) + filters_bytes(f.skip(i)));
    }
}

/// The bytes of a list of Suback codes split anywhere.
pub proof fn lemma_codes_bytes_split(c: Seq<Option<QualityOfService>>, i: int)
    requires
        0 <= i <= c.len(),
    ensures
        codes_bytes(c) == codes_bytes(c.take(i)) + codes_bytes(c.skip(i)),
    decreases i,
{
    if i == 0 {
        assert(c.take(0) =~= Seq::<Option<QualityOfService>>::empty());
        assert(c.skip(0) =~= c);
        assert(codes_bytes(c) =~= codes_bytes(c.take(0)) + codes_bytes(c.skip(0)));
    } else {
        lemma_codes_bytes_split(c.skip(1), i - 1);
        assert(c.skip(1).take(i - 1) =~= c.take(i).skip(1));
        assert(c.skip(1).skip(i - 1) =~= c.skip(i));
        assert(c.take(i).len() != 0 && c.take(i)[0] == c[0]);
        assert(codes_bytes(c.take(i)) == seq![suback_code(c[0])] + codes_bytes(c.take(i).skip(1)));
        assert(codes_bytes(c) =~= codes_bytes(c.take(i)) + codes_bytes(c.skip(i)));
    }
}

/// The bytes of a list of Unsubscribe filters split anywhere.
pub proof fn lemma_topics_bytes_split(t: Seq<Seq<u8>>, i: int)
    requires
        0 <= i <= t.len(),
    ensures
        topics_bytes(t) == topics_bytes(t.take(i)) + topics_bytes(t.skip(i)),
    decreases i,
{
    if i == 0 {
        assert(t.take(0) =~= Seq::<Seq<u8>>::empty());
        assert(t.skip(0) =~= t);
        assert(topics_bytes(t) =~= topics_bytes(t.take(0)) + topics_bytes(t.skip(0)));
    } else {
        lemma_topics_bytes_split(t.skip(1), i - 1);
        assert(t.skip(1).take(i - 1) =~= t.take(i).skip(1));
        assert(t.skip(1).skip(i - 1) =~= t.skip(i));
        assert(t.take(i).len() != 0 && t.take(i)[0] == t[0]);
        assert(topics_bytes(t.take(i)) == lp(t[0]) + topics_bytes(t.take(i).skip(1)));
        assert(topics_bytes(t) =~= topics_bytes(t.take(i)) + topics_bytes(t.skip(i)));
    }
}

impl Payload {
    /// How many bytes this payload occupies on the wire.
    pub fn len(&self) -> (r: usize)
        requires
            payload_wf(self@),
            payload_bytes(self@).len() <= usize::MAX,
        ensures
            r == payload_bytes(self@).len(),
    {
        match self {
            Payload::Connect { client_id, will, username, password } => {
                let mut total: usize = 2 + client_id.len();
                match will {
                    Some(w) => {
                        total = total + 4 + w.0.len() + w.1.len();
                    },
                    None => (),
                }
                if username.len() > 0 {
                    total = total + 2 + username.len();
                }
                if password.len() > 0 {
                    total = total + 2 + password.len();
                }
                total
            },
            Payload::Publish(b) => b.len(),
            Payload::Subscribe(f) => {
                let ghost fv = filters_view(f@);
                let mut total: usize = 0;
                let mut i: usize = 0;
                while i < f.len()
                    invariant
                        i <= f@.len(),
                        fv == filters_view(f@),
                        filters_wf(fv),
                        filters_bytes(fv).len() <= usize::MAX,
                        total == filters_bytes(fv.take(i as int)).len(),
                    decreases f@.len() - i,
                {
                    proof {
                        lemma_filters_bytes_split(fv, i as int);
                        lemma_filters_bytes_split(fv.skip(i as int), 1);
                        assert(fv.skip(i as int).take(1) =~= seq![fv[i as int]]);
                        assert(fv.skip(i as int).skip(1) =~= fv.skip(i + 1));
                        assert(filters_bytes(seq![fv[i as int]]) =~= lp(fv[i as int].0) + seq![
                            qos_num(fv[i as int].1),
                        ]);
                        lemma_filters_bytes_split(fv, i + 1);
                        assert(fv.take(i + 1).take(i as int) =~= fv.take(i as int));
                        assert(fv.take(i + 1).skip(i as int) =~= seq![fv[i as int]]);
                        lemma_filters_bytes_split(fv.take(i + 1), i as int);
                    }
                    total = total + 3 + f[i].0.len();
                    i = i + 1;
                }
                proof {
                    assert(fv.take(fv.len() as int) =~= fv);
                }
                total
            },
            Payload::Suback(c) => {
                proof {
                    lemma_codes_bytes_len(c@);
                }
                c.len()
            },
            Payload::Unsubscribe(t) => {
                let ghost tv = topics_view(t@);
                let mut total: usize = 0;
                let mut i: usize = 0;
                while i < t.len()
                    invariant
                        i <= t@.len(),
                        tv == topics_view(t@),
                        topics_wf(tv),
                        topics_bytes(tv).len() <= usize::MAX,
                        total == topics_bytes(tv.take(i as int)).len(),
                    decreases t@.len() - i,
                {
                    proof {
                        lemma_topics_bytes_split(tv, i as int);
                        lemma_topics_bytes_split(tv.skip(i as int), 1);
                        assert(tv.skip(i as int).take(1) =~= seq![tv[i as int]]);
                        assert(tv.skip(i as int).skip(1) =~= tv.skip(i + 1));
                        assert(topics_bytes(seq![tv[i as int]]) =~= lp(tv[i as int]));
                        lemma_topics_bytes_split(tv, i + 1);
                        assert(tv.take(i + 1).take(i as int) =~= tv.take(i as int));
                        assert(tv.take(i + 1).skip(i as int) =~= seq![tv[i as int]]);
                        lemma_topics_bytes_split(tv.take(i + 1), i as int);
                    }
                    total = total + 2 + t[i].len();
                    i = i + 1;
                }
                proof {
                    assert(tv.take(tv.len() as int) =~= tv);
                }
                total
            },
        }
    }

}

/// A code list occupies one byte per code.
pub proof fn lemma_codes_bytes_len(c: Seq<Option<QualityOfService>>)
    ensures
        codes_bytes(c).len() == c.len(),
    decreases c.len(),
{
    if c.len() > 0 {
        lemma_codes_bytes_len(c.skip(1));
    }
}

} // verus!
