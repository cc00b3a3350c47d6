//! Round-trip statements of the codec: decoding what the encoder
//! emitted yields the original message and consumes exactly its
//! encoding.

use vstd::prelude::*;
use crate::connack::rc_num;
use crate::qos::{qos_num, qos_of_num, QualityOfService};
use crate::serde::{
    lp, parse_lp, parse_opt_lp, u16_be, u16_hi, u16_lo, u16_of, lemma_u16_be_roundtrip,
    DecodeError,
};
use crate::payload::{
    codes_bytes, filters_bytes, filters_wf, suback_code, topics_bytes, topics_wf,
};
use crate::variable_header::connect_flags_byte;
use crate::message::{
    msg_body, msg_decode, msg_encode, msg_fh_view, msg_flags, msg_type, msg_valid, msg_wf,
    parse_codes, parse_connack, parse_connect, parse_filters, parse_pid, parse_publish,
    parse_suback, parse_subscribe, parse_topics, parse_unsubscribe, publish_flags, ConnectView,
    MsgView, PublishView,
};
use crate::control::{cpt_of_num, has_mandated_flags, ControlPacketType};
use crate::fixed_header::{fh_decode, fh_encode, fh_first_byte, flags_nibble, lemma_fh_roundtrip};

verus! {

/// A length-prefixed string parses back to itself wherever it stands,
/// and consumes exactly its own bytes.
proof fn lemma_parse_lp_at(prefix: Seq<u8>, s: Seq<u8>, suffix: Seq<u8>)
    requires
        s.len() <= 65535,
    ensures
        parse_lp(prefix + (lp(s) + suffix), prefix.len() as int) == Some::<(Seq<u8>, int)>(
            (s, prefix.len() as int + 2 + s.len() as int),
        ),
{
    let whole = prefix + (lp(s) + suffix);
    let i = prefix.len() as int;
    lemma_u16_be_roundtrip(s.len() as u16);
    assert(whole[i] == u16_hi(s.len() as u16));
    assert(whole[i + 1] == u16_lo(s.len() as u16));
    assert(u16_of(whole[i], whole[i + 1]) == s.len());
    assert(whole.subrange(i + 2, i + 2 + s.len()) =~= s);
}

/// A subscription entry list parses back to itself.
#[verifier::rlimit(100)]
pub proof fn lemma_filters_roundtrip(f: Seq<(Seq<u8>, QualityOfService)>)
    requires
        filters_wf(f),
    ensures
        parse_filters(filters_bytes(f)) == Ok::<Seq<(Seq<u8>, QualityOfService)>, DecodeError>(f),
    decreases f.len(),
{
    if f.len() == 0 {
        assert(filters_bytes(f) =~= Seq::<u8>::empty());
        assert(Seq::<(Seq<u8>, QualityOfService)>::empty() =~= f);
    } else {
        let b = filters_bytes(f);
        let head = f[0];
        let tail_bytes = filters_bytes(f.skip(1));
        assert(b == lp(head.0) + seq![qos_num(head.1)] + tail_bytes);
        assert(b =~= Seq::<u8>::empty() + (lp(head.0) + (seq![qos_num(head.1)] + tail_bytes)));
        lemma_parse_lp_at(Seq::<u8>::empty(), head.0, seq![qos_num(head.1)] + tail_bytes);
        let j = 2 + head.0.len() as int;
        assert(parse_lp(b, 0) == Some::<(Seq<u8>, int)>((head.0, j)));
        assert(b[j] == qos_num(head.1));
        assert(b.skip(j + 1) =~= tail_bytes);
        assert(filters_wf(f.skip(1)));
        lemma_filters_roundtrip(f.skip(1));
        assert(qos_of_num(qos_num(head.1)) == head.1);
        assert(seq![(head.0, head.1)] + f.skip(1) =~= f);
    }
}

/// A Suback code list parses back to itself.
pub proof fn lemma_codes_roundtrip(c: Seq<Option<QualityOfService>>)
    ensures
        parse_codes(codes_bytes(c)) == Ok::<Seq<Option<QualityOfService>>, DecodeError>(c),
    decreases c.len(),
{
    if c.len() == 0 {
        assert(codes_bytes(c) =~= Seq::<u8>::empty());
        assert(Seq::<Option<QualityOfService>>::empty() =~= c);
    } else {
        let b = codes_bytes(c);
        assert(b == seq![suback_code(c[0])] + codes_bytes(c.skip(1)));
        assert(b[0] == suback_code(c[0]));
        assert(b.skip(1) =~= codes_bytes(c.skip(1)));
        lemma_codes_roundtrip(c.skip(1));
        assert(seq![c[0]] + c.skip(1) =~= c);
    }
}

/// An Unsubscribe filter list parses back to itself.
pub proof fn lemma_topics_roundtrip(t: Seq<Seq<u8>>)
    requires
        topics_wf(t),
    ensures
        parse_topics(topics_bytes(t)) == Ok::<Seq<Seq<u8>>, DecodeError>(t),
    decreases t.len(),
{
    if t.len() == 0 {
        assert(topics_bytes(t) =~= Seq::<u8>::empty());
        assert(Seq::<Seq<u8>>::empty() =~= t);
    } else {
        let b = topics_bytes(t);
        let tail_bytes = topics_bytes(t.skip(1));
        assert(b == lp(t[0]) + tail_bytes);
        assert(b =~= Seq::<u8>::empty() + (lp(t[0]) + tail_bytes));
        lemma_parse_lp_at(Seq::<u8>::empty(), t[0], tail_bytes);
        let j = 2 + t[0].len() as int;
        assert(parse_lp(b, 0) == Some::<(Seq<u8>, int)>((t[0], j)));
        assert(b.skip(j) =~= tail_bytes);
        assert(topics_wf(t.skip(1)));
        lemma_topics_roundtrip(t.skip(1));
        assert(seq![t[0]] + t.skip(1) =~= t);
    }
}

/// Each field of the connect-flags byte reads back as it was written,
/// and the reserved bit is zero.
proof fn lemma_connect_flags_bits(
    u: bool,
    p: bool,
    wr: bool,
    wq: QualityOfService,
    wflag: bool,
    cs: bool,
)
    ensures
        ({
            let b = connect_flags_byte(u, p, wr, wq, wflag, cs);
            &&& b % 2 == 0
            &&& (b / 8) % 4 == qos_num(wq)
            &&& ((b / 128) % 2 == 1) == u
            &&& ((b / 64) % 2 == 1) == p
            &&& ((b / 32) % 2 == 1) == wr
            &&& ((b / 4) % 2 == 1) == wflag
            &&& ((b / 2) % 2 == 1) == cs
        }),
{
}

/// Concatenation of byte strings is associative.
proof fn lemma_assoc(a: Seq<u8>, b: Seq<u8>, c: Seq<u8>)
    ensures
        (a + b) + c == a + (b + c),
{
    assert((a + b) + c =~= a + (b + c));
}

/// The shape of a Connect body: a ten-byte header, the
/// length-prefixed client id, then the four optional string fields,
/// each either a length-prefixed string or empty.
spec fn connect_chain(
    prefix: Seq<u8>,
    cid: Seq<u8>,
    w1: Seq<u8>,
    w2: Seq<u8>,
    ub: Seq<u8>,
    pb: Seq<u8>,
) -> Seq<u8> {
    prefix + (lp(cid) + (w1 + (w2 + (ub + pb))))
}

/// The client id parses back from offset ten of a Connect body.
#[verifier::rlimit(100)]
#[verifier::spinoff_prover]
proof fn lemma_chain_cid(prefix: Seq<u8>, cid: Seq<u8>, w1: Seq<u8>, w2: Seq<u8>, ub: Seq<u8>, pb: Seq<u8>)
    requires
        prefix.len() == 10,
        cid.len() <= 65535,
    ensures
        parse_lp(connect_chain(prefix, cid, w1, w2, ub, pb), 10) == Some::<(Seq<u8>, int)>(
            (cid, 12 + cid.len() as int),
        ),
{
    lemma_parse_lp_at(prefix, cid, w1 + (w2 + (ub + pb)));
}

/// The will topic parses back from its offset when present.
#[verifier::rlimit(100)]
#[verifier::spinoff_prover]
proof fn lemma_chain_wt(prefix: Seq<u8>, cid: Seq<u8>, wt: Seq<u8>, w2: Seq<u8>, ub: Seq<u8>, pb: Seq<u8>)
    requires
        prefix.len() == 10,
        wt.len() <= 65535,
    ensures
        parse_lp(connect_chain(prefix, cid, lp(wt), w2, ub, pb), 12 + cid.len() as int)
            == Some::<(Seq<u8>, int)>((wt, 12 + cid.len() as int + 2 + wt.len() as int)),
{
    let rest = w2 + (ub + pb);
    lemma_assoc(prefix, lp(cid), lp(wt) + rest);
    lemma_parse_lp_at(prefix + lp(cid), wt, rest);
    assert((prefix + lp(cid)).len() == 12 + cid.len() as int);
    assert(connect_chain(prefix, cid, lp(wt), w2, ub, pb) == (prefix + lp(cid)) + (lp(wt) + rest));
    assert(parse_lp((prefix + lp(cid)) + (lp(wt) + rest), 12 + cid.len() as int) == Some::<
        (Seq<u8>, int),
    >((wt, 12 + cid.len() as int + 2 + wt.len() as int)));
}

/// The will message parses back from its offset when present.
#[verifier::rlimit(100)]
#[verifier::spinoff_prover]
proof fn lemma_chain_wm(prefix: Seq<u8>, cid: Seq<u8>, w1: Seq<u8>, wm: Seq<u8>, ub: Seq<u8>, pb: Seq<u8>)
    requires
        prefix.len() == 10,
        wm.len() <= 65535,
    ensures
        parse_lp(
            connect_chain(prefix, cid, w1, lp(wm), ub, pb),
            12 + cid.len() as int + w1.len() as int,
        ) == Some::<(Seq<u8>, int)>(
            (wm, 12 + cid.len() as int + w1.len() as int + 2 + wm.len() as int),
        ),
{
    let rest = ub + pb;
    lemma_assoc(lp(cid), w1, lp(wm) + rest);
    lemma_assoc(prefix, lp(cid) + w1, lp(wm) + rest);
    lemma_parse_lp_at(prefix + (lp(cid) + w1), wm, rest);
}

/// The username parses back from its offset when present.
#[verifier::rlimit(100)]
proof fn lemma_chain_un(prefix: Seq<u8>, cid: Seq<u8>, w1: Seq<u8>, w2: Seq<u8>, un: Seq<u8>, pb: Seq<u8>)
    requires
        prefix.len() == 10,
        un.len() <= 65535,
    ensures
        parse_lp(
            connect_chain(prefix, cid, w1, w2, lp(un), pb),
            12 + cid.len() as int + w1.len() as int + w2.len() as int,
        ) == Some::<(Seq<u8>, int)>(
            (un, 12 + cid.len() as int + w1.len() as int + w2.len() as int + 2 + un.len() as int),
        ),
{
    let unp = lp(un) + pb;
    lemma_assoc(w1, w2, unp);
    assert(w1 + (w2 + unp) == (w1 + w2) + unp);
    lemma_assoc(lp(cid), w1 + w2, unp);
    assert(lp(cid) + (w1 + (w2 + unp)) == (lp(cid) + (w1 + w2)) + unp);
    lemma_assoc(prefix, lp(cid) + (w1 + w2), unp);
    assert(prefix + (lp(cid) + (w1 + (w2 + unp)))
        == (prefix + (lp(cid) + (w1 + w2))) + unp);
    lemma_parse_lp_at(prefix + (lp(cid) + (w1 + w2)), un, pb);
    assert((prefix + (lp(cid) + (w1 + w2))).len() == 12 + cid.len() as int + w1.len() as int
        + w2.len() as int);
    assert(connect_chain(prefix, cid, w1, w2, lp(un), pb) == (prefix + (lp(cid) + (w1 + w2))) + (lp(
        un,
    ) + pb));
    assert(parse_lp((prefix + (lp(cid) + (w1 + w2))) + (lp(un) + pb), 12 + cid.len() as int
        + w1.len() as int + w2.len() as int) == Some::<(Seq<u8>, int)>(
        (un, 12 + cid.len() as int + w1.len() as int + w2.len() as int + 2 + un.len() as int),
    ));
}

/// The password parses back from its offset when present.
#[verifier::rlimit(100)]
#[verifier::spinoff_prover]
proof fn lemma_chain_pw(prefix: Seq<u8>, cid: Seq<u8>, w1: Seq<u8>, w2: Seq<u8>, ub: Seq<u8>, pw: Seq<u8>)
    requires
        prefix.len() == 10,
        pw.len() <= 65535,
    ensures
        parse_lp(
            connect_chain(prefix, cid, w1, w2, ub, lp(pw)),
            12 + cid.len() as int + w1.len() as int + w2.len() as int + ub.len() as int,
        ) == Some::<(Seq<u8>, int)>(
            (
                pw,
                12 + cid.len() as int + w1.len() as int + w2.len() as int + ub.len() as int + 2
                    + pw.len() as int,
            ),
        ),
{
    let empty = Seq::<u8>::empty();
    assert(lp(pw) =~= lp(pw) + empty);
    lemma_assoc(w2, ub, lp(pw));
    lemma_assoc(w1, w2, ub + lp(pw));
    lemma_assoc(w1, w2 + ub, lp(pw));
    lemma_assoc(lp(cid), w1 + (w2 + ub), lp(pw));
    lemma_assoc(prefix, lp(cid) + (w1 + (w2 + ub)), lp(pw));
    lemma_parse_lp_at(prefix + (lp(cid) + (w1 + (w2 + ub))), pw, empty);
    assert((prefix + (lp(cid) + (w1 + (w2 + ub)))).len() == 12 + cid.len() as int
        + w1.len() as int + w2.len() as int + ub.len() as int);
    assert(w1 + (w2 + (ub + lp(pw))) == (w1 + (w2 + ub)) + lp(pw));
    assert(connect_chain(prefix, cid, w1, w2, ub, lp(pw)) == (prefix + (lp(cid) + (w1 + (w2 + ub))))
        + (lp(pw) + empty));
    assert(parse_lp((prefix + (lp(cid) + (w1 + (w2 + ub)))) + (lp(pw) + empty), 12
        + cid.len() as int + w1.len() as int + w2.len() as int + ub.len() as int) == Some::<
        (Seq<u8>, int),
    >(
        (
            pw,
            12 + cid.len() as int + w1.len() as int + w2.len() as int + ub.len() as int + 2
                + pw.len() as int,
        ),
    ));
}

/// The string fields of a Connect body parse back one after the
/// other from their offsets, filling the body exactly.
#[verifier::rlimit(100)]
#[verifier::spinoff_prover]
proof fn lemma_connect_strings(
    prefix: Seq<u8>,
    cid: Seq<u8>,
    wflag: bool,
    wt: Seq<u8>,
    wm: Seq<u8>,
    uflag: bool,
    un: Seq<u8>,
    pflag: bool,
    pw: Seq<u8>,
)
    requires
        prefix.len() == 10,
        cid.len() <= 65535,
        wt.len() <= 65535,
        wm.len() <= 65535,
        un.len() <= 65535,
        pw.len() <= 65535,
    ensures
        ({
            let w1 = if wflag { lp(wt) } else { Seq::<u8>::empty() };
            let w2 = if wflag { lp(wm) } else { Seq::<u8>::empty() };
            let ub = if uflag { lp(un) } else { Seq::<u8>::empty() };
            let pb = if pflag { lp(pw) } else { Seq::<u8>::empty() };
            let whole = connect_chain(prefix, cid, w1, w2, ub, pb);
            let j1 = 12 + cid.len() as int;
            let j2 = j1 + w1.len() as int;
            let j3 = j2 + w2.len() as int;
            let j4 = j3 + ub.len() as int;
            let j5 = j4 + pb.len() as int;
            &&& parse_lp(whole, 10) == Some::<(Seq<u8>, int)>((cid, j1))
            &&& parse_opt_lp(whole, j1, wflag) == Some::<(Seq<u8>, int)>(
                (if wflag { wt } else { Seq::<u8>::empty() }, j2),
            )
            &&& parse_opt_lp(whole, j2, wflag) == Some::<(Seq<u8>, int)>(
                (if wflag { wm } else { Seq::<u8>::empty() }, j3),
            )
            &&& parse_opt_lp(whole, j3, uflag) == Some::<(Seq<u8>, int)>(
                (if uflag { un } else { Seq::<u8>::empty() }, j4),
            )
            &&& parse_opt_lp(whole, j4, pflag) == Some::<(Seq<u8>, int)>(
                (if pflag { pw } else { Seq::<u8>::empty() }, j5),
            )
            &&& j5 == whole.len()
        }),
{
    let w1 = if wflag { lp(wt) } else { Seq::<u8>::empty() };
    let w2 = if wflag { lp(wm) } else { Seq::<u8>::empty() };
    let ub = if uflag { lp(un) } else { Seq::<u8>::empty() };
    let pb = if pflag { lp(pw) } else { Seq::<u8>::empty() };
    let whole = connect_chain(prefix, cid, w1, w2, ub, pb);
    let j1 = 12 + cid.len() as int;
    let j2 = j1 + w1.len() as int;
    let j3 = j2 + w2.len() as int;
    let j4 = j3 + ub.len() as int;
    let j5 = j4 + pb.len() as int;
    assert(lp(cid).len() == 2 + cid.len() as int);
    assert(whole.len() == j5);
    lemma_chain_cid(prefix, cid, w1, w2, ub, pb);
    assert(parse_lp(whole, 10) == Some::<(Seq<u8>, int)>((cid, j1)));
    if wflag {
        lemma_chain_wt(prefix, cid, wt, w2, ub, pb);
        assert(w1.len() == 2 + wt.len() as int);
        assert(parse_opt_lp(whole, j1, wflag) == Some::<(Seq<u8>, int)>((wt, j2)));
        lemma_chain_wm(prefix, cid, w1, wm, ub, pb);
        assert(w2.len() == 2 + wm.len() as int);
        assert(parse_opt_lp(whole, j2, wflag) == Some::<(Seq<u8>, int)>((wm, j3)));
    } else {
        assert(parse_opt_lp(whole, j1, wflag) == Some::<(Seq<u8>, int)>(
            (Seq::<u8>::empty(), j2),
        ));
        assert(parse_opt_lp(whole, j2, wflag) == Some::<(Seq<u8>, int)>(
            (Seq::<u8>::empty(), j3),
        ));
    }
    if uflag {
        lemma_chain_un(prefix, cid, w1, w2, un, pb);
        assert(ub.len() == 2 + un.len() as int);
        assert(parse_opt_lp(whole, j3, uflag) == Some::<(Seq<u8>, int)>((un, j4)));
    } else {
        assert(parse_opt_lp(whole, j3, uflag) == Some::<(Seq<u8>, int)>(
            (Seq::<u8>::empty(), j4),
        ));
    }
    if pflag {
        lemma_chain_pw(prefix, cid, w1, w2, ub, pw);
        assert(pb.len() == 2 + pw.len() as int);
        assert(parse_opt_lp(whole, j4, pflag) == Some::<(Seq<u8>, int)>((pw, j5)));
    } else {
        assert(parse_opt_lp(whole, j4, pflag) == Some::<(Seq<u8>, int)>(
            (Seq::<u8>::empty(), j5),
        ));
    }
}

/// A Connect body parses back to the message it was rendered from.
#[verifier::rlimit(100)]
#[verifier::spinoff_prover]
pub proof fn lemma_connect_roundtrip(c: ConnectView)
    requires
        msg_wf(MsgView::Connect(c)),
    ensures
        parse_connect(msg_body(MsgView::Connect(c))) == Ok::<MsgView, DecodeError>(
            MsgView::Connect(c),
        ),
{
    let m = MsgView::Connect(c);
    let uflag = c.username.len() > 0;
    let pflag = c.password.len() > 0;
    let wflag = c.will is Some;
    let wr = match c.will {
        Some(w) => w.retain,
        None => false,
    };
    let wq = match c.will {
        Some(w) => w.qos,
        None => QualityOfService::AtMostOnce,
    };
    let wt = match c.will {
        Some(w) => w.topic,
        None => Seq::<u8>::empty(),
    };
    let wm = match c.will {
        Some(w) => w.message,
        None => Seq::<u8>::empty(),
    };
    let cf = connect_flags_byte(uflag, pflag, wr, wq, wflag, c.clean_session);
    let vhb = seq![0u8, 4u8, 77u8, 81u8, 84u8, 84u8, 4u8, cf, u16_hi(c.keep_alive), u16_lo(
        c.keep_alive,
    )];
    let w1 = if wflag { lp(wt) } else { Seq::<u8>::empty() };
    let w2 = if wflag { lp(wm) } else { Seq::<u8>::empty() };
    let ub = if uflag { lp(c.username) } else { Seq::<u8>::empty() };
    let pb = if pflag { lp(c.password) } else { Seq::<u8>::empty() };
    let body = msg_body(m);
    assert(body =~= connect_chain(vhb, c.client_id, w1, w2, ub, pb));
    assert(body.len() >= 10);
    assert(body[0] == 0 && body[1] == 4 && body[2] == 77 && body[3] == 81 && body[4] == 84
        && body[5] == 84 && body[6] == 4);
    assert(body[7] == cf);
    lemma_connect_flags_bits(uflag, pflag, wr, wq, wflag, c.clean_session);
    assert(body[8] == u16_hi(c.keep_alive) && body[9] == u16_lo(c.keep_alive));
    lemma_u16_be_roundtrip(c.keep_alive);
    lemma_connect_strings(
        vhb,
        c.client_id,
        wflag,
        wt,
        wm,
        uflag,
        c.username,
        pflag,
        c.password,
    );
    if !uflag {
        assert(c.username =~= Seq::<u8>::empty());
    }
    if !pflag {
        assert(c.password =~= Seq::<u8>::empty());
    }
    assert(qos_of_num(qos_num(wq)) == wq);
    match parse_connect(body) {
        Ok(v) => {
            assert(v matches MsgView::Connect(d) && d =~= c);
        },
        Err(_) => {
            assert(false);
        },
    }
}

/// A Publish body parses back to the message it was rendered from,
/// under the flags the encoder framed it with.
pub proof fn lemma_publish_roundtrip(p: PublishView)
    requires
        p.topic.len() <= 65535,
        (p.packet_id is Some) <==> p.qos != QualityOfService::AtMostOnce,
    ensures
        parse_publish(publish_flags(p.dup, p.qos, p.retain), msg_body(MsgView::Publish(p)))
            == Ok::<MsgView, DecodeError>(MsgView::Publish(p)),
{
    let flags = publish_flags(p.dup, p.qos, p.retain);
    let body = msg_body(MsgView::Publish(p));
    assert(!(flags[1] && flags[2]));
    assert(qos_of_num(((if flags[1] {
        2int
    } else {
        0int
    }) + (if flags[2] {
        1int
    } else {
        0int
    })) as u8) == p.qos);
    match p.packet_id {
        Some(pid) => {
            assert(body =~= Seq::<u8>::empty() + (lp(p.topic) + (u16_be(pid) + p.payload)));
            lemma_parse_lp_at(Seq::<u8>::empty(), p.topic, u16_be(pid) + p.payload);
            let j = 2 + p.topic.len() as int;
            assert(parse_lp(body, 0) == Some::<(Seq<u8>, int)>((p.topic, j)));
            assert(body[j] == u16_hi(pid) && body[j + 1] == u16_lo(pid));
            lemma_u16_be_roundtrip(pid);
            assert(body.skip(j + 2) =~= p.payload);
            match parse_publish(flags, body) {
                Ok(v) => {
                    assert(v matches MsgView::Publish(q) && q =~= p);
                },
                Err(_) => {
                    assert(false);
                },
            }
        },
        None => {
            assert(body =~= Seq::<u8>::empty() + (lp(p.topic) + p.payload));
            lemma_parse_lp_at(Seq::<u8>::empty(), p.topic, p.payload);
            let j = 2 + p.topic.len() as int;
            assert(parse_lp(body, 0) == Some::<(Seq<u8>, int)>((p.topic, j)));
            assert(body.skip(j) =~= p.payload);
            match parse_publish(flags, body) {
                Ok(v) => {
                    assert(v matches MsgView::Publish(q) && q =~= p);
                },
                Err(_) => {
                    assert(false);
                },
            }
        },
    }
}

/// Decoding an encoded message off the front of any byte stream
/// yields the message back and consumes exactly its encoding.
#[verifier::rlimit(100)]
#[verifier::spinoff_prover]
pub proof fn lemma_msg_roundtrip(m: MsgView, rest: Seq<u8>)
    requires
        msg_valid(m),
    ensures
        msg_decode(msg_encode(m) + rest) == Ok::<(MsgView, int), DecodeError>(
            (m, msg_encode(m).len() as int),
        ),
{
    let h = msg_fh_view(m);
    let body = msg_body(m);
    let s = msg_encode(m) + rest;
    assert(h.packet_type != ControlPacketType::ReservedLow);
    assert(h.packet_type != ControlPacketType::ReservedHigh);
    assert(has_mandated_flags(h.packet_type) ==> flags_nibble(h.flags) == 2);
    assert(h.remaining_length == body.len());
    lemma_fh_roundtrip(h, body + rest);
    assert(s =~= fh_encode(h) + (body + rest));
    let n = fh_encode(h).len() as int;
    assert(fh_decode(s) == Ok::<(crate::fixed_header::FixedHeaderView, int), DecodeError>((h, n)));
    assert(s.len() >= n + body.len());
    assert(s.subrange(n, n + body.len() as int) =~= body);
    match m {
        MsgView::Connect(c) => {
            lemma_connect_roundtrip(c);
        },
        MsgView::Connack(c) => {
            assert(body =~= seq![
                crate::fixed_header::bit_if(c.session_present, 1),
                rc_num(c.return_code),
            ]);
            assert(body.len() == 2 && body[0] <= 1 && body[1] <= 5);
            assert(crate::connack::rc_of_num(rc_num(c.return_code)) == c.return_code);
            assert(parse_connack(body) == Ok::<MsgView, DecodeError>(m));
        },
        MsgView::Publish(p) => {
            lemma_publish_roundtrip(p);
        },
        MsgView::Puback(k) => {
            assert(body =~= u16_be(k.packet_id));
            lemma_u16_be_roundtrip(k.packet_id);
            assert(parse_pid(body) == Ok::<u16, DecodeError>(k.packet_id));
        },
        MsgView::Pubrec(k) => {
            assert(body =~= u16_be(k.packet_id));
            lemma_u16_be_roundtrip(k.packet_id);
            assert(parse_pid(body) == Ok::<u16, DecodeError>(k.packet_id));
        },
        MsgView::Pubrel(k) => {
            assert(body =~= u16_be(k.packet_id));
            lemma_u16_be_roundtrip(k.packet_id);
            assert(parse_pid(body) == Ok::<u16, DecodeError>(k.packet_id));
        },
        MsgView::Pubcomp(k) => {
            assert(body =~= u16_be(k.packet_id));
            lemma_u16_be_roundtrip(k.packet_id);
            assert(parse_pid(body) == Ok::<u16, DecodeError>(k.packet_id));
        },
        MsgView::Subscribe(sb) => {
            assert(body =~= u16_be(sb.packet_id) + filters_bytes(sb.topic_filters));
            lemma_u16_be_roundtrip(sb.packet_id);
            assert(body[0] == u16_hi(sb.packet_id) && body[1] == u16_lo(sb.packet_id));
            assert(body.skip(2) =~= filters_bytes(sb.topic_filters));
            assert(filters_wf(sb.topic_filters));
            lemma_filters_roundtrip(sb.topic_filters);
            assert(parse_subscribe(body) == Ok::<MsgView, DecodeError>(m));
        },
        MsgView::Suback(sa) => {
            assert(body =~= u16_be(sa.packet_id) + codes_bytes(sa.return_codes));
            lemma_u16_be_roundtrip(sa.packet_id);
            assert(body[0] == u16_hi(sa.packet_id) && body[1] == u16_lo(sa.packet_id));
            assert(body.skip(2) =~= codes_bytes(sa.return_codes));
            lemma_codes_roundtrip(sa.return_codes);
            assert(parse_suback(body) == Ok::<MsgView, DecodeError>(m));
        },
        MsgView::Unsubscribe(u) => {
            assert(body =~= u16_be(u.packet_id) + topics_bytes(u.topic_filters));
            lemma_u16_be_roundtrip(u.packet_id);
            assert(body[0] == u16_hi(u.packet_id) && body[1] == u16_lo(u.packet_id));
            assert(body.skip(2) =~= topics_bytes(u.topic_filters));
            assert(topics_wf(u.topic_filters));
            lemma_topics_roundtrip(u.topic_filters);
            assert(parse_unsubscribe(body) == Ok::<MsgView, DecodeError>(m));
        },
        MsgView::Unsuback(k) => {
            assert(body =~= u16_be(k.packet_id));
            lemma_u16_be_roundtrip(k.packet_id);
            assert(parse_pid(body) == Ok::<u16, DecodeError>(k.packet_id));
        },
        MsgView::Pingreq(_) => {
            assert(body =~= Seq::<u8>::empty());
        },
        MsgView::Pingresp(_) => {
            assert(body =~= Seq::<u8>::empty());
        },
        MsgView::Disconnect(_) => {
            assert(body =~= Seq::<u8>::empty());
        },
    }
    assert(msg_decode(s) == Ok::<(MsgView, int), DecodeError>((m, n + body.len())));
}

/// Encoding a Pubrel, Subscribe or Unsubscribe always yields the
/// mandated flag nibble 2 in the first byte of the packet.
pub proof fn lemma_mandated_flag_nibble(m: MsgView)
    requires
        has_mandated_flags(msg_type(m)),
    ensures
        msg_encode(m).len() > 0,
        msg_encode(m)[0] % 16 == 2,
{
    assert(flags_nibble(msg_flags(m)) == 2);
    assert(msg_encode(m)[0] == fh_first_byte(msg_type(m), msg_flags(m)));
}

/// Decoding a fixed header whose packet type mandates its flags fails
/// with InvalidFlags on any nibble but 2, and so does decoding the
/// whole packet.
pub proof fn lemma_mandated_flags_rejected(s: Seq<u8>)
    requires
        s.len() > 0,
        has_mandated_flags(cpt_of_num(s[0] / 16)),
        s[0] % 16 != 2,
    ensures
        fh_decode(s) == Err::<(crate::fixed_header::FixedHeaderView, int), DecodeError>(
            DecodeError::InvalidFlags,
        ),
        msg_decode(s) == Err::<(MsgView, int), DecodeError>(DecodeError::InvalidFlags),
{
    assert(s[0] / 16 != 0 && s[0] / 16 != 15);
}

} // verus!
