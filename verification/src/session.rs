//! Broker-side session state: per-connection subscriptions and will,
//! and the table that dispatches decoded packets to state transitions.

use vstd::prelude::*;
use crate::message::{Disconnect, MsgView, WrappedMessage};
use crate::payload::{topics_view, lemma_topics_view_push};
use crate::qos::QualityOfService;
use crate::serde::clone_bytes;
use crate::variable_header::PacketId;
use crate::will::{opt_will_view, Will, WillView};

verus! {

/// Why the session table rejected a message.
#[derive(Clone, Copy, PartialEq, Eq, Structural, Debug)]
pub enum ProtocolError {
    /// A server-to-client packet kind arrived at the broker.
    WrongDirection,
    /// A Connect arrived for an address that already has a session.
    AlreadyConnected,
}

/// The set of filters a list of filter strings holds.
pub open spec fn as_set(s: Seq<Seq<u8>>) -> Set<Seq<u8>> {
    Set::new(|x: Seq<u8>| s.contains(x))
}

/// Mathematical model of a session: the topic filters subscribed at
/// each quality-of-service level, and the pending will.
#[verifier::ext_equal]
pub struct SessionView {
    pub at_most_once: Set<Seq<u8>>,
    pub at_least_once: Set<Seq<u8>>,
    pub exactly_once: Set<Seq<u8>>,
    pub will: Option<WillView>,
}

/// The filter set a session holds at a level.
pub open spec fn sv_filters(s: SessionView, q: QualityOfService) -> Set<Seq<u8>> {
    match q {
        QualityOfService::AtMostOnce => s.at_most_once,
        QualityOfService::AtLeastOnce => s.at_least_once,
        QualityOfService::ExactlyOnce => s.exactly_once,
    }
}

/// A fresh session: no subscriptions, the given will pending.
pub open spec fn sv_new(w: Option<WillView>) -> SessionView {
    SessionView {
        at_most_once: Set::empty(),
        at_least_once: Set::empty(),
        exactly_once: Set::empty(),
        will: w,
    }
}

/// A session after subscribing one filter at a level: the filter
/// leaves every other level's set and joins the given level's, so a
/// filter is held at one level at most.
pub open spec fn sv_insert(s: SessionView, q: QualityOfService, t: Seq<u8>) -> SessionView {
    SessionView {
        at_most_once: if q == QualityOfService::AtMostOnce {
            s.at_most_once.insert(t)
        } else {
            s.at_most_once.remove(t)
        },
        at_least_once: if q == QualityOfService::AtLeastOnce {
            s.at_least_once.insert(t)
        } else {
            s.at_least_once.remove(t)
        },
        exactly_once: if q == QualityOfService::ExactlyOnce {
            s.exactly_once.insert(t)
        } else {
            s.exactly_once.remove(t)
        },
        will: s.will,
    }
}

/// A session after unsubscribing one filter: the filter leaves
/// whichever set holds it; absence changes nothing.
pub open spec fn sv_remove(s: SessionView, t: Seq<u8>) -> SessionView {
    SessionView {
        at_most_once: s.at_most_once.remove(t),
        at_least_once: s.at_least_once.remove(t),
        exactly_once: s.exactly_once.remove(t),
        will: s.will,
    }
}

/// A session after subscribing a list of filter entries in order.
pub open spec fn sv_subscribe_all(s: SessionView, fs: Seq<(Seq<u8>, QualityOfService)>) -> SessionView
    decreases fs.len(),
{
    if fs.len() == 0 {
        s
    } else {
        sv_insert(sv_subscribe_all(s, fs.drop_last()), fs.last().1, fs.last().0)
    }
}

/// A session after unsubscribing a list of filters in order.
pub open spec fn sv_unsubscribe_all(s: SessionView, ts: Seq<Seq<u8>>) -> SessionView
    decreases ts.len(),
{
    if ts.len() == 0 {
        s
    } else {
        sv_remove(sv_unsubscribe_all(s, ts.drop_last()), ts.last())
    }
}

/// Whether two byte strings are equal.
fn vec_eq(a: &Vec<u8>, b: &Vec<u8>) -> (r: bool)
    ensures
        r == (a@ == b@),
{
    if a.len() != b.len() {
        return false;
    }
    let mut i: usize = 0;
    while i < a.len()
        invariant
            i <= a@.len(),
            a@.len() == b@.len(),
            forall|j: int| 0 <= j < i ==> a@[j] == b@[j],
        decreases a@.len() - i,
    {
        if a[i] != b[i] {
            return false;
        }
        i = i + 1;
    }
    assert(a@ =~= b@);
    true
}

/// A list's view contains a string exactly when some element views to
/// it; appending an element adds exactly its view.
pub proof fn lemma_topics_contains_push(s: Seq<Vec<u8>>, x: Vec<u8>)
    ensures
        forall|y: Seq<u8>|
            topics_view(s.push(x)).contains(y) <==> (topics_view(s).contains(y) || y == x@),
{
    lemma_topics_view_push(s, x);
    let tv = topics_view(s);
    assert forall|y: Seq<u8>|
        topics_view(s.push(x)).contains(y) <==> (topics_view(s).contains(y) || y == x@) by {
        if topics_view(s.push(x)).contains(y) {
            let j = choose|j: int| 0 <= j < tv.push(x@).len() && tv.push(x@)[j] == y;
            if j < tv.len() {
                assert(tv[j] == y);
            } else {
                assert(y == x@);
            }
        }
        if tv.contains(y) {
            let j = choose|j: int| 0 <= j < tv.len() && tv[j] == y;
            assert(tv.push(x@)[j] == y);
        }
        if y == x@ {
            assert(tv.push(x@)[tv.len() as int] == y);
        }
    }
}

/// Whether a list of filters contains a string.
fn contains_filter(v: &Vec<Vec<u8>>, t: &Vec<u8>) -> (r: bool)
    ensures
        r == topics_view(v@).contains(t@),
{
    let mut i: usize = 0;
    while i < v.len()
        invariant
            i <= v@.len(),
            forall|j: int| 0 <= j < i ==> topics_view(v@)[j] != t@,
        decreases v@.len() - i,
    {
        if vec_eq(&v[i], t) {
            assert(topics_view(v@)[i as int] == t@);
            return true;
        }
        assert(topics_view(v@)[i as int] == v@[i as int]@);
        i = i + 1;
    }
    assert(!topics_view(v@).contains(t@)) by {
        if topics_view(v@).contains(t@) {
            let j = choose|j: int| 0 <= j < v@.len() && topics_view(v@)[j] == t@;
        }
    }
    false
}

/// The list without any occurrence of a filter, other members kept.
fn without_filter(v: &Vec<Vec<u8>>, t: &Vec<u8>) -> (r: Vec<Vec<u8>>)
    ensures
        forall|x: Seq<u8>|
            topics_view(r@).contains(x) == (topics_view(v@).contains(x) && x != t@),
{
    let mut out: Vec<Vec<u8>> = Vec::new();
    let mut i: usize = 0;
    proof {
        assert(topics_view(out@) =~= Seq::<Seq<u8>>::empty());
        assert(v@.take(0) =~= Seq::<Vec<u8>>::empty());
        assert(topics_view(v@.take(0)) =~= Seq::<Seq<u8>>::empty());
    }
    while i < v.len()
        invariant
            i <= v@.len(),
            forall|x: Seq<u8>|
                topics_view(out@).contains(x) == (topics_view(v@.take(i as int)).contains(x) && x
                    != t@),
        decreases v@.len() - i,
    {
        let ghost prev = out@;
        let keep = !vec_eq(&v[i], t);
        if keep {
            out.push(clone_bytes(&v[i]));
        }
        proof {
            let tk0 = v@.take(i as int);
            let tk1 = v@.take(i as int + 1);
            assert(tk1 =~= tk0.push(v@[i as int]));
            lemma_topics_contains_push(tk0, v@[i as int]);
            if keep {
                let e = out@[out@.len() - 1];
                assert(out@ == prev.push(e));
                lemma_topics_contains_push(prev, e);
                assert forall|x: Seq<u8>|
                    topics_view(out@).contains(x) == (topics_view(tk1).contains(x) && x
                        != t@) by {
                    assert(topics_view(prev.push(e)).contains(x) <==> (topics_view(prev).contains(
                        x,
                    ) || x == e@));
                    assert(topics_view(tk0.push(v@[i as int])).contains(x) <==> (topics_view(
                        tk0,
                    ).contains(x) || x == v@[i as int]@));
                }
            } else {
                assert forall|x: Seq<u8>|
                    topics_view(out@).contains(x) == (topics_view(tk1).contains(x) && x
                        != t@) by {
                    assert(topics_view(tk0.push(v@[i as int])).contains(x) <==> (topics_view(
                        tk0,
                    ).contains(x) || x == v@[i as int]@));
                }
            }
        }
        i = i + 1;
    }
    assert(v@.take(v@.len() as int) =~= v@);
    out
}

/// Per-connection broker state: the subscribed filters grouped by
/// granted level, and the pending will.
#[derive(Clone, Debug, PartialEq, Eq)]
pub struct Session {
    at_most_once: Vec<Vec<u8>>,
    at_least_once: Vec<Vec<u8>>,
    exactly_once: Vec<Vec<u8>>,
    will: Option<Will>,
}

impl View for Session {
    type V = SessionView;

    closed spec fn view(&self) -> SessionView {
        SessionView {
            at_most_once: as_set(topics_view(self.at_most_once@)),
            at_least_once: as_set(topics_view(self.at_least_once@)),
            exactly_once: as_set(topics_view(self.exactly_once@)),
            will: opt_will_view(self.will),
        }
    }
}

impl Session {
    /// A fresh session with no subscriptions and the given will.
    pub fn new(will: Option<Will>) -> (r: Session)
        ensures
            r@ == sv_new(opt_will_view(will)),
    {
        let r = Session {
            at_most_once: Vec::new(),
            at_least_once: Vec::new(),
            exactly_once: Vec::new(),
            will,
        };
        proof {
            assert(topics_view(Seq::<Vec<u8>>::empty()) =~= Seq::<Seq<u8>>::empty());
            assert(as_set(Seq::<Seq<u8>>::empty()) =~= Set::<Seq<u8>>::empty());
            assert(r@ =~= sv_new(opt_will_view(will)));
        }
        r
    }

    /// Subscribes a filter at a level. The filter moves to that
    /// level's set, leaving any other level that held it. Reports
    /// whether the filter was new at that level.
    pub fn subscribe(&mut self, qos: QualityOfService, topic_filter: Vec<u8>) -> (r: bool)
        ensures
            final(self)@ == sv_insert(old(self)@, qos, topic_filter@),
            r == !sv_filters(old(self)@, qos).contains(topic_filter@),
    {
        let was_there = match qos {
            QualityOfService::AtMostOnce => contains_filter(&self.at_most_once, &topic_filter),
            QualityOfService::AtLeastOnce => contains_filter(&self.at_least_once, &topic_filter),
            QualityOfService::ExactlyOnce => contains_filter(&self.exactly_once, &topic_filter),
        };
        self.at_most_once = without_filter(&self.at_most_once, &topic_filter);
        self.at_least_once = without_filter(&self.at_least_once, &topic_filter);
        self.exactly_once = without_filter(&self.exactly_once, &topic_filter);
        let ghost stripped = *self;
        match qos {
            QualityOfService::AtMostOnce => {
                let ghost b = self.at_most_once@;
                self.at_most_once.push(topic_filter);
                proof {
                    lemma_topics_contains_push(b, self.at_most_once@[b.len() as int]);
                    assert(self.at_most_once@ =~= b.push(self.at_most_once@[b.len() as int]));
                }
            },
            QualityOfService::AtLeastOnce => {
                let ghost b = self.at_least_once@;
                self.at_least_once.push(topic_filter);
                proof {
                    lemma_topics_contains_push(b, self.at_least_once@[b.len() as int]);
                    assert(self.at_least_once@ =~= b.push(self.at_least_once@[b.len() as int]));
                }
            },
            QualityOfService::ExactlyOnce => {
                let ghost b = self.exactly_once@;
                self.exactly_once.push(topic_filter);
                proof {
                    lemma_topics_contains_push(b, self.exactly_once@[b.len() as int]);
                    assert(self.exactly_once@ =~= b.push(self.exactly_once@[b.len() as int]));
                }
            },
        }
        proof {
            assert(self@.at_most_once =~= sv_insert(old(self)@, qos, topic_filter@).at_most_once);
            assert(self@.at_least_once =~= sv_insert(old(self)@, qos, topic_filter@).at_least_once);
            assert(self@.exactly_once =~= sv_insert(old(self)@, qos, topic_filter@).exactly_once);
            assert(self@ =~= sv_insert(old(self)@, qos, topic_filter@));
        }
        !was_there
    }

    /// Unsubscribes a filter from whichever level holds it; absence is
    /// not an error.
    pub fn unsubscribe(&mut self, topic_filter: &Vec<u8>)
        ensures
            final(self)@ == sv_remove(old(self)@, topic_filter@),
    {
        self.at_most_once = without_filter(&self.at_most_once, topic_filter);
        self.at_least_once = without_filter(&self.at_least_once, topic_filter);
        self.exactly_once = without_filter(&self.exactly_once, topic_filter);
        proof {
            assert(self@.at_most_once =~= sv_remove(old(self)@, topic_filter@).at_most_once);
            assert(self@.at_least_once =~= sv_remove(old(self)@, topic_filter@).at_least_once);
            assert(self@.exactly_once =~= sv_remove(old(self)@, topic_filter@).exactly_once);
            assert(self@ =~= sv_remove(old(self)@, topic_filter@));
        }
    }

    /// Whether this session holds a filter at a level.
    pub fn has_filter(&self, qos: QualityOfService, topic_filter: &Vec<u8>) -> (r: bool)
        ensures
            r == sv_filters(self@, qos).contains(topic_filter@),
    {
        match qos {
            QualityOfService::AtMostOnce => contains_filter(&self.at_most_once, topic_filter),
            QualityOfService::AtLeastOnce => contains_filter(&self.at_least_once, topic_filter),
            QualityOfService::ExactlyOnce => contains_filter(&self.exactly_once, topic_filter),
        }
    }

    /// Whether this session holds no filter at a level.
    pub fn empty_at(&self, qos: QualityOfService) -> (r: bool)
        ensures
            r == (sv_filters(self@, qos) == Set::<Seq<u8>>::empty()),
    {
        let n = match qos {
            QualityOfService::AtMostOnce => self.at_most_once.len(),
            QualityOfService::AtLeastOnce => self.at_least_once.len(),
            QualityOfService::ExactlyOnce => self.exactly_once.len(),
        };
        proof {
            let b = match qos {
                QualityOfService::AtMostOnce => self.at_most_once@,
                QualityOfService::AtLeastOnce => self.at_least_once@,
                QualityOfService::ExactlyOnce => self.exactly_once@,
            };
            if b.len() == 0 {
                assert(topics_view(b) =~= Seq::<Seq<u8>>::empty());
                assert(as_set(topics_view(b)) =~= Set::<Seq<u8>>::empty());
            } else {
                assert(topics_view(b)[0] == b[0]@);
                assert(topics_view(b).contains(b[0]@));
                assert(as_set(topics_view(b)).contains(b[0]@));
                assert(as_set(topics_view(b)) != Set::<Seq<u8>>::empty()) by {
                    if as_set(topics_view(b)) == Set::<Seq<u8>>::empty() {
                        assert(!Set::<Seq<u8>>::empty().contains(b[0]@));
                    }
                }
            }
        }
        n == 0
    }
}

/// Whether some entry of the table carries a key.
pub open spec fn has_key(s: Seq<(u64, Session)>, k: u64) -> bool {
    exists|i: int| 0 <= i < s.len() && s[i].0 == k
}

/// Whether no two entries share a key.
pub open spec fn unique_keys(s: Seq<(u64, Session)>) -> bool {
    forall|i: int, j: int| 0 <= i < j < s.len() ==> s[i].0 != s[j].0
}

/// The mapping a list of entries stands for.
pub open spec fn table_view(s: Seq<(u64, Session)>) -> Map<u64, SessionView>
    decreases s.len(),
{
    if s.len() == 0 {
        Map::empty()
    } else {
        table_view(s.drop_last()).insert(s.last().0, s.last().1@)
    }
}

/// A key is in the mapping exactly when some entry carries it.
proof fn lemma_table_view_dom(s: Seq<(u64, Session)>)
    ensures
        forall|k: u64| #[trigger] table_view(s).dom().contains(k) <==> has_key(s, k),
    decreases s.len(),
{
    if s.len() > 0 {
        lemma_table_view_dom(s.drop_last());
        assert forall|k: u64| #[trigger] table_view(s).dom().contains(k) <==> has_key(s, k) by {
            if table_view(s).dom().contains(k) {
                if k == s.last().0 {
                    assert(s[s.len() - 1].0 == k);
                } else {
                    assert(table_view(s.drop_last()).dom().contains(k));
                    assert(has_key(s.drop_last(), k));
                    let i = choose|i: int|
                        0 <= i < s.drop_last().len() && s.drop_last()[i].0 == k;
                    assert(s[i].0 == k);
                }
            }
            if has_key(s, k) {
                let i = choose|i: int| 0 <= i < s.len() && s[i].0 == k;
                if i < s.len() - 1 {
                    assert(s.drop_last()[i].0 == k);
                    assert(has_key(s.drop_last(), k));
                    assert(table_view(s.drop_last()).dom().contains(k));
                    assert(table_view(s).dom().contains(k));
                } else {
                    assert(k == s.last().0);
                    assert(table_view(s).dom().contains(k));
                }
            }
        }
    }
}

/// With unique keys, the mapping sends an entry's key to its session.
proof fn lemma_table_view_at(s: Seq<(u64, Session)>, i: int)
    requires
        unique_keys(s),
        0 <= i < s.len(),
    ensures
        table_view(s).dom().contains(s[i].0),
        table_view(s)[s[i].0] == s[i].1@,
    decreases s.len(),
{
    if i < s.len() - 1 {
        assert(unique_keys(s.drop_last()));
        assert(s.drop_last()[i] == s[i]);
        lemma_table_view_at(s.drop_last(), i);
        assert(s.last().0 != s[i].0);
    }
}

/// Removing an entry keeps the remaining keys unique.
proof fn lemma_unique_remove(s: Seq<(u64, Session)>, i: int)
    requires
        unique_keys(s),
        0 <= i < s.len(),
    ensures
        unique_keys(s.remove(i)),
{
    assert forall|a: int, b: int| 0 <= a < b < s.remove(i).len() implies s.remove(i)[a].0
        != s.remove(i)[b].0 by {
        assert(s.remove(i)[a] == (if a < i {
            s[a]
        } else {
            s[a + 1]
        }));
        assert(s.remove(i)[b] == (if b < i {
            s[b]
        } else {
            s[b + 1]
        }));
    }
}

/// With unique keys, removing an entry removes its key from the
/// mapping.
proof fn lemma_table_view_remove(s: Seq<(u64, Session)>, i: int)
    requires
        unique_keys(s),
        0 <= i < s.len(),
    ensures
        table_view(s.remove(i)) == table_view(s).remove(s[i].0),
    decreases s.len(),
{
    let k = s[i].0;
    lemma_table_view_dom(s.drop_last());
    if i == s.len() - 1 {
        assert(s.remove(i) =~= s.drop_last());
        assert(!has_key(s.drop_last(), k)) by {
            if has_key(s.drop_last(), k) {
                let j = choose|j: int|
                    0 <= j < s.drop_last().len() && s.drop_last()[j].0 == k;
                assert(s[j].0 == k);
            }
        }
        assert(table_view(s.remove(i)) =~= table_view(s).remove(k));
    } else {
        assert(unique_keys(s.drop_last()));
        assert(s.drop_last()[i] == s[i]);
        lemma_table_view_remove(s.drop_last(), i);
        assert(s.remove(i).drop_last() =~= s.drop_last().remove(i));
        assert(s.remove(i).last() == s.last());
        assert(s.remove(i).len() == s.len() - 1);
        assert(s.last().0 != k);
        assert(table_view(s.remove(i)) == table_view(s.remove(i).drop_last()).insert(
            s.last().0,
            s.last().1@,
        ));
        assert(table_view(s.remove(i)) =~= table_view(s).remove(k));
    }
}

/// Subscribing never touches the will, and unsubscribing neither.
pub proof fn lemma_sv_ops_keep_will(s: SessionView, fs: Seq<(Seq<u8>, QualityOfService)>, ts: Seq<Seq<u8>>)
    ensures
        sv_subscribe_all(s, fs).will == s.will,
        sv_unsubscribe_all(s, ts).will == s.will,
    decreases fs.len() + ts.len(),
{
    if fs.len() > 0 {
        lemma_sv_ops_keep_will(s, fs.drop_last(), ts);
    }
    if ts.len() > 0 {
        lemma_sv_ops_keep_will(s, fs, ts.drop_last());
    }
}

/// The table's transition for one inbound message: the table after,
/// and the result handed back. Only client-to-server kinds are
/// accepted; the acknowledged-path kinds and the keep-alive probe are
/// placeholders that leave the table unchanged, their effects being
/// delegated to the caller.
pub open spec fn handle_step(t: Map<u64, SessionView>, addr: u64, m: MsgView) -> (
    Map<u64, SessionView>,
    Result<(), ProtocolError>,
) {
    match m {
        MsgView::Connect(c) => {
            if t.dom().contains(addr) {
                (t.remove(addr), Err(ProtocolError::AlreadyConnected))
            } else {
                (t.insert(addr, sv_new(c.will)), Ok(()))
            }
        },
        MsgView::Publish(_) => (t, Ok(())),
        MsgView::Puback(_) => (t, Ok(())),
        MsgView::Pubrec(_) => (t, Ok(())),
        MsgView::Pubrel(_) => (t, Ok(())),
        MsgView::Pubcomp(_) => (t, Ok(())),
        MsgView::Subscribe(sb) => (
            if t.dom().contains(addr) {
                t.insert(addr, sv_subscribe_all(t[addr], sb.topic_filters))
            } else {
                t
            },
            Ok(()),
        ),
        MsgView::Unsubscribe(u) => (
            if t.dom().contains(addr) {
                t.insert(addr, sv_unsubscribe_all(t[addr], u.topic_filters))
            } else {
                t
            },
            Ok(()),
        ),
        MsgView::Pingreq(_) => (t, Ok(())),
        MsgView::Disconnect(_) => (t.remove(addr), Ok(())),
        MsgView::Connack(_) => (t, Err(ProtocolError::WrongDirection)),
        MsgView::Suback(_) => (t, Err(ProtocolError::WrongDirection)),
        MsgView::Unsuback(_) => (t, Err(ProtocolError::WrongDirection)),
        MsgView::Pingresp(_) => (t, Err(ProtocolError::WrongDirection)),
    }
}

/// A server-to-client packet kind is rejected with WrongDirection and
/// leaves the table untouched, whatever the table holds.
pub proof fn lemma_wrong_direction(t: Map<u64, SessionView>, addr: u64, m: MsgView)
    requires
        m matches MsgView::Connack(_) || m matches MsgView::Suback(_) || m matches MsgView::Unsuback(_)
            || m matches MsgView::Pingresp(_),
    ensures
        handle_step(t, addr, m).0 == t,
        handle_step(t, addr, m).1 == Err::<(), ProtocolError>(ProtocolError::WrongDirection),
{
}

/// Connecting twice from one address fails and leaves no session for
/// it: the stale entry is removed rather than silently replaced.
pub proof fn lemma_second_connect(t: Map<u64, SessionView>, addr: u64, m: MsgView)
    requires
        m matches MsgView::Connect(_),
        t.dom().contains(addr),
    ensures
        handle_step(t, addr, m).1 == Err::<(), ProtocolError>(ProtocolError::AlreadyConnected),
        !handle_step(t, addr, m).0.dom().contains(addr),
{
}

/// Unsubscribing a filter right after subscribing it leaves no level
/// holding it: the pair acts as a plain removal.
pub proof fn lemma_subscribe_then_unsubscribe(s: SessionView, q: QualityOfService, t: Seq<u8>)
    ensures
        sv_remove(sv_insert(s, q, t), t) == sv_remove(s, t),
        forall|q2: QualityOfService|
            !sv_filters(sv_remove(sv_insert(s, q, t), t), q2).contains(t),
{
    assert(sv_remove(sv_insert(s, q, t), t).at_most_once =~= sv_remove(s, t).at_most_once);
    assert(sv_remove(sv_insert(s, q, t), t).at_least_once =~= sv_remove(s, t).at_least_once);
    assert(sv_remove(sv_insert(s, q, t), t).exactly_once =~= sv_remove(s, t).exactly_once);
    assert(sv_remove(sv_insert(s, q, t), t) =~= sv_remove(s, t));
}

/// After a Disconnect has removed the session, a fresh Connect for
/// the same address succeeds.
pub proof fn lemma_disconnect_then_connect(t: Map<u64, SessionView>, addr: u64, m: MsgView)
    requires
        m matches MsgView::Connect(_),
    ensures
        ({
            let closed = handle_step(t, addr, MsgView::Disconnect(Disconnect {  })).0;
            handle_step(closed, addr, m).1 == Ok::<(), ProtocolError>(())
        }),
{
    assert(!t.remove(addr).dom().contains(addr));
}

/// The process-wide registry of sessions, keyed by connection
/// identity. It is the sole mutator of session state; one decoded
/// inbound message is handed to `handle_message` at a time.
pub struct Sessions {
    sessions: Vec<(u64, Session)>,
}

impl View for Sessions {
    type V = Map<u64, SessionView>;

    closed spec fn view(&self) -> Map<u64, SessionView> {
        table_view(self.sessions@)
    }
}

impl Sessions {
    /// Entries never share a connection identity.
    pub closed spec fn wf(&self) -> bool {
        unique_keys(self.sessions@)
    }

    /// An empty table.
    pub fn new() -> (r: Sessions)
        ensures
            r@ == Map::<u64, SessionView>::empty(),
            r.wf(),
    {
        Sessions { sessions: Vec::new() }
    }

    /// The position of an address's entry.
    fn index_of(&self, addr: u64) -> (r: Option<usize>)
        ensures
            match r {
                Some(i) => i < self.sessions@.len() && self.sessions@[i as int].0 == addr,
                None => !has_key(self.sessions@, addr),
            },
    {
        let mut i: usize = 0;
        while i < self.sessions.len()
            invariant
                i <= self.sessions@.len(),
                forall|j: int| 0 <= j < i ==> self.sessions@[j].0 != addr,
            decreases self.sessions@.len() - i,
        {
            if self.sessions[i].0 == addr {
                return Some(i);
            }
            i = i + 1;
        }
        assert(!has_key(self.sessions@, addr)) by {
            if has_key(self.sessions@, addr) {
                let j = choose|j: int|
                    0 <= j < self.sessions@.len() && self.sessions@[j].0 == addr;
            }
        }
        None
    }

    /// Whether an address has a live session.
    pub fn is_connected(&self, addr: u64) -> (r: bool)
        ensures
            r == self@.dom().contains(addr),
    {
        proof {
            lemma_table_view_dom(self.sessions@);
        }
        match self.index_of(addr) {
            Some(_) => {
                assert(has_key(self.sessions@, addr));
                true
            },
            None => false,
        }
    }

    /// Whether the session of an address holds a filter at a level.
    pub fn has_filter(&self, addr: u64, qos: QualityOfService, topic_filter: &Vec<u8>) -> (r:
        bool)
        requires
            self.wf(),
        ensures
            r == (self@.dom().contains(addr) && sv_filters(self@[addr], qos).contains(
                topic_filter@,
            )),
    {
        proof {
            lemma_table_view_dom(self.sessions@);
        }
        match self.index_of(addr) {
            Some(i) => {
                proof {
                    lemma_table_view_at(self.sessions@, i as int);
                }
                self.sessions[i].1.has_filter(qos, topic_filter)
            },
            None => false,
        }
    }

    /// Whether the session of an address holds no filter at a level.
    pub fn empty_at(&self, addr: u64, qos: QualityOfService) -> (r: bool)
        requires
            self.wf(),
        ensures
            r == (self@.dom().contains(addr) && sv_filters(self@[addr], qos) == Set::<
                Seq<u8>,
            >::empty()),
    {
        proof {
            lemma_table_view_dom(self.sessions@);
        }
        match self.index_of(addr) {
            Some(i) => {
                proof {
                    lemma_table_view_at(self.sessions@, i as int);
                }
                self.sessions[i].1.empty_at(qos)
            },
            None => false,
        }
    }

    /// Creates a session for an address. A second Connect before a
    /// Disconnect is a protocol violation: the stale entry is removed,
    /// the error reported, and the caller must tear the connection
    /// down.
    fn connect(&mut self, addr: u64, will: Option<Will>) -> (r: Result<(), ProtocolError>)
        requires
            old(self).wf(),
        ensures
            final(self).wf(),
            old(self)@.dom().contains(addr) ==> (r == Err::<(), ProtocolError>(
                ProtocolError::AlreadyConnected,
            ) && final(self)@ == old(self)@.remove(addr)),
            !old(self)@.dom().contains(addr) ==> (r == Ok::<(), ProtocolError>(()) && final(self)@
                == old(self)@.insert(addr, sv_new(opt_will_view(will)))),
    {
        proof {
            lemma_table_view_dom(self.sessions@);
        }
        match self.index_of(addr) {
            Some(i) => {
                proof {
                    lemma_table_view_remove(self.sessions@, i as int);
                    lemma_unique_remove(self.sessions@, i as int);
                    assert(has_key(self.sessions@, addr));
                }
                self.sessions.remove(i);
                Sessions::raise_already_connected()
            },
            None => {
                let ghost before = self.sessions@;
                let s = Session::new(will);
                self.sessions.push((addr, s));
                proof {
                    assert(self.sessions@.drop_last() =~= before);
                    assert(forall|j: int|
                        0 <= j < before.len() ==> self.sessions@[j] == before[j]);
                }
                Ok(())
            },
        }
    }

    /// Routes a Publish. Fan-out to matching subscribers belongs to a
    /// higher layer; the table is left unchanged.
    fn publish(&self, addr: u64) -> (r: Result<(), ProtocolError>)
        ensures
            r == Ok::<(), ProtocolError>(()),
    {
        let _ = addr;
        Ok(())
    }

    /// Accepts a Puback. Acknowledgement tracking belongs to a higher
    /// layer; the table is left unchanged.
    fn puback(&self, addr: u64, packet_id: PacketId) -> (r: Result<(), ProtocolError>)
        ensures
            r == Ok::<(), ProtocolError>(()),
    {
        let _ = addr;
        let _ = packet_id;
        Ok(())
    }

    /// Accepts a Pubrec; see `puback`.
    fn pubrec(&self, addr: u64, packet_id: PacketId) -> (r: Result<(), ProtocolError>)
        ensures
            r == Ok::<(), ProtocolError>(()),
    {
        let _ = addr;
        let _ = packet_id;
        Ok(())
    }

    /// Accepts a Pubrel; see `puback`.
    fn pubrel(&self, addr: u64, packet_id: PacketId) -> (r: Result<(), ProtocolError>)
        ensures
            r == Ok::<(), ProtocolError>(()),
    {
        let _ = addr;
        let _ = packet_id;
        Ok(())
    }

    /// Accepts a Pubcomp; see `puback`.
    fn pubcomp(&self, addr: u64, packet_id: PacketId) -> (r: Result<(), ProtocolError>)
        ensures
            r == Ok::<(), ProtocolError>(()),
    {
        let _ = addr;
        let _ = packet_id;
        Ok(())
    }

    /// Accepts a Pingreq; the Pingresp reply is the caller's to send.
    fn pingreq(&self, addr: u64) -> (r: Result<(), ProtocolError>)
        ensures
            r == Ok::<(), ProtocolError>(()),
    {
        let _ = addr;
        Ok(())
    }

    /// Subscribes each filter at the level granted for it: the
    /// requested level capped at the highest the broker supports,
    /// which is exactly-once. A Subscribe for an address without a
    /// session changes nothing.
    fn subscribe(&mut self, addr: u64, topic_filters: &Vec<(Vec<u8>, QualityOfService)>) -> (r:
        Result<(), ProtocolError>)
        requires
            old(self).wf(),
        ensures
            final(self).wf(),
            r == Ok::<(), ProtocolError>(()),
            old(self)@.dom().contains(addr) ==> final(self)@ == old(self)@.insert(
                addr,
                sv_subscribe_all(old(self)@[addr], crate::payload::filters_view(topic_filters@)),
            ),
            !old(self)@.dom().contains(addr) ==> final(self)@ == old(self)@,
    {
        proof {
            lemma_table_view_dom(self.sessions@);
        }
        let i = match self.index_of(addr) {
            Some(i) => i,
            None => {
                return Ok(());
            },
        };
        proof {
            lemma_table_view_at(self.sessions@, i as int);
            lemma_table_view_remove(self.sessions@, i as int);
            lemma_unique_remove(self.sessions@, i as int);
        }
        let ghost before = self.sessions@;
        let pair = self.sessions.remove(i);
        let key = pair.0;
        let mut sess = pair.1;
        let ghost orig = sess@;
        let ghost fv = crate::payload::filters_view(topic_filters@);
        let mut j: usize = 0;
        proof {
            assert(fv.take(0) =~= Seq::<(Seq<u8>, QualityOfService)>::empty());
        }
        while j < topic_filters.len()
            invariant
                j <= topic_filters@.len(),
                fv == crate::payload::filters_view(topic_filters@),
                sess@ == sv_subscribe_all(orig, fv.take(j as int)),
            decreases topic_filters@.len() - j,
        {
            let requested = topic_filters[j].1;
            let granted = QualityOfService::granted(requested, QualityOfService::ExactlyOnce);
            assert(granted == requested);
            sess.subscribe(granted, clone_bytes(&topic_filters[j].0));
            proof {
                assert(fv.take(j as int + 1).drop_last() =~= fv.take(j as int));
                assert(fv.take(j as int + 1).last() == fv[j as int]);
            }
            j = j + 1;
        }
        proof {
            assert(fv.take(fv.len() as int) =~= fv);
        }
        let ghost removed = self.sessions@;
        self.sessions.push((key, sess));
        proof {
            assert(self.sessions@.drop_last() =~= removed);
            assert(!has_key(removed, addr)) by {
                if has_key(removed, addr) {
                    let a = choose|a: int| 0 <= a < removed.len() && removed[a].0 == addr;
                    assert(removed[a] == (if a < i as int {
                        before[a]
                    } else {
                        before[a + 1]
                    }));
                }
            }
            assert(unique_keys(self.sessions@)) by {
                assert forall|a: int, b: int|
                    0 <= a < b < self.sessions@.len() implies self.sessions@[a].0
                    != self.sessions@[b].0 by {
                    if b == self.sessions@.len() - 1 {
                        assert(self.sessions@[a] == removed[a]);
                        assert(!has_key(removed, addr));
                        if self.sessions@[a].0 == addr {
                            assert(removed[a].0 == addr);
                        }
                    } else {
                        assert(self.sessions@[a] == removed[a]);
                        assert(self.sessions@[b] == removed[b]);
                    }
                }
            }
            assert(final(self)@ =~= old(self)@.insert(addr, sess@));
        }
        Ok(())
    }

    /// Removes each filter from whichever level holds it; absence is
    /// not an error, nor is an address without a session.
    fn unsubscribe(&mut self, addr: u64, topic_filters: &Vec<Vec<u8>>) -> (r: Result<
        (),
        ProtocolError,
    >)
        requires
            old(self).wf(),
        ensures
            final(self).wf(),
            r == Ok::<(), ProtocolError>(()),
            old(self)@.dom().contains(addr) ==> final(self)@ == old(self)@.insert(
                addr,
                sv_unsubscribe_all(old(self)@[addr], topics_view(topic_filters@)),
            ),
            !old(self)@.dom().contains(addr) ==> final(self)@ == old(self)@,
    {
        proof {
            lemma_table_view_dom(self.sessions@);
        }
        let i = match self.index_of(addr) {
            Some(i) => i,
            None => {
                return Ok(());
            },
        };
        proof {
            lemma_table_view_at(self.sessions@, i as int);
            lemma_table_view_remove(self.sessions@, i as int);
            lemma_unique_remove(self.sessions@, i as int);
        }
        let ghost before = self.sessions@;
        let pair = self.sessions.remove(i);
        let key = pair.0;
        let mut sess = pair.1;
        let ghost orig = sess@;
        let ghost tv = topics_view(topic_filters@);
        let mut j: usize = 0;
        proof {
            assert(tv.take(0) =~= Seq::<Seq<u8>>::empty());
        }
        while j < topic_filters.len()
            invariant
                j <= topic_filters@.len(),
                tv == topics_view(topic_filters@),
                sess@ == sv_unsubscribe_all(orig, tv.take(j as int)),
            decreases topic_filters@.len() - j,
        {
            sess.unsubscribe(&topic_filters[j]);
            proof {
                assert(tv.take(j as int + 1).drop_last() =~= tv.take(j as int));
                assert(tv.take(j as int + 1).last() == tv[j as int]);
            }
            j = j + 1;
        }
        proof {
            assert(tv.take(tv.len() as int) =~= tv);
        }
        let ghost removed = self.sessions@;
        self.sessions.push((key, sess));
        proof {
            assert(self.sessions@.drop_last() =~= removed);
            assert(!has_key(removed, addr)) by {
                if has_key(removed, addr) {
                    let a = choose|a: int| 0 <= a < removed.len() && removed[a].0 == addr;
                    assert(removed[a] == (if a < i as int {
                        before[a]
                    } else {
                        before[a + 1]
                    }));
                }
            }
            assert(unique_keys(self.sessions@)) by {
                assert forall|a: int, b: int|
                    0 <= a < b < self.sessions@.len() implies self.sessions@[a].0
                    != self.sessions@[b].0 by {
                    if b == self.sessions@.len() - 1 {
                        assert(self.sessions@[a] == removed[a]);
                        if self.sessions@[a].0 == addr {
                            assert(removed[a].0 == addr);
                        }
                    } else {
                        assert(self.sessions@[a] == removed[a]);
                        assert(self.sessions@[b] == removed[b]);
                    }
                }
            }
            assert(final(self)@ =~= old(self)@.insert(addr, sess@));
        }
        Ok(())
    }

    /// Removes the session on a graceful Disconnect. The will is
    /// cancelled with it: it must not be published on a graceful
    /// shutdown. An absent session is not an error.
    fn disconnect(&mut self, addr: u64) -> (r: Result<(), ProtocolError>)
        requires
            old(self).wf(),
        ensures
            final(self).wf(),
            r == Ok::<(), ProtocolError>(()),
            final(self)@ == old(self)@.remove(addr),
    {
        proof {
            lemma_table_view_dom(self.sessions@);
        }
        match self.index_of(addr) {
            Some(i) => {
                proof {
                    lemma_table_view_remove(self.sessions@, i as int);
                    lemma_unique_remove(self.sessions@, i as int);
                }
                self.sessions.remove(i);
            },
            None => {
                proof {
                    assert(!old(self)@.dom().contains(addr));
                    assert(old(self)@.remove(addr) =~= old(self)@);
                }
            },
        }
        Ok(())
    }

    /// Dispatches one decoded inbound message to the transition it
    /// names. Server-to-client kinds are rejected with WrongDirection
    /// whatever the state; the rest act as `handle_step` says.
    pub fn handle_message(&mut self, addr: u64, msg: &WrappedMessage) -> (r: Result<
        (),
        ProtocolError,
    >)
        requires
            old(self).wf(),
        ensures
            final(self).wf(),
            final(self)@ == handle_step(old(self)@, addr, msg@).0,
            r == handle_step(old(self)@, addr, msg@).1,
    {
        match msg {
            WrappedMessage::WConnect(c) => {
                let will = match &c.will {
                    Some(w) => Some(
                        Will {
                            retain: w.retain,
                            qos: w.qos,
                            topic: clone_bytes(&w.topic),
                            message: clone_bytes(&w.message),
                        },
                    ),
                    None => None,
                };
                assert(opt_will_view(will) == c@.will);
                self.connect(addr, will)
            },
            WrappedMessage::WPublish(_) => self.publish(addr),
            WrappedMessage::WPuback(m) => self.puback(addr, m.packet_id),
            WrappedMessage::WPubrec(m) => self.pubrec(addr, m.packet_id),
            WrappedMessage::WPubrel(m) => self.pubrel(addr, m.packet_id),
            WrappedMessage::WPubcomp(m) => self.pubcomp(addr, m.packet_id),
            WrappedMessage::WSubscribe(m) => self.subscribe(addr, &m.topic_filters),
            WrappedMessage::WUnsubscribe(m) => self.unsubscribe(addr, &m.topic_filters),
            WrappedMessage::WPingreq(_) => self.pingreq(addr),
            WrappedMessage::WDisconnect(_) => self.disconnect(addr),
            WrappedMessage::WConnack(_) => Sessions::raise_wrong_direction(),
            WrappedMessage::WSuback(_) => Sessions::raise_wrong_direction(),
            WrappedMessage::WUnsuback(_) => Sessions::raise_wrong_direction(),
            WrappedMessage::WPingresp(_) => Sessions::raise_wrong_direction(),
        }
    }

    /// Cleans up after a connection ends for any reason. The session,
    /// if one is still present, is removed exactly once, and its
    /// pending will is handed back so the caller can publish it: a
    /// session still present here means the client never sent a
    /// graceful Disconnect. A second call finds nothing and changes
    /// nothing.
    pub fn on_connection_closed(&mut self, addr: u64) -> (r: Option<Will>)
        requires
            old(self).wf(),
        ensures
            final(self).wf(),
            final(self)@ == old(self)@.remove(addr),
            opt_will_view(r) == (if old(self)@.dom().contains(addr) {
                old(self)@[addr].will
            } else {
                None::<WillView>
            }),
    {
        proof {
            lemma_table_view_dom(self.sessions@);
        }
        match self.index_of(addr) {
            Some(i) => {
                proof {
                    lemma_table_view_at(self.sessions@, i as int);
                    lemma_table_view_remove(self.sessions@, i as int);
                    lemma_unique_remove(self.sessions@, i as int);
                }
                let pair = self.sessions.remove(i);
                pair.1.will
            },
            None => {
                proof {
                    assert(old(self)@.remove(addr) =~= old(self)@);
                }
                None
            },
        }
    }

    /// The error for a server-to-client message arriving at the
    /// broker.
    fn raise_wrong_direction() -> (r: Result<(), ProtocolError>)
        ensures
            r == Err::<(), ProtocolError>(ProtocolError::WrongDirection),
    {
        Err(ProtocolError::WrongDirection)
    }

    /// The error for a Connect on an address that already has a
    /// session.
    fn raise_already_connected() -> (r: Result<(), ProtocolError>)
        ensures
            r == Err::<(), ProtocolError>(ProtocolError::AlreadyConnected),
    {
        Err(ProtocolError::AlreadyConnected)
    }
}

} // verus!
