//! Service bus: message identifiers, transport errors, and the routing of
//! published messages to the subscribers of their topic.

use vstd::prelude::*;

use crate::text::{
    chars_eq, decimal, first_index, is_digit, lemma_decimal_digits, lemma_decimal_injective,
    lemma_first_index_unique, push_decimal, push_str, to_chars,
};

verus! {

broadcast use vstd::string::group_string_axioms;

/// The text of a message id: `msg-<timestamp>-<sequence>`.
pub open spec fn message_id_text(timestamp_ms: nat, seq: nat) -> Seq<char> {
    "msg-"@ + decimal(timestamp_ms) + "-"@ + decimal(seq)
}

/// A message identifier combining a timestamp and a sequence number.
#[derive(Debug, Clone, PartialEq, Eq, Hash)]
pub struct MessageId(String);

impl MessageId {
    /// The identifier's text.
    pub closed spec fn spec_str(&self) -> Seq<char> {
        self.0@
    }

    /// The identifier for a message stamped `timestamp_ms` (milliseconds
    /// since the Unix epoch) with sequence number `seq`.
    pub fn generate(timestamp_ms: u128, seq: u64) -> (m: MessageId)
        ensures
            m.spec_str() == message_id_text(timestamp_ms as nat, seq as nat),
    {
        let mut s = String::from_str("msg-");
        push_decimal(&mut s, timestamp_ms);
        push_str(&mut s, "-");
        push_decimal(&mut s, seq as u128);
        MessageId(s)
    }

    /// The identifier's text.
    pub fn as_str(&self) -> (r: &str)
        ensures
            r@ == self.spec_str(),
    {
        self.0.as_str()
    }
}

proof fn lemma_split_at_dash(a: Seq<char>, b: Seq<char>, c: Seq<char>, d: Seq<char>)
    requires
        forall|i: int| 0 <= i < a.len() ==> is_digit(#[trigger] a[i]),
        forall|i: int| 0 <= i < c.len() ==> is_digit(#[trigger] c[i]),
        a + "-"@ + b == c + "-"@ + d,
    ensures
        a == c,
        b == d,
{
    reveal_strlit("-");
    let x = a + "-"@ + b;
    assert(x[a.len() as int] == '-');
    assert forall|j: int| 0 <= j < a.len() implies x[j] != '-' by {
        assert(x[j] == a[j]);
    }
    lemma_first_index_unique(x, '-', a.len() as int);
    let y = c + "-"@ + d;
    assert(y[c.len() as int] == '-');
    assert forall|j: int| 0 <= j < c.len() implies y[j] != '-' by {
        assert(y[j] == c[j]);
    }
    lemma_first_index_unique(y, '-', c.len() as int);
    assert(a.len() == c.len());
    assert(a == x.take(a.len() as int));
    assert(c == y.take(c.len() as int));
    assert(b == x.skip(a.len() as int + 1));
    assert(d == y.skip(c.len() as int + 1));
}

/// Distinct (timestamp, sequence) pairs give distinct message ids: two ids
/// are equal only when both their timestamps and their sequence numbers are.
pub proof fn law_message_id_injective(t1: nat, s1: nat, t2: nat, s2: nat)
    requires
        message_id_text(t1, s1) == message_id_text(t2, s2),
    ensures
        t1 == t2,
        s1 == s2,
{
    reveal_strlit("msg-");
    let p = "msg-"@;
    let x = message_id_text(t1, s1);
    let y = message_id_text(t2, s2);
    let rx = decimal(t1) + "-"@ + decimal(s1);
    let ry = decimal(t2) + "-"@ + decimal(s2);
    assert(x == p + rx);
    assert(y == p + ry);
    assert(rx == x.skip(4));
    assert(ry == y.skip(4));
    lemma_decimal_digits(t1);
    lemma_decimal_digits(t2);
    lemma_split_at_dash(decimal(t1), decimal(s1), decimal(t2), decimal(s2));
    lemma_decimal_injective(t1, t2);
    lemma_decimal_injective(s1, s2);
}

/// The sequence numbers of message ids: each id takes the next number.
#[derive(Debug)]
pub struct MessageIdGenerator {
    next_seq: u64,
}

impl MessageIdGenerator {
    /// The number the next id gets.
    pub closed spec fn spec_next(&self) -> u64 {
        self.next_seq
    }

    /// A generator starting at sequence number 1.
    pub fn new() -> (g: MessageIdGenerator)
        ensures
            g.spec_next() == 1,
    {
        MessageIdGenerator { next_seq: 1 }
    }

    /// The id for a message stamped `timestamp_ms`, with the next sequence
    /// number; the number after it is one more (wrapping).
    pub fn generate(&mut self, timestamp_ms: u128) -> (m: MessageId)
        ensures
            m.spec_str() == message_id_text(timestamp_ms as nat, old(self).spec_next() as nat),
            final(self).spec_next() == old(self).spec_next().wrapping_add(1),
    {
        let seq = self.next_seq;
        self.next_seq = seq.wrapping_add(1);
        MessageId::generate(timestamp_ms, seq)
    }
}

/// Two ids taken one after the other from a generator differ, whatever
/// their timestamps, unless the sequence number wrapped around.
pub proof fn law_generated_ids_distinct(t1: nat, t2: nat, seq: u64)
    requires
        seq < u64::MAX,
    ensures
        message_id_text(t1, seq as nat) != message_id_text(t2, seq.wrapping_add(1) as nat),
{
    if message_id_text(t1, seq as nat) == message_id_text(t2, seq.wrapping_add(1) as nat) {
        law_message_id_injective(t1, seq as nat, t2, seq.wrapping_add(1) as nat);
    }
}

/// Why a transport could not deliver or receive.
#[derive(Debug)]
pub enum TransportError {
    NoSubscribers(String),
    SendFailed(String),
    ReceiveFailed(String),
    Closed,
}

impl TransportError {
    /// The error message.
    pub fn message(&self) -> (r: String)
        ensures
            self matches TransportError::NoSubscribers(t) ==> r@ == "no subscribers for topic: "@ + t@,
            self matches TransportError::SendFailed(m) ==> r@ == "send failed: "@ + m@,
            self matches TransportError::ReceiveFailed(m) ==> r@ == "receive failed: "@ + m@,
            *self is Closed ==> r@ == "transport closed"@,
    {
        match self {
            TransportError::NoSubscribers(t) => {
                let mut r = String::from_str("no subscribers for topic: ");
                push_str(&mut r, t.as_str());
                r
            },
            TransportError::SendFailed(m) => {
                let mut r = String::from_str("send failed: ");
                push_str(&mut r, m.as_str());
                r
            },
            TransportError::ReceiveFailed(m) => {
                let mut r = String::from_str("receive failed: ");
                push_str(&mut r, m.as_str());
                r
            },
            TransportError::Closed => String::from_str("transport closed"),
        }
    }
}

/// The subscribers of topic `t`, in the order they subscribed, among the
/// (topic, subscriber) pairs `subs`.
pub open spec fn subscribers_of(subs: Seq<(Seq<char>, u64)>, t: Seq<char>) -> Seq<u64>
    decreases subs.len(),
{
    if subs.len() == 0 {
        seq![]
    } else {
        let p = subscribers_of(subs.drop_last(), t);
        if subs.last().0 == t {
            p.push(subs.last().1)
        } else {
            p
        }
    }
}

/// Which subscribers each topic has. Subscribers are numbered in the order
/// they subscribe; the transport keeps one channel per number.
#[derive(Debug)]
pub struct TopicRouter {
    subs: Vec<(String, u64)>,
    next_id: u64,
}

impl TopicRouter {
    /// The (topic, subscriber) pairs, in subscription order.
    pub closed spec fn spec_subs(&self) -> Seq<(Seq<char>, u64)> {
        self.subs@.map_values(|e: (String, u64)| (e.0@, e.1))
    }

    /// The number the next subscriber gets.
    pub closed spec fn spec_next_id(&self) -> u64 {
        self.next_id
    }

    /// The subscribers of topic `t`.
    pub open spec fn spec_subscribers(&self, t: Seq<char>) -> Seq<u64> {
        subscribers_of(self.spec_subs(), t)
    }

    /// A router without subscribers.
    pub fn new() -> (r: TopicRouter)
        ensures
            r.spec_subs().len() == 0,
            r.spec_next_id() == 0,
            forall|t: Seq<char>| #[trigger] r.spec_subscribers(t).len() == 0,
    {
        let r = TopicRouter { subs: Vec::new(), next_id: 0 };
        assert(r.spec_subs() == Seq::<(Seq<char>, u64)>::empty());
        r
    }

    /// Add a subscriber to `topic`; returns its number.
    pub fn subscribe(&mut self, topic: &str) -> (id: u64)
        requires
            old(self).spec_next_id() < u64::MAX,
        ensures
            id == old(self).spec_next_id(),
            final(self).spec_next_id() == old(self).spec_next_id() + 1,
            final(self).spec_subs() == old(self).spec_subs().push((topic@, id)),
            final(self).spec_subscribers(topic@) == old(self).spec_subscribers(topic@).push(id),
            forall|t: Seq<char>| t != topic@ ==> #[trigger] final(self).spec_subscribers(t)
                == old(self).spec_subscribers(t),
    {
        let id = self.next_id;
        let ghost before = self.spec_subs();
        self.subs.push((topic.to_owned(), id));
        self.next_id = id + 1;
        assert(self.spec_subs() == before.push((topic@, id)));
        assert(self.spec_subs().drop_last() == before);
        id
    }

    /// The subscribers a message on `topic` goes to; refused when the topic
    /// has none.
    pub fn route(&self, topic: &str) -> (r: Result<Vec<u64>, TransportError>)
        ensures
            r matches Ok(ids) ==> ids@ == self.spec_subscribers(topic@) && ids@.len() > 0,
            r matches Err(e) ==> self.spec_subscribers(topic@).len() == 0 && (e
                matches TransportError::NoSubscribers(t) && t@ == topic@),
            r is Ok <==> self.spec_subscribers(topic@).len() > 0,
    {
        let want = to_chars(topic);
        let mut ids: Vec<u64> = Vec::new();
        let mut i: usize = 0;
        let ghost all = self.spec_subs();
        assert(all.take(0) == Seq::<(Seq<char>, u64)>::empty());
        while i < self.subs.len()
            invariant
                i <= self.subs.len(),
                want@ == topic@,
                all == self.spec_subs(),
                all.len() == self.subs@.len(),
                ids@ == subscribers_of(all.take(i as int), topic@),
            decreases self.subs.len() - i,
        {
            let ghost pre = all.take(i as int);
            let ghost next = all.take(i + 1);
            assert(next.drop_last() == pre);
            assert(next.last() == all[i as int]);
            assert(all[i as int] == (self.subs@[i as int].0@, self.subs@[i as int].1));
            let have = to_chars(self.subs[i].0.as_str());
            if chars_eq(&have, &want) {
                ids.push(self.subs[i].1);
            }
            i += 1;
        }
        assert(all.take(i as int) == all);
        if ids.len() == 0 {
            return Err(TransportError::NoSubscribers(topic.to_owned()));
        }
        Ok(ids)
    }
}

/// After a subscription to a topic, a message on that topic reaches the new
/// subscriber, and the subscribers of every other topic are unchanged.
pub proof fn law_subscription_routes(subs: Seq<(Seq<char>, u64)>, topic: Seq<char>, id: u64, other: Seq<char>)
    requires
        other != topic,
    ensures
        subscribers_of(subs.push((topic, id)), topic).len() > 0,
        subscribers_of(subs.push((topic, id)), topic).last() == id,
        subscribers_of(subs.push((topic, id)), other) == subscribers_of(subs, other),
{
    assert(subs.push((topic, id)).drop_last() == subs);
}

} // verus!
