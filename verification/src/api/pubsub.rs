//! Topics, and who has subscribed to them.

use std::sync::Arc;

use vstd::prelude::*;
use vstd::utf8::encode_utf8;

use crate::mesh::node::io::raw_sent;
use crate::mesh::node::Node;
use crate::names::{
    add_name, copy_names, drop_name, has_name, including, leaving_keeps_the_order,
    lemma_including, lemma_without, texts, without,
};
use crate::protocol::errors::Result;
use crate::protocol::types::MessageType;
use crate::strmap::StrMap;

verus! {

/// A publication, as it travels.
#[derive(Debug, Clone, PartialEq, Eq)]
pub struct PubSubMessage {
    pub topic: String,
    pub data: Vec<u8>,
}

/// The subscribers of each topic, in the order in which they subscribed.
#[derive(Debug)]
pub struct PubSubManager {
    subscriptions: StrMap<Vec<String>>,
}

impl View for PubSubManager {
    type V = Map<Seq<char>, Seq<Seq<char>>>;

    closed spec fn view(&self) -> Map<Seq<char>, Seq<Seq<char>>> {
        self.subscriptions@.map_values(|v: Vec<String>| texts(v@))
    }
}

/// What holds of the subscriptions at all times: a topic has a subscriber, and none twice.
pub open spec fn subscriptions_ok(m: Map<Seq<char>, Seq<Seq<char>>>) -> bool {
    forall|t: Seq<char>| #[trigger]
        m.dom().contains(t) ==> m[t].len() > 0 && m[t].no_duplicates()
}

/// The subscribers of a topic; a topic that nobody knows has none.
pub open spec fn subscribers_of(m: Map<Seq<char>, Seq<Seq<char>>>, topic: Seq<char>) -> Seq<
    Seq<char>,
> {
    if m.dom().contains(topic) {
        m[topic]
    } else {
        Seq::empty()
    }
}

/// The subscriptions after `peer` has subscribed to `topic`.
pub open spec fn subscribed(
    m: Map<Seq<char>, Seq<Seq<char>>>,
    topic: Seq<char>,
    peer: Seq<char>,
) -> Map<Seq<char>, Seq<Seq<char>>> {
    m.insert(topic, including(subscribers_of(m, topic), peer))
}

/// The subscriptions after `peer` has left `topic`. A topic goes with its last subscriber.
pub open spec fn unsubscribed(
    m: Map<Seq<char>, Seq<Seq<char>>>,
    topic: Seq<char>,
    peer: Seq<char>,
) -> Map<Seq<char>, Seq<Seq<char>>> {
    if !m.dom().contains(topic) {
        m
    } else if without(m[topic], peer).len() == 0 {
        m.remove(topic)
    } else {
        m.insert(topic, without(m[topic], peer))
    }
}

/// The subscriptions after `peer` has left every topic.
pub open spec fn without_subscriber(
    m: Map<Seq<char>, Seq<Seq<char>>>,
    peer: Seq<char>,
) -> Map<Seq<char>, Seq<Seq<char>>> {
    Map::new(
        |t: Seq<char>| m.dom().contains(t) && without(m[t], peer).len() > 0,
        |t: Seq<char>| without(m[t], peer),
    )
}

/// Subscribing makes a peer a subscriber, leaving unmakes it, and neither touches what others
/// have subscribed to.
pub proof fn subscribing_is_exact(
    m: Map<Seq<char>, Seq<Seq<char>>>,
    topic: Seq<char>,
    peer: Seq<char>,
)
    requires
        subscriptions_ok(m),
    ensures
        subscribers_of(subscribed(m, topic, peer), topic).contains(peer),
        !subscribers_of(unsubscribed(m, topic, peer), topic).contains(peer),
        forall|t: Seq<char>, p: Seq<char>|
            (t != topic || p != peer) ==> {
                &&& #[trigger] subscribers_of(subscribed(m, topic, peer), t).contains(p)
                    == subscribers_of(m, t).contains(p)
            },
        forall|t: Seq<char>, p: Seq<char>|
            (t != topic || p != peer) ==> {
                &&& #[trigger] subscribers_of(unsubscribed(m, topic, peer), t).contains(p)
                    == subscribers_of(m, t).contains(p)
            },
        subscriptions_ok(subscribed(m, topic, peer)),
        subscriptions_ok(unsubscribed(m, topic, peer)),
{
    lemma_including(subscribers_of(m, topic), peer);
    lemma_without(subscribers_of(m, topic), peer);
    let list = including(subscribers_of(m, topic), peer);
    assert(list.contains(peer));
    assert(list.len() > 0);
    assert forall|t: Seq<char>, p: Seq<char>| (t != topic || p != peer) implies (
    #[trigger] subscribers_of(unsubscribed(m, topic, peer), t).contains(p)) == subscribers_of(
        m,
        t,
    ).contains(p) by {
        if t == topic && m.dom().contains(topic) && without(m[topic], peer).len() == 0 {
            assert(!without(m[topic], peer).contains(p));
        }
    }
}

/// A peer that is removed is subscribed to nothing; the others keep what they have.
pub proof fn removed_peer_subscribes_to_nothing(
    m: Map<Seq<char>, Seq<Seq<char>>>,
    peer: Seq<char>,
)
    requires
        subscriptions_ok(m),
    ensures
        forall|t: Seq<char>| !(#[trigger] subscribers_of(without_subscriber(m, peer), t)).contains(
            peer,
        ),
        forall|t: Seq<char>, p: Seq<char>|
            p != peer ==> (#[trigger] subscribers_of(without_subscriber(m, peer), t).contains(p))
                == subscribers_of(m, t).contains(p),
        subscriptions_ok(without_subscriber(m, peer)),
{
    let after = without_subscriber(m, peer);
    assert forall|t: Seq<char>| !(#[trigger] subscribers_of(after, t)).contains(peer) by {
        lemma_without(subscribers_of(m, t), peer);
    }
    assert forall|t: Seq<char>, p: Seq<char>| p != peer implies (#[trigger] subscribers_of(
        after,
        t,
    ).contains(p)) == subscribers_of(m, t).contains(p) by {
        lemma_without(subscribers_of(m, t), peer);
        if m.dom().contains(t) && without(m[t], peer).len() == 0 {
            assert(!without(m[t], peer).contains(p));
        }
    }
    assert forall|t: Seq<char>| #[trigger] after.dom().contains(t) implies after[t].len() > 0
        && after[t].no_duplicates() by {
        lemma_without(m[t], peer);
    }
}

/// Subscribers stand in the order in which they came: a new one comes last, one that is there keeps
/// its place, and one that leaves is taken out from between the others. A topic is known exactly
/// while it has a subscriber.
pub proof fn subscribers_stand_in_order(
    m: Map<Seq<char>, Seq<Seq<char>>>,
    topic: Seq<char>,
    peer: Seq<char>,
    i: int,
)
    requires
        subscriptions_ok(m),
    ensures
        !subscribers_of(m, topic).contains(peer) ==> subscribers_of(
            subscribed(m, topic, peer),
            topic,
        ) == subscribers_of(m, topic).push(peer),
        subscribers_of(m, topic).contains(peer) ==> subscribers_of(
            subscribed(m, topic, peer),
            topic,
        ) == subscribers_of(m, topic),
        subscribed(m, topic, peer).dom().contains(topic),
        !subscribers_of(m, topic).contains(peer) ==> subscribers_of(
            unsubscribed(m, topic, peer),
            topic,
        ) == subscribers_of(m, topic),
        0 <= i < subscribers_of(m, topic).len() && subscribers_of(m, topic)[i] == peer
            ==> subscribers_of(unsubscribed(m, topic, peer), topic) == subscribers_of(
            m,
            topic,
        ).remove(i),
        unsubscribed(m, topic, peer).dom().contains(topic) <==> subscribers_of(
            unsubscribed(m, topic, peer),
            topic,
        ).len() > 0,
        m.dom().contains(topic) <==> subscribers_of(m, topic).len() > 0,
{
    let list = subscribers_of(m, topic);
    lemma_without(list, peer);
    subscribing_is_exact(m, topic, peer);
    if 0 <= i < list.len() && list[i] == peer {
        leaving_keeps_the_order(list, peer, i);
        assert(subscribers_of(unsubscribed(m, topic, peer), topic) =~= list.remove(i));
    }
}

/// A peer that is removed leaves the others of each topic in their order, and a topic without it as
/// it was; a topic of which it was the only subscriber is no longer known.
pub proof fn removal_keeps_the_order(
    m: Map<Seq<char>, Seq<Seq<char>>>,
    peer: Seq<char>,
    topic: Seq<char>,
    i: int,
)
    requires
        subscriptions_ok(m),
    ensures
        !subscribers_of(m, topic).contains(peer) ==> subscribers_of(
            without_subscriber(m, peer),
            topic,
        ) == subscribers_of(m, topic),
        0 <= i < subscribers_of(m, topic).len() && subscribers_of(m, topic)[i] == peer
            ==> subscribers_of(without_subscriber(m, peer), topic) == subscribers_of(
            m,
            topic,
        ).remove(i),
        without_subscriber(m, peer).dom().contains(topic) <==> subscribers_of(
            without_subscriber(m, peer),
            topic,
        ).len() > 0,
{
    let list = subscribers_of(m, topic);
    lemma_without(list, peer);
    if 0 <= i < list.len() && list[i] == peer {
        leaving_keeps_the_order(list, peer, i);
        assert(subscribers_of(without_subscriber(m, peer), topic) =~= list.remove(i));
    } else if !list.contains(peer) {
        assert(subscribers_of(without_subscriber(m, peer), topic) =~= list);
    }
}

impl PubSubManager {
    /// Every topic has a subscriber, and no subscriber stands twice.
    pub closed spec fn wf(&self) -> bool {
        &&& self.subscriptions.wf()
        &&& subscriptions_ok(self@)
    }

    /// The topics, in the order in which they were first subscribed to.
    pub closed spec fn topic_order(&self) -> Seq<Seq<char>> {
        self.subscriptions.key_seq()
    }

    /// Every topic stands in the order once.
    pub proof fn lemma_topic_order(&self)
        requires
            self.wf(),
        ensures
            self.topic_order().no_duplicates(),
            forall|t: Seq<char>| self@.dom().contains(t) <==> self.topic_order().contains(t),
            subscriptions_ok(self@),
    {
        self.subscriptions.lemma_key_seq();
    }

    pub fn new() -> (m: Self)
        ensures
            m.wf(),
            m@ == Map::<Seq<char>, Seq<Seq<char>>>::empty(),
    {
        let m = PubSubManager { subscriptions: StrMap::new() };
        assert(m@ =~= Map::<Seq<char>, Seq<Seq<char>>>::empty());
        m
    }

    pub fn subscribe(&mut self, topic: &str, peer_id: &str)
        requires
            old(self).wf(),
        ensures
            final(self).wf(),
            final(self)@ == subscribed(old(self)@, topic@, peer_id@),
    {
        let ghost before = self@;
        proof {
            subscribing_is_exact(before, topic@, peer_id@);
        }
        let ghost held = self.subscriptions@;
        match self.subscriptions.get_mut(topic) {
            Some(list) => {
                add_name(list, peer_id);
            },
            None => {
                let mut list: Vec<String> = Vec::new();
                assert(texts(list@) =~= Seq::<Seq<char>>::empty());
                add_name(&mut list, peer_id);
                let _ = self.subscriptions.insert(topic.to_owned(), list);
            },
        }
        proof {
            assert(self@ =~= subscribed(before, topic@, peer_id@));
        }
    }

    pub fn unsubscribe(&mut self, topic: &str, peer_id: &str)
        requires
            old(self).wf(),
        ensures
            final(self).wf(),
            final(self)@ == unsubscribed(old(self)@, topic@, peer_id@),
    {
        let ghost before = self@;
        proof {
            subscribing_is_exact(before, topic@, peer_id@);
        }
        let emptied = match self.subscriptions.get_mut(topic) {
            Some(list) => {
                drop_name(list, peer_id);
                assert(texts(list@).len() == list@.len());
                list.len() == 0
            },
            None => false,
        };
        if emptied {
            let _ = self.subscriptions.remove(topic);
        }
        proof {
            assert(self@ =~= unsubscribed(before, topic@, peer_id@));
        }
    }

    pub fn subscribers(&self, topic: &str) -> (r: Vec<String>)
        requires
            self.wf(),
        ensures
            texts(r@) == subscribers_of(self@, topic@),
    {
        match self.subscriptions.get(topic) {
            Some(list) => copy_names(list),
            None => {
                let r: Vec<String> = Vec::new();
                assert(texts(r@) =~= Seq::<Seq<char>>::empty());
                r
            },
        }
    }

    pub fn topics(&self) -> (r: Vec<String>)
        requires
            self.wf(),
        ensures
            texts(r@) == self.topic_order(),
    {
        let r = self.subscriptions.keys();
        assert(texts(r@) =~= self.topic_order());
        r
    }

    /// The topics that a peer has subscribed to.
    pub fn topics_for_peer(&self, peer_id: &str) -> (r: Vec<String>)
        requires
            self.wf(),
        ensures
            texts(r@) == self.topic_order().filter(
                |t: Seq<char>| subscribers_of(self@, t).contains(peer_id@),
            ),
    {
        let ghost order = self.topic_order();
        let ghost keep = |t: Seq<char>| subscribers_of(self@, t).contains(peer_id@);
        let n: usize = self.subscriptions.len();
        let mut r: Vec<String> = Vec::new();
        let mut i: usize = 0;
        proof {
            reveal(Seq::filter);
            assert(order.take(0) =~= Seq::<Seq<char>>::empty());
            assert(texts(r@) =~= Seq::<Seq<char>>::empty());
        }
        while i < n
            invariant
                i <= n,
                n == order.len(),
                self.wf(),
                order == self.topic_order(),
                keep == (|t: Seq<char>| subscribers_of(self@, t).contains(peer_id@)),
                texts(r@) == order.take(i as int).filter(keep),
            decreases n - i,
        {
            proof {
                reveal(Seq::filter);
                assert(order.take(i + 1).drop_last() =~= order.take(i as int));
                assert(order.take(i + 1).last() == order[i as int]);
            }
            let ghost had = r@;
            if has_name(self.subscriptions.value_at(i), peer_id) {
                r.push(self.subscriptions.key_at(i).clone());
                assert(texts(r@) =~= texts(had).push(order[i as int]));
            }
            i = i + 1;
        }
        assert(order.take(i as int) =~= order);
        r
    }

    /// Takes a peer off every topic.
    pub fn remove_peer(&mut self, peer_id: &str)
        requires
            old(self).wf(),
        ensures
            final(self).wf(),
            final(self)@ == without_subscriber(old(self)@, peer_id@),
    {
        let ghost before = self@;
        let ghost order = self.topic_order();
        proof {
            self.lemma_topic_order();
            removed_peer_subscribes_to_nothing(before, peer_id@);
        }
        let topics = self.topics();
        let mut i: usize = 0;
        while i < topics.len()
            invariant
                i <= topics@.len(),
                texts(topics@) == order,
                order.no_duplicates(),
                self.wf(),
                forall|t: Seq<char>|
                    order.take(i as int).contains(t) ==> subscribers_of(self@, t) == without(
                        subscribers_of(before, t),
                        peer_id@,
                    ),
                forall|t: Seq<char>|
                    !order.take(i as int).contains(t) ==> #[trigger] subscribers_of(self@, t)
                        == subscribers_of(before, t),
            decreases topics@.len() - i,
        {
            let ghost mid = self@;
            let ghost topic = order[i as int];
            proof {
                assert(texts(topics@)[i as int] == topics@[i as int]@);
                let gone = order.take(i as int);
                let now = order.take(i + 1);
                assert forall|t: Seq<char>| #[trigger] now.contains(t) == (gone.contains(t) || t
                    == topic) by {
                    if now.contains(t) {
                        let k = now.index_of(t);
                        if k < i {
                            assert(gone[k] == t);
                        }
                    }
                    if gone.contains(t) {
                        let k = gone.index_of(t);
                        assert(now[k] == t);
                    }
                    if t == topic {
                        assert(now[i as int] == t);
                    }
                }
                if gone.contains(topic) {
                    let k = gone.index_of(topic);
                    assert(order[k] == order[i as int]);
                }
            }
            self.unsubscribe(topics[i].as_str(), peer_id);
            proof {
                lemma_without(subscribers_of(mid, topic), peer_id@);
                assert(subscribers_of(self@, topic) =~= without(
                    subscribers_of(mid, topic),
                    peer_id@,
                ));
                assert forall|t: Seq<char>| t != topic implies #[trigger] subscribers_of(self@, t)
                    == subscribers_of(mid, t) by {}
            }
            i = i + 1;
        }
        proof {
            assert(order.take(i as int) =~= order);
            let want = without_subscriber(before, peer_id@);
            assert forall|t: Seq<char>| #[trigger] subscribers_of(self@, t) == subscribers_of(
                want,
                t,
            ) by {
                lemma_without(subscribers_of(before, t), peer_id@);
                if !order.contains(t) {
                    assert(!before.dom().contains(t));
                } else {
                    assert(before.dom().contains(t));
                }
            }
            assert forall|t: Seq<char>| self@.dom().contains(t) == want.dom().contains(t) by {
                assert(subscribers_of(self@, t) == subscribers_of(want, t));
                if self@.dom().contains(t) {
                    assert(self@[t].len() > 0);
                }
            }
            assert forall|t: Seq<char>| self@.dom().contains(t) implies self@[t] == want[t] by {
                assert(subscribers_of(self@, t) == subscribers_of(want, t));
            }
            assert(self@ =~= want);
        }
    }

    pub fn is_subscribed(&self, topic: &str, peer_id: &str) -> (r: bool)
        requires
            self.wf(),
        ensures
            r == subscribers_of(self@, topic@).contains(peer_id@),
    {
        match self.subscriptions.get(topic) {
            Some(list) => has_name(list, peer_id),
            None => false,
        }
    }

    pub fn topic_count(&self) -> (n: usize)
        requires
            self.wf(),
        ensures
            n == self@.dom().len(),
            n == self.topic_order().len(),
    {
        let n: usize = self.subscriptions.len();
        assert(self@.dom() =~= self.subscriptions@.dom());
        n
    }
}

impl Default for PubSubManager {
    fn default() -> (m: Self)
        ensures
            m.wf(),
            m@ == Map::<Seq<char>, Seq<Seq<char>>>::empty(),
    {
        Self::new()
    }
}

/// Makes the frame of a publication for the `i`-th subscriber of its topic. `None`: all have it.
/// `payload` is the encoded publication. The first one that cannot be reached ends it.
pub fn publish<C: ?Sized>(
    node: &mut Node<C>,
    pubsub: &PubSubManager,
    topic: &str,
    i: usize,
    payload: &[u8],
) -> (r: Option<Result<(Arc<C>, Vec<u8>)>>)
    requires
        old(node).wf(),
        pubsub.wf(),
    ensures
        final(node).wf(),
        if i < subscribers_of(pubsub@, topic@).len() {
            r matches Some(sent) && raw_sent(
                old(node)@,
                final(node)@,
                subscribers_of(pubsub@, topic@)[i as int],
                MessageType::Publish,
                payload@,
                sent,
            )
        } else {
            r is None && final(node)@ == old(node)@
        },
{
    let subs = pubsub.subscribers(topic);
    assert(texts(subs@).len() == subs@.len());
    if i < subs.len() {
        assert(texts(subs@)[i as int] == subs@[i as int]@);
        Some(node.send_raw(subs[i].as_str(), MessageType::Publish, payload))
    } else {
        None
    }
}

/// Makes the frame that asks a peer for a topic.
pub fn send_subscribe<C: ?Sized>(node: &mut Node<C>, peer_id: &str, topic: &str) -> (r: Result<
    (Arc<C>, Vec<u8>),
>)
    requires
        old(node).wf(),
    ensures
        final(node).wf(),
        raw_sent(
            old(node)@,
            final(node)@,
            peer_id@,
            MessageType::Subscribe,
            encode_utf8(topic@),
            r,
        ),
{
    node.send_raw(peer_id, MessageType::Subscribe, topic.as_bytes())
}

/// Makes the frame that tells a peer that a topic is no longer wanted.
pub fn send_unsubscribe<C: ?Sized>(node: &mut Node<C>, peer_id: &str, topic: &str) -> (r: Result<
    (Arc<C>, Vec<u8>),
>)
    requires
        old(node).wf(),
    ensures
        final(node).wf(),
        raw_sent(
            old(node)@,
            final(node)@,
            peer_id@,
            MessageType::Unsubscribe,
            encode_utf8(topic@),
            r,
        ),
{
    node.send_raw(peer_id, MessageType::Unsubscribe, topic.as_bytes())
}

} // verus!
