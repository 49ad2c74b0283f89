//! Multi-topic pub/sub over Tokio broadcast channels (fan-out to many
//! subscribers).
//!
//! The bus keeps one broadcast channel per topic, created the first time the
//! topic is named. Each channel carries, beside the Tokio sender, the
//! receivers the bus holds for its own subscriptions and a ghost account of
//! the channel, kept by the wrappers that call Tokio: every message offered to
//! its `send`, every message it accepted, where each held receiver stands in
//! that sequence, how many receivers were handed out, and its buffer length.
//! The bus's view maps each topic to that account. Each channel also has a
//! ghost identity, which every receiver handed out for it carries, together
//! with its own position in the channel's messages.

use vstd::prelude::*;
use vstd::string::*;

use crate::channel::{
    open_channel, receive_held_on, receive_released_on, send_on, subscribe_held_on,
    subscribe_released_on, Channel,
};
pub use crate::channel::Subscriber;

use crate::error::{no_receivers, no_receivers_reason, PublishError};

verus! {

/// What a non-blocking receive found in place of a message.
#[derive(Debug, Clone, Copy, PartialEq, Eq, Structural)]
pub enum TryRecvFailure {
    /// Nothing is pending yet; senders remain.
    Empty,
    /// Every sender is gone.
    Closed,
    /// The subscriber fell behind and missed this many messages.
    Lagged(u64),
}

/// The smallest power of two that is at least `c`, searching upwards from `p`.
pub open spec fn round_up_pow2(c: nat, p: nat) -> nat
    decreases 2 * c - p,
{
    if p == 0 || p >= c {
        p
    } else {
        round_up_pow2(c, 2 * p)
    }
}

proof fn lemma_round_up_pow2_at_least(c: nat, p: nat)
    requires
        p >= 1,
    ensures
        round_up_pow2(c, p) >= p,
    decreases 2 * c - p,
{
    if p < c {
        lemma_round_up_pow2_at_least(c, 2 * p);
    }
}

/// How many messages a channel opened for `capacity` retains: `capacity`
/// rounded up to a power of two (`usize::next_power_of_two`).
pub open spec fn slots_for(capacity: nat) -> nat {
    round_up_pow2(capacity, 1)
}

/// The account of one topic's channel.
pub struct TopicView<M> {
    /// Every message the channel accepted, oldest first.
    pub log: Seq<M>,
    /// For each accepted message, the number of live receivers the channel
    /// reported handing it to.
    pub reached: Seq<nat>,
    /// For each subscription the bus holds on the topic, the position in
    /// `log` of the next message it reads.
    pub cursors: Seq<int>,
    /// How many receivers were handed out for the topic (each may since have
    /// been dropped).
    pub released: nat,
    /// Every message handed to the channel's `send`, accepted or not, oldest first.
    pub offered: Seq<M>,
    /// How many of the latest messages the channel retains.
    pub slots: nat,
}

/// The account of a topic that was just opened with `slots` slots.
pub open spec fn fresh_topic<M>(slots: nat) -> TopicView<M> {
    TopicView { log: Seq::empty(), reached: Seq::empty(), cursors: Seq::empty(), released: 0, offered: Seq::empty(), slots }
}

/// What one receive yields.
pub enum Delivery {
    /// The message at this position of the log.
    At(int),
    /// Nothing: the subscriber has read everything.
    Nothing,
    /// Nothing, having skipped this many messages that were overwritten.
    Missed(nat),
}

/// One receive by a subscriber whose next position is `c`, on a channel that
/// has accepted `len` messages and retains the latest `slots`: the next
/// message when it is still retained, nothing when none is pending, and when
/// more than `slots` are pending, the count of the overwritten ones, with the
/// position moved to the oldest retained message. Gives the new position and
/// what was yielded.
pub open spec fn advance(len: int, slots: nat, c: int) -> (int, Delivery) {
    if c == len {
        (c, Delivery::Nothing)
    } else if len - c > slots {
        (len - slots, Delivery::Missed((len - slots - c) as nat))
    } else {
        (c + 1, Delivery::At(c))
    }
}

/// One receive on the held subscription `k` of a topic.
pub open spec fn receive_step<M>(tv: TopicView<M>, k: int) -> (TopicView<M>, Delivery) {
    let (c, d) = advance(tv.log.len() as int, tv.slots, tv.cursors[k]);
    (TopicView { cursors: tv.cursors.update(k, c), ..tv }, d)
}

impl<M> Channel<M> {
    /// The channel's account is consistent with its receivers: one cursor
    /// per held receiver, each within the log, and positions that fit a `u64`.
    spec fn inv(&self) -> bool {
        &&& self.view().cursors.len() == self.held_len()
        &&& self.view().log.len() <= u64::MAX
        &&& forall|k: int|
            0 <= k < self.view().cursors.len() ==> 0 <= #[trigger] self.view().cursors[k]
                <= self.view().log.len()
    }
}

/// `EventBus` was constructed with `capacity == 0`, which Tokio broadcast rejects.
#[derive(Clone, Copy, Debug, PartialEq, Eq, Structural)]
pub struct InvalidCapacity;

/// A subscription that the bus holds for its owner: read it with
/// [`EventBus::receive`].
#[derive(Clone, Copy, Debug, PartialEq, Eq)]
pub struct Subscription {
    topic: usize,
    member: usize,
}

impl Subscription {
    /// The position of its topic among the bus's topics.
    pub closed spec fn topic_index(self) -> nat {
        self.topic as nat
    }

    /// Its position among the subscriptions held on its topic.
    pub closed spec fn member_index(self) -> nat {
        self.member as nat
    }
}

/// Handles fan-out delivery: each subscriber of a topic gets a clone of every
/// message published to it after it subscribed (best-effort: a subscriber
/// that lags more than the channel retains misses the oldest ones).
#[verifier::reject_recursive_types(M)]
pub struct EventBus<M: Clone + Send + 'static> {
    names: Vec<String>,
    channels: Vec<Channel<M>>,
    capacity: usize,
}

/// The position of `t` in `names`.
pub open spec fn position_of(names: Seq<Seq<char>>, t: Seq<char>) -> int {
    choose|i: int| 0 <= i < names.len() && names[i] == t
}

proof fn lemma_position_of(names: Seq<Seq<char>>, i: int)
    requires
        names.no_duplicates(),
        0 <= i < names.len(),
    ensures
        position_of(names, names[i]) == i,
{
    let j = position_of(names, names[i]);
    assert(0 <= j < names.len() && names[j] == names[i]);
}

/// `names` with `topic` known.
pub open spec fn with_name(names: Seq<Seq<char>>, topic: Seq<char>) -> Seq<Seq<char>> {
    if names.contains(topic) {
        names
    } else {
        names.push(topic)
    }
}

/// `topics` with `topic` known: unchanged when it is there, else with `topic`
/// added as a fresh channel of `slots` slots.
pub open spec fn with_topic<M>(
    topics: Map<Seq<char>, TopicView<M>>,
    topic: Seq<char>,
    slots: nat,
) -> Map<Seq<char>, TopicView<M>> {
    if topics.contains_key(topic) {
        topics
    } else {
        topics.insert(topic, fresh_topic(slots))
    }
}

/// What a publish returns, given what the channel's `send` returned: the
/// receiver count, or `NoReceivers` for `topic` when the message came back.
pub open spec fn publish_result_spec<M>(
    topic: Seq<char>,
    sent: Result<usize, M>,
    r: Result<usize, PublishError>,
) -> bool {
    match sent {
        Ok(n) => r == Ok::<usize, PublishError>(n),
        Err(_) => r matches Err(PublishError::NoReceivers { topic: t, reason }) && t@ == topic
            && reason@ == no_receivers_reason(),
    }
}

/// Maps what a topic's `send` returned to what `publish` returns.
pub fn publish_outcome<M>(topic: &str, sent: Result<usize, M>) -> (r: Result<usize, PublishError>)
    ensures
        publish_result_spec(topic@, sent, r),
{
    match sent {
        Ok(n) => Ok(n),
        Err(_) => Err(no_receivers(topic)),
    }
}

impl<M: Clone + Send + 'static> View for EventBus<M> {
    type V = Map<Seq<char>, TopicView<M>>;

    /// Each known topic, with the account of its channel.
    closed spec fn view(&self) -> Map<Seq<char>, TopicView<M>> {
        Map::new(
            |t: Seq<char>| self.topic_names().contains(t),
            |t: Seq<char>| self.channels@[position_of(self.topic_names(), t)].view(),
        )
    }
}

impl<M: Clone + Send + 'static> EventBus<M> {
    /// The known topics, in the order they were first named.
    pub closed spec fn topic_names(&self) -> Seq<Seq<char>> {
        self.names@.map_values(|s: String| s@)
    }

    /// The lag buffer size that each topic's channel is opened with.
    pub closed spec fn lag_capacity(&self) -> nat {
        self.capacity as nat
    }

    /// The bus is well formed: a nonzero capacity, one channel per topic,
    /// and each channel's account consistent with its receivers.
    pub closed spec fn wf(&self) -> bool {
        &&& self.capacity > 0
        &&& self.names@.len() == self.channels@.len()
        &&& self.topic_names().no_duplicates()
        &&& forall|i: int|
            0 <= i < self.channels@.len() ==> (#[trigger] self.channels@[i]).inv()
                && self.channels@[i].view().slots == slots_for(self.capacity as nat)
    }

    /// The topic of `sub`.
    pub open spec fn subscription_topic(&self, sub: Subscription) -> Seq<char> {
        self.topic_names()[sub.topic_index() as int]
    }

    /// The bus's capacity is each topic's lag buffer: a handed-out subscriber
    /// that has read everything and then sees up to `slots_for(capacity)`
    /// messages published to its topic receives every one of them, in order,
    /// and then nothing.
    pub proof fn lemma_capacity_is_the_lag_buffer(&self, rx: Subscriber<M>, msgs: Seq<M>)
        requires
            self.wf(),
            self.holds_subscriber(rx),
            rx.position() == self@[self.subscriber_topic(rx)].log.len(),
            msgs.len() <= slots_for(self.lag_capacity()),
        ensures
            ({
                let tv = self@[self.subscriber_topic(rx)];
                let later = tv.log + msgs;
                let start = tv.log.len() as int;
                &&& tv.slots == slots_for(self.lag_capacity())
                &&& advance_run(later.len() as int, tv.slots, rx.position(), msgs.len() + 1) == (
                    start + msgs.len(),
                    in_order(start, start + msgs.len()),
                )
                &&& forall|j: int| 0 <= j < msgs.len() ==> #[trigger] later[start + j] == msgs[j]
            }),
    {
        let t = self.subscriber_topic(rx);
        self.lemma_view_contains(rx.topic_index() as int);
        self.lemma_topic_slots();
        lemma_subscriber_receives_later_messages(self@[t].log, self@[t].slots, msgs);
    }

    /// Every topic's channel retains `slots_for(capacity)` messages, at least one.
    pub proof fn lemma_topic_slots(&self)
        requires
            self.wf(),
        ensures
            slots_for(self.lag_capacity()) >= 1,
            forall|t: Seq<char>| #[trigger]
                self@.contains_key(t) ==> self@[t].slots == slots_for(self.lag_capacity()),
    {
        lemma_round_up_pow2_at_least(self.lag_capacity(), 1);
        assert forall|t: Seq<char>| #[trigger] self@.contains_key(t) implies self@[t].slots == slots_for(
            self.lag_capacity(),
        ) by {
            let j = position_of(self.topic_names(), t);
            assert(0 <= j < self.topic_names().len() && self.topic_names()[j] == t);
            self.lemma_view_contains(j);
        }
    }

    /// Whether `rx` was handed out by this bus, for its topic's channel, and
    /// has not read past what the channel accepted.
    pub closed spec fn holds_subscriber(&self, rx: Subscriber<M>) -> bool {
        &&& rx.topic_index() < self.channels@.len()
        &&& rx.channel_id() == self.channels@[rx.topic_index() as int].id()
        &&& 0 <= rx.position() <= self.channels@[rx.topic_index() as int].view().log.len()
    }

    /// The topic of the handed-out subscriber `rx`.
    pub open spec fn subscriber_topic(&self, rx: Subscriber<M>) -> Seq<char> {
        self.topic_names()[rx.topic_index() as int]
    }

    /// What this bus knows of its handed-out subscribers is kept by a change
    /// to `other` that keeps every channel (identity, and messages only
    /// appended) and every topic name.
    spec fn keeps_channels(&self, other: Self) -> bool {
        &&& self.channels@.len() <= other.channels@.len()
        &&& forall|i: int|
            0 <= i < self.channels@.len() ==> other.channels@[i].id() == self.channels@[i].id()
                && self.channels@[i].view().log.len() <= other.channels@[i].view().log.len()
                && other.topic_names()[i] == #[trigger] self.topic_names()[i]
    }

    proof fn lemma_subscribers_kept(&self, other: Self)
        requires
            self.keeps_channels(other),
        ensures
            forall|rx: Subscriber<M>| #[trigger]
                self.holds_subscriber(rx) ==> other.holds_subscriber(rx)
                    && other.subscriber_topic(rx) == self.subscriber_topic(rx),
    {
        assert forall|rx: Subscriber<M>| #[trigger] self.holds_subscriber(rx) implies other.holds_subscriber(rx)
            && other.subscriber_topic(rx) == self.subscriber_topic(rx) by {
            assert(other.topic_names()[rx.topic_index() as int] == self.topic_names()[rx.topic_index() as int]);
        }
    }

    /// After `start` became `mid` by naming a topic, and `mid` became `self`
    /// by a wrapper on channel `i`, the handed-out subscribers are kept.
    proof fn lemma_kept_after_update(&self, start: Self, mid: Self, i: int)
        requires
            start.wf(),
            mid.wf(),
            start.keeps_channels(mid),
            0 <= i < mid.channels@.len(),
            self.names@ == mid.names@,
            self.channels@ == mid.channels@.update(i, self.channels@[i]),
            self.channels@[i].id() == mid.channels@[i].id(),
            mid.channels@[i].view().log.len() <= self.channels@[i].view().log.len(),
        ensures
            forall|rx: Subscriber<M>| #[trigger]
                start.holds_subscriber(rx) ==> self.holds_subscriber(rx) && self.subscriber_topic(rx)
                    == start.subscriber_topic(rx),
    {
        assert(self.topic_names() == mid.topic_names());
        assert forall|rx: Subscriber<M>| #[trigger] start.holds_subscriber(rx) implies self.holds_subscriber(rx)
            && self.subscriber_topic(rx) == start.subscriber_topic(rx) by {
            let j = rx.topic_index() as int;
            assert(mid.topic_names()[j] == start.topic_names()[j]);
            if j != i {
                assert(self.channels@[j] == mid.channels@[j]);
            }
        }
    }

    /// Whether `sub` is a subscription that this bus holds.
    pub open spec fn holds(&self, sub: Subscription) -> bool {
        &&& sub.topic_index() < self.topic_names().len()
        &&& sub.member_index() < self@[self.subscription_topic(sub)].cursors.len()
    }

    /// Whether naming `topic` is possible: it is known, or a channel can be
    /// opened with the bus's capacity.
    pub open spec fn can_name(&self, topic: Seq<char>) -> bool {
        self@.contains_key(topic) || self.lag_capacity() <= usize::MAX / 2
    }

    /// Whether another message can go to `topic`: it can be named, and its
    /// channel's positions (a `u64`) have room.
    pub open spec fn can_publish(&self, topic: Seq<char>) -> bool {
        &&& self.can_name(topic)
        &&& self@.contains_key(topic) ==> self@[topic].log.len() < u64::MAX
    }

    proof fn lemma_view_contains(&self, i: int)
        requires
            self.wf(),
            0 <= i < self.names@.len(),
        ensures
            self@.contains_key(self.topic_names()[i]),
            self@[self.topic_names()[i]] == self.channels@[i].view(),
    {
        lemma_position_of(self.topic_names(), i);
    }

    proof fn lemma_view_after_update(&self, other: &Self, i: int)
        requires
            self.wf(),
            0 <= i < self.names@.len(),
            other.names@ == self.names@,
            other.channels@ == self.channels@.update(i, other.channels@[i]),
        ensures
            other@ == self@.insert(self.topic_names()[i], other.channels@[i].view()),
    {
        let names = self.topic_names();
        assert(other.topic_names() == names);
        assert forall|t: Seq<char>| #[trigger] other@.contains_key(t) implies other@[t] == self@.insert(
            names[i],
            other.channels@[i].view(),
        )[t] by {
            let j = position_of(names, t);
            assert(0 <= j < names.len() && names[j] == t);
            lemma_position_of(names, j);
        }
        assert(other@ =~= self@.insert(names[i], other.channels@[i].view()));
    }

    proof fn lemma_view_after_push(&self, other: &Self, t: Seq<char>)
        requires
            self.wf(),
            !self.topic_names().contains(t),
            other.topic_names() == self.topic_names().push(t),
            other.channels@ == self.channels@.push(other.channels@.last()),
            other.topic_names().no_duplicates(),
        ensures
            other@ == self@.insert(t, other.channels@.last().view()),
    {
        let names = self.topic_names();
        let names2 = other.topic_names();
        assert forall|x: Seq<char>| #[trigger] other@.contains_key(x) implies other@[x] == self@.insert(
            t,
            other.channels@.last().view(),
        )[x] by {
            let j = position_of(names2, x);
            assert(0 <= j < names2.len() && names2[j] == x);
            lemma_position_of(names2, j);
            if j < names.len() {
                assert(names[j] == x);
                lemma_position_of(names, j);
            }
        }
        assert forall|x: Seq<char>| #[trigger] self@.insert(t, other.channels@.last().view()).contains_key(x)
            implies other@.contains_key(x) by {
            if x != t {
                let j = position_of(names, x);
                assert(names2[j] == x);
            } else {
                assert(names2[names.len() as int] == t);
            }
        }
        assert(other@ =~= self@.insert(t, other.channels@.last().view()));
    }

    /// Constructs a bus with the given per-topic lag buffer size.
    ///
    /// # Errors
    ///
    /// Returns [`InvalidCapacity`] when `capacity == 0`.
    pub fn try_new(capacity: usize) -> (r: Result<Self, InvalidCapacity>)
        ensures
            r is Err <==> capacity == 0,
            r matches Ok(bus) ==> bus.wf() && bus@ == Map::<Seq<char>, TopicView<M>>::empty()
                && bus.topic_names() == Seq::<Seq<char>>::empty() && bus.lag_capacity()
                == capacity,
    {
        if capacity == 0 {
            return Err(InvalidCapacity);
        }
        let bus = EventBus { names: Vec::new(), channels: Vec::new(), capacity };
        assert(bus.topic_names() =~= Seq::<Seq<char>>::empty());
        assert(bus@ =~= Map::<Seq<char>, TopicView<M>>::empty());
        Ok(bus)
    }

    /// Like [`Self::try_new`], for a capacity known to be nonzero.
    pub fn new(capacity: usize) -> (bus: Self)
        requires
            capacity > 0,
        ensures
            bus.wf(),
            bus@ == Map::<Seq<char>, TopicView<M>>::empty(),
            bus.topic_names() == Seq::<Seq<char>>::empty(),
            bus.lag_capacity() == capacity,
    {
        match Self::try_new(capacity) {
            Ok(bus) => bus,
            Err(_) => {
                assert(false);
                EventBus { names: Vec::new(), channels: Vec::new(), capacity }
            },
        }
    }

    /// The lag buffer per topic; when full, slow subscribers lag behind.
    pub fn capacity(&self) -> (c: usize)
        ensures
            c == self.lag_capacity(),
    {
        self.capacity
    }

    fn position(&self, topic: &String) -> (r: Option<usize>)
        requires
            self.wf(),
        ensures
            r matches Some(i) ==> i < self.names@.len() && self.topic_names()[i as int] == topic@,
            r is None ==> !self.topic_names().contains(topic@),
    {
        let mut i: usize = 0;
        while i < self.names.len()
            invariant
                self.wf(),
                i <= self.names@.len(),
                forall|k: int| 0 <= k < i ==> self.topic_names()[k] != topic@,
            decreases self.names@.len() - i,
        {
            if self.names[i] == *topic {
                return Some(i);
            }
            i = i + 1;
        }
        None
    }

    /// The index of `topic`'s channel, opening one when the topic is new.
    fn topic_index(&mut self, topic: &str) -> (i: usize)
        requires
            old(self).wf(),
            old(self).can_name(topic@),
        ensures
            final(self).wf(),
            final(self)@ == with_topic(
                old(self)@,
                topic@,
                slots_for(old(self).lag_capacity()),
            ),
            final(self).topic_names() == with_name(old(self).topic_names(), topic@),
            final(self).lag_capacity() == old(self).lag_capacity(),
            i < final(self).names@.len(),
            final(self).topic_names()[i as int] == topic@,
            old(self).names@.len() <= final(self).names@.len(),
            forall|j: int|
                0 <= j < old(self).channels@.len() ==> final(self).channels@[j] == old(self).channels@[j]
                    && final(self).topic_names()[j] == old(self).topic_names()[j],
            old(self).keeps_channels(*final(self)),
    {
        let key = String::from_str(topic);
        match self.position(&key) {
            Some(i) => {
                proof {
                    self.lemma_view_contains(i as int);
                }
                i
            },
            None => {
                proof {
                    if self@.contains_key(topic@) {
                        assert(self.topic_names().contains(topic@));
                    }
                }
                let ghost before = *self;
                let channel = open_channel(self.capacity);
                self.names.push(key);
                self.channels.push(channel);
                assert(self.topic_names() =~= before.topic_names().push(topic@));
                assert(self.topic_names().no_duplicates()) by {
                    let n = self.topic_names();
                    assert forall|a: int, b: int| 0 <= a < b < n.len() implies n[a] != n[b] by {
                        if b == n.len() - 1 {
                            assert(before.topic_names()[a] == n[a]);
                        }
                    }
                }
                assert forall|k: int| 0 <= k < self.channels@.len() implies (
                #[trigger] self.channels@[k]).inv() by {
                    if k < before.channels@.len() {
                        assert(self.channels@[k] == before.channels@[k]);
                    }
                }
                proof {
                    before.lemma_view_after_push(self, topic@);
                }
                self.names.len() - 1
            },
        }
    }

    /// Ensures a topic exists (idempotent). Useful for setup before
    /// subscribers connect: the topic's channel starts with no receiver.
    pub fn ensure_topic(&mut self, topic: &str)
        requires
            old(self).wf(),
            old(self).can_name(topic@),
        ensures
            final(self).wf(),
            final(self)@ == with_topic(old(self)@, topic@, slots_for(old(self).lag_capacity())),
            final(self).topic_names() == with_name(old(self).topic_names(), topic@),
            final(self).lag_capacity() == old(self).lag_capacity(),
            old(self)@.contains_key(topic@) ==> final(self)@ == old(self)@,
            forall|rx: Subscriber<M>| #[trigger]
                old(self).holds_subscriber(rx) ==> final(self).holds_subscriber(rx)
                    && final(self).subscriber_topic(rx) == old(self).subscriber_topic(rx),
    {
        let ghost before = *self;
        self.topic_index(topic);
        proof {
            before.lemma_subscribers_kept(*self);
        }
    }

    /// Publishes one message to all current subscribers on `topic`.
    ///
    /// Creates the topic lazily. Returns the number of live subscribers the
    /// message was handed to, as the channel reported it (recorded in the
    /// topic's `reached`), or [`PublishError`] when there is none; then the
    /// message reaches no one.
    pub fn publish(&mut self, topic: &str, message: M) -> (r: Result<usize, PublishError>)
        requires
            old(self).wf(),
            old(self).can_publish(topic@),
        ensures
            final(self).wf(),
            final(self).lag_capacity() == old(self).lag_capacity(),
            final(self).topic_names() == with_name(old(self).topic_names(), topic@),
            ({
                let base = with_topic(old(self)@, topic@, slots_for(old(self).lag_capacity()));
                let tv = base[topic@];
                let held = tv.cursors.len();
                &&& final(self)@.dom() == base.dom()
                &&& forall|u: Seq<char>| #[trigger] base.contains_key(u) && u != topic@ ==> final(self)@[u] == base[u]
                &&& final(self)@[topic@] == (TopicView {
                    log: if r is Ok { tv.log.push(message) } else { tv.log },
                    reached: match r {
                        Ok(n) => tv.reached.push(n as nat),
                        Err(_) => tv.reached,
                    },
                    offered: tv.offered.push(message),
                    ..tv
                })
                &&& r matches Ok(n) ==> (1 <= n && held <= n && (tv.released == 0 ==> n == held))
                &&& r is Err ==> held == 0
                &&& held > 0 ==> r is Ok
                &&& held + tv.released == 0 ==> r is Err
            }),
            r matches Err(PublishError::NoReceivers { topic: t, reason }) ==> t@ == topic@
                && reason@ == no_receivers_reason(),
            forall|rx: Subscriber<M>| #[trigger]
                old(self).holds_subscriber(rx) ==> final(self).holds_subscriber(rx)
                    && final(self).subscriber_topic(rx) == old(self).subscriber_topic(rx),
    {
        let ghost start = *self;
        let i = self.topic_index(topic);
        let ghost mid = *self;
        proof {
            mid.lemma_view_contains(i as int);
        }
        let sent = send_on(&mut self.channels[i as usize], message);
        let ok = sent.is_ok();
        proof {
            assert(self.names@ == mid.names@);
            mid.lemma_view_after_update(self, i as int);
            assert forall|k: int| 0 <= k < self.channels@.len() implies (
            #[trigger] self.channels@[k]).inv() by {
                if k != i {
                    assert(self.channels@[k] == mid.channels@[k]);
                }
            }
            assert(self@[topic@] == self.channels@[i as int].view());
            self.lemma_kept_after_update(start, mid, i as int);
        }
        publish_outcome(topic, sent)
    }

    /// Subscribes to `topic` and hands the subscriber out; it starts at the
    /// next message to be published to the topic. Read it with
    /// [`Self::receive_from`], or await its Tokio receiver
    /// ([`Subscriber::into_receiver`]).
    pub fn subscribe(&mut self, topic: &str) -> (rx: Subscriber<M>)
        requires
            old(self).wf(),
            old(self).can_name(topic@),
        ensures
            final(self).wf(),
            final(self).lag_capacity() == old(self).lag_capacity(),
            final(self).topic_names() == with_name(old(self).topic_names(), topic@),
            ({
                let base = with_topic(old(self)@, topic@, slots_for(old(self).lag_capacity()));
                let tv = base[topic@];
                &&& final(self)@ == base.insert(topic@, TopicView { released: tv.released + 1, ..tv })
                &&& rx.position() == tv.log.len()
            }),
            final(self).holds_subscriber(rx),
            final(self).subscriber_topic(rx) == topic@,
            forall|rx: Subscriber<M>| #[trigger]
                old(self).holds_subscriber(rx) ==> final(self).holds_subscriber(rx)
                    && final(self).subscriber_topic(rx) == old(self).subscriber_topic(rx),
    {
        let ghost start = *self;
        let i = self.topic_index(topic);
        let ghost mid = *self;
        proof {
            mid.lemma_view_contains(i as int);
        }
        let rx = subscribe_released_on(&mut self.channels[i as usize], i);
        proof {
            mid.lemma_view_after_update(self, i as int);
            assert forall|k: int| 0 <= k < self.channels@.len() implies (
            #[trigger] self.channels@[k]).inv() by {
                if k != i {
                    assert(self.channels@[k] == mid.channels@[k]);
                }
            }
            self.lemma_kept_after_update(start, mid, i as int);
        }
        rx
    }

    /// Receives, without waiting, on a subscriber this bus handed out: the
    /// next message published to its topic after it subscribed, `Empty` when
    /// it has read them all, or `Lagged` when more were published than the
    /// channel retains (it then moves to the oldest retained one). The bus is
    /// not changed.
    pub fn receive_from(&self, rx: &mut Subscriber<M>) -> (r: Result<M, TryRecvFailure>)
        requires
            self.wf(),
            self.holds_subscriber(*old(rx)),
        ensures
            self.holds_subscriber(*final(rx)),
            final(rx).topic_index() == old(rx).topic_index(),
            ({
                let t = self.subscriber_topic(*old(rx));
                let (next, d) = advance(self@[t].log.len() as int, self@[t].slots, old(rx).position());
                &&& final(rx).position() == next
                &&& match d {
                    Delivery::At(i) => r matches Ok(v) && cloned(self@[t].log[i], v),
                    Delivery::Nothing => r == Err::<M, TryRecvFailure>(TryRecvFailure::Empty),
                    Delivery::Missed(n) => r == Err::<M, TryRecvFailure>(
                        TryRecvFailure::Lagged(n as u64),
                    ),
                }
            }),
    {
        proof {
            self.lemma_view_contains(rx.topic_index() as int);
        }
        receive_released_on(&self.channels[rx.topic()], rx)
    }

    /// Subscribes to `topic` with a subscription that the bus holds; it
    /// starts at the next message to be published.
    pub fn subscribe_held(&mut self, topic: &str) -> (sub: Subscription)
        requires
            old(self).wf(),
            old(self).can_name(topic@),
        ensures
            final(self).wf(),
            final(self).lag_capacity() == old(self).lag_capacity(),
            final(self).topic_names() == with_name(old(self).topic_names(), topic@),
            ({
                let base = with_topic(old(self)@, topic@, slots_for(old(self).lag_capacity()));
                let tv = base[topic@];
                &&& final(self)@ == base.insert(
                    topic@,
                    TopicView { cursors: tv.cursors.push(tv.log.len() as int), ..tv },
                )
                &&& sub.member_index() == tv.cursors.len()
            }),
            final(self).holds(sub),
            final(self).subscription_topic(sub) == topic@,
            forall|rx: Subscriber<M>| #[trigger]
                old(self).holds_subscriber(rx) ==> final(self).holds_subscriber(rx)
                    && final(self).subscriber_topic(rx) == old(self).subscriber_topic(rx),
    {
        let ghost start = *self;
        let i = self.topic_index(topic);
        let ghost mid = *self;
        proof {
            mid.lemma_view_contains(i as int);
        }
        let member = self.channels[i as usize].held_count();
        subscribe_held_on(&mut self.channels[i as usize]);
        proof {
            mid.lemma_view_after_update(self, i as int);
            assert forall|k: int| 0 <= k < self.channels@.len() implies (
            #[trigger] self.channels@[k]).inv() by {
                if k != i {
                    assert(self.channels@[k] == mid.channels@[k]);
                } else {
                    let c = self.channels@[k];
                    assert forall|j: int| 0 <= j < c.view().cursors.len() implies 0 <= #[trigger] c.view().cursors[j]
                        <= c.view().log.len() by {
                        if j < mid.channels@[k].view().cursors.len() {
                            assert(c.view().cursors[j] == mid.channels@[k].view().cursors[j]);
                        }
                    }
                }
            }
            self.lemma_view_contains(i as int);
            self.lemma_kept_after_update(start, mid, i as int);
        }
        Subscription { topic: i, member }
    }

    /// Receives, without waiting, on a subscription this bus holds: the next
    /// message published to its topic after it subscribed, `Empty` when it
    /// has read them all, or `Lagged` when more were published than the
    /// channel retains (its cursor then moves to the oldest retained one).
    pub fn receive(&mut self, sub: Subscription) -> (r: Result<M, TryRecvFailure>)
        requires
            old(self).wf(),
            old(self).holds(sub),
        ensures
            final(self).wf(),
            final(self).lag_capacity() == old(self).lag_capacity(),
            final(self).topic_names() == old(self).topic_names(),
            ({
                let t = old(self).subscription_topic(sub);
                let step = receive_step(old(self)@[t], sub.member_index() as int);
                &&& final(self)@ == old(self)@.insert(t, step.0)
                &&& match step.1 {
                    Delivery::At(i) => r matches Ok(v) && cloned(old(self)@[t].log[i], v),
                    Delivery::Nothing => r == Err::<M, TryRecvFailure>(TryRecvFailure::Empty),
                    Delivery::Missed(n) => r == Err::<M, TryRecvFailure>(
                        TryRecvFailure::Lagged(n as u64),
                    ),
                }
            }),
            forall|rx: Subscriber<M>| #[trigger]
                old(self).holds_subscriber(rx) ==> final(self).holds_subscriber(rx)
                    && final(self).subscriber_topic(rx) == old(self).subscriber_topic(rx),
    {
        let ghost mid = *self;
        proof {
            mid.lemma_view_contains(sub.topic as int);
            assert(mid.channels@[sub.topic as int].inv());
        }
        let r = receive_held_on(&mut self.channels[sub.topic], sub.member);
        proof {
            let old_ch = mid.channels@[sub.topic as int];
            let c = self.channels@[sub.topic as int];
            assert(c.view() == receive_step(old_ch.view(), sub.member as int).0);
            mid.lemma_view_after_update(self, sub.topic as int);
            assert forall|k: int| 0 <= k < self.channels@.len() implies (
            #[trigger] self.channels@[k]).inv() by {
                if k != sub.topic {
                    assert(self.channels@[k] == mid.channels@[k]);
                } else {
                    assert forall|j: int| 0 <= j < c.view().cursors.len() implies 0 <= #[trigger] c.view().cursors[j]
                        <= c.view().log.len() by {
                        if j != sub.member {
                            assert(c.view().cursors[j] == old_ch.view().cursors[j]);
                        }
                    }
                }
            }
            self.lemma_kept_after_update(mid, mid, sub.topic as int);
        }
        r
    }
}

/// Naming a topic twice is naming it once: `ensure_topic` (and the topic
/// creation of `publish` and `subscribe`) is idempotent; it opens a topic with
/// no receiver and no message, and never changes a topic that exists, so its
/// channel, receivers and messages are kept.
pub proof fn lemma_ensure_topic_idempotent<M>(
    topics: Map<Seq<char>, TopicView<M>>,
    topic: Seq<char>,
    slots: nat,
)
    ensures
        with_topic(with_topic(topics, topic, slots), topic, slots) == with_topic(topics, topic, slots),
        with_topic(topics, topic, slots).contains_key(topic),
        !topics.contains_key(topic) ==> with_topic(topics, topic, slots)[topic] == fresh_topic::<M>(
            slots,
        ),
        forall|t: Seq<char>| #[trigger]
            topics.contains_key(t) ==> with_topic(topics, topic, slots)[t] == topics[t],
{
}

/// `n` receives in a row by a subscriber whose next position is `c`, on a
/// channel that has accepted `len` messages and retains the latest `slots`:
/// the position after them, and what each one yielded.
pub open spec fn advance_run(len: int, slots: nat, c: int, n: nat) -> (int, Seq<Delivery>)
    decreases n,
{
    if n == 0 {
        (c, Seq::empty())
    } else {
        let (next, d) = advance(len, slots, c);
        let (last, ds) = advance_run(len, slots, next, (n - 1) as nat);
        (last, seq![d] + ds)
    }
}

/// `n` receives in a row on the held subscription `k`: the account after
/// them, and what each one yielded.
pub open spec fn receive_run<M>(tv: TopicView<M>, k: int, n: nat) -> (TopicView<M>, Seq<Delivery>) {
    let (c, ds) = advance_run(tv.log.len() as int, tv.slots, tv.cursors[k], n);
    (TopicView { cursors: tv.cursors.update(k, c), ..tv }, ds)
}

/// The deliveries of the log positions `from`, `from + 1`, ..., `to - 1`,
/// followed by one `Nothing`.
pub open spec fn in_order(from: int, to: int) -> Seq<Delivery> {
    Seq::new((to - from) as nat, |j: int| Delivery::At(from + j)).push(Delivery::Nothing)
}

proof fn lemma_run_catches_up(len: int, slots: nat, c: int)
    requires
        0 <= c <= len,
        len - c <= slots,
    ensures
        advance_run(len, slots, c, (len - c + 1) as nat) == (len, in_order(c, len)),
    decreases len - c,
{
    let n = (len - c) as nat;
    let (next, d) = advance(len, slots, c);
    if c == len {
        assert(advance_run(len, slots, next, 0).1 =~= Seq::<Delivery>::empty());
        assert(seq![Delivery::Nothing] + Seq::<Delivery>::empty() =~= in_order(c, len));
    } else {
        assert(d == Delivery::At(c) && next == c + 1);
        lemma_run_catches_up(len, slots, c + 1);
        assert((n - 1 + 1) as nat == n);
        assert(seq![Delivery::At(c)] + in_order(c + 1, len) =~= in_order(c, len));
    }
}

/// Delivery, the bus's central law, for a subscriber handed out by
/// [`EventBus::subscribe`] and read with [`EventBus::receive_from`]: one that
/// has read everything (as one has right after subscribing, at position
/// `log.len()`) and then sees the messages `msgs` published to its topic, no
/// more than the channel retains, receives exactly those messages, in publish
/// order, and then nothing: never a message published before it subscribed.
pub proof fn lemma_subscriber_receives_later_messages<M>(log: Seq<M>, slots: nat, msgs: Seq<M>)
    requires
        msgs.len() <= slots,
    ensures
        ({
            let later = log + msgs;
            let start = log.len() as int;
            let (last, ds) = advance_run(later.len() as int, slots, start, msgs.len() + 1);
            &&& ds == in_order(start, start + msgs.len())
            &&& forall|j: int| 0 <= j < msgs.len() ==> #[trigger] later[start + j] == msgs[j]
            &&& last == start + msgs.len()
        }),
{
    lemma_run_catches_up((log + msgs).len() as int, slots, log.len() as int);
}

/// Delivery for a subscription the bus holds (read with
/// [`EventBus::receive`]): the same law, on its cursor `k`.
pub proof fn lemma_held_subscription_receives_later_messages<M>(tv: TopicView<M>, k: int, msgs: Seq<M>)
    requires
        0 <= k < tv.cursors.len(),
        tv.cursors[k] == tv.log.len(),
        msgs.len() <= tv.slots,
    ensures
        ({
            let later = TopicView { log: tv.log + msgs, ..tv };
            let start = tv.log.len() as int;
            let (last, ds) = receive_run(later, k, msgs.len() + 1);
            &&& ds == in_order(start, start + msgs.len())
            &&& forall|j: int| 0 <= j < msgs.len() ==> #[trigger] later.log[start + j] == msgs[j]
            &&& last.cursors[k] == start + msgs.len()
        }),
{
    lemma_subscriber_receives_later_messages(tv.log, tv.slots, msgs);
}

/// A subscriber more than the channel retains behind (position `c` on a
/// channel of `len` messages and `slots` slots) first learns how many
/// messages it missed, then receives the retained ones in order, and then
/// nothing.
pub proof fn lemma_lagging_subscriber(len: int, slots: nat, c: int)
    requires
        0 <= c,
        len - c > slots,
    ensures
        ({
            let (next, d) = advance(len, slots, c);
            let (last, ds) = advance_run(len, slots, next, slots + 1);
            &&& d == Delivery::Missed((len - slots - c) as nat)
            &&& ds == in_order(len - slots, len)
            &&& last == len
        }),
{
    lemma_run_catches_up(len, slots, len - slots);
}

/// A receive moves only its own subscription: the topic's messages, its
/// handed-out count, its buffer and every other subscription's position stay.
pub proof fn lemma_receive_moves_only_its_cursor<M>(tv: TopicView<M>, k: int, other: int)
    requires
        0 <= k < tv.cursors.len(),
        0 <= other < tv.cursors.len(),
        other != k,
    ensures
        receive_step(tv, k).0.log == tv.log,
        receive_step(tv, k).0.released == tv.released,
        receive_step(tv, k).0.slots == tv.slots,
        receive_step(tv, k).0.cursors.len() == tv.cursors.len(),
        receive_step(tv, k).0.cursors[other] == tv.cursors[other],
{
}

} // verus!
