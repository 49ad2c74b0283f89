//! One topic's Tokio broadcast channel, with the ghost account that the
//! wrappers calling Tokio keep of it. The fields are private to this module:
//! only those wrappers change the channel or its account, so the account can
//! be trusted to describe the channel it belongs to.

use tokio::sync::broadcast::error::TryRecvError;
use tokio::sync::broadcast::{Receiver, Sender};
use vstd::prelude::*;

use crate::bus::{advance, fresh_topic, receive_step, slots_for, Delivery, TopicView, TryRecvFailure};

verus! {

/// The sending half of a Tokio broadcast channel.
#[verifier::external_type_specification]
#[verifier::external_body]
#[verifier::reject_recursive_types(T)]
pub struct ExBroadcastSender<T>(Sender<T>);

/// A subscription to a Tokio broadcast channel.
#[verifier::external_type_specification]
#[verifier::external_body]
#[verifier::reject_recursive_types(T)]
pub struct ExBroadcastReceiver<T>(Receiver<T>);

/// A topic's channel: the Tokio sender, the receivers the bus holds for its
/// own subscriptions, and the account of the channel.
#[verifier::reject_recursive_types(M)]
pub(crate) struct Channel<M> {
    sender: Sender<M>,
    held: Vec<Receiver<M>>,
    log: Ghost<Seq<M>>,
    reached: Ghost<Seq<nat>>,
    cursors: Ghost<Seq<int>>,
    released: Ghost<nat>,
    offered: Ghost<Seq<M>>,
    id: Ghost<int>,
    slots: Ghost<nat>,
}

impl<M> Channel<M> {
    /// The account of the channel.
    pub(crate) closed spec fn view(&self) -> TopicView<M> {
        TopicView {
            log: self.log@,
            reached: self.reached@,
            cursors: self.cursors@,
            released: self.released@,
            offered: self.offered@,
            slots: self.slots@,
        }
    }

    /// The channel's identity, which every receiver handed out for it carries.
    pub(crate) closed spec fn id(&self) -> int {
        self.id@
    }

    /// How many receivers the bus holds on the channel.
    pub(crate) closed spec fn held_len(&self) -> nat {
        self.held@.len()
    }

    /// How many receivers the bus holds on the channel.
    pub(crate) fn held_count(&self) -> (n: usize)
        ensures
            n == self.held_len(),
    {
        self.held.len()
    }
}

/// Opens a channel with `tokio::sync::broadcast::channel(capacity)`, keeping
/// its sender and dropping the receiver it also returns, so the channel
/// starts with no receiver and no message. Tokio rounds `capacity` up to a
/// power of two, the number of messages it retains, and panics when
/// `capacity` is 0 or above `usize::MAX / 2`, which `requires` leaves out.
#[verifier::external_body]
pub(crate) fn open_channel<M: Clone>(capacity: usize) -> (ch: Channel<M>)
    requires
        0 < capacity <= usize::MAX / 2,
    ensures
        ch.held_len() == 0,
        ch.view() == fresh_topic::<M>(slots_for(capacity as nat)),
{
    Channel {
        sender: tokio::sync::broadcast::channel(capacity).0,
        held: Vec::new(),
        log: Ghost(Seq::empty()),
        reached: Ghost(Seq::empty()),
        cursors: Ghost(Seq::empty()),
        released: Ghost(0),
        offered: Ghost(Seq::empty()),
        id: Ghost(0),
        slots: Ghost(slots_for(capacity as nat)),
    }
}

/// Calls `Sender::send` with `message`. Tokio's source fails, handing the
/// value back, when the channel has no live receiver, and otherwise writes the
/// value after every earlier one and returns the number of live receivers,
/// which the account records beside the message. The held receivers are all
/// live, so that count is at least theirs; with no receiver ever handed out,
/// no other receiver exists (a receiver can only be made from the sender or
/// by `Receiver::resubscribe` on a receiver), so the count is exactly theirs.
/// A handed-out receiver can be dropped or resubscribed anywhere, so beyond
/// that the count is not stated. Tokio counts positions in a `u64`, which
/// `requires` keeps from wrapping.
#[verifier::external_body]
pub(crate) fn send_on<M>(ch: &mut Channel<M>, message: M) -> (r: Result<usize, M>)
    requires
        old(ch).view().log.len() < u64::MAX,
    ensures
        final(ch).held_len() == old(ch).held_len(),
        final(ch).id() == old(ch).id(),
        ({
            let tv = old(ch).view();
            &&& r matches Ok(n) ==> final(ch).view() == (TopicView {
                log: tv.log.push(message),
                reached: tv.reached.push(n as nat),
                offered: tv.offered.push(message),
                ..tv
            }) && 1 <= n && old(ch).held_len() <= n && (tv.released == 0 ==> n == old(
                ch,
            ).held_len())
            &&& r matches Err(m) ==> m == message && final(ch).view() == (TopicView {
                offered: tv.offered.push(message),
                ..tv
            }) && old(ch).held_len() == 0
        }),
{
    ch.sender.send(message).map_err(|e| e.0)
}

/// Calls `Sender::subscribe` and keeps the receiver in the channel. Tokio
/// starts a new receiver at the next message to be sent. (Tokio also panics
/// past `usize::MAX >> 2` live receivers of one channel, a count no machine
/// holds.)
#[verifier::external_body]
pub(crate) fn subscribe_held_on<M>(ch: &mut Channel<M>)
    ensures
        final(ch).held_len() == old(ch).held_len() + 1,
        final(ch).id() == old(ch).id(),
        final(ch).view() == (TopicView {
            cursors: old(ch).view().cursors.push(old(ch).view().log.len() as int),
            ..old(ch).view()
        }),
{
    let receiver = ch.sender.subscribe();
    ch.held.push(receiver);
}

/// Calls `Sender::subscribe` and hands the receiver out inside a
/// [`Subscriber`] for the topic at `topic`, marked with the channel's identity
/// and starting, as Tokio starts a new receiver, at the next message to be
/// sent.
#[verifier::external_body]
pub(crate) fn subscribe_released_on<M>(ch: &mut Channel<M>, topic: usize) -> (rx: Subscriber<M>)
    ensures
        final(ch).held_len() == old(ch).held_len(),
        final(ch).id() == old(ch).id(),
        final(ch).view() == (TopicView { released: old(ch).view().released + 1, ..old(ch).view() }),
        rx.topic_index() == topic,
        rx.channel_id() == old(ch).id(),
        rx.position() == old(ch).view().log.len(),
{
    Subscriber { rx: ch.sender.subscribe(), topic, channel: Ghost(0), position: Ghost(0) }
}

/// Calls `Receiver::try_recv` on a handed-out subscriber of the channel `ch`
/// (the one whose identity it carries). Tokio's source (`recv_ref`) reads
/// as for a held receiver: the message at its position when still retained,
/// `Empty` when nothing is pending (the channel keeps its sender, so it is
/// never closed here), or `Lagged` with the count of overwritten messages,
/// moving it to the oldest retained one. The message returned is a clone of
/// the one sent.
#[verifier::external_body]
pub(crate) fn receive_released_on<M: Clone>(ch: &Channel<M>, rx: &mut Subscriber<M>) -> (r: Result<
    M,
    TryRecvFailure,
>)
    requires
        old(rx).channel_id() == ch.id(),
        0 <= old(rx).position() <= ch.view().log.len(),
    ensures
        final(rx).topic_index() == old(rx).topic_index(),
        final(rx).channel_id() == old(rx).channel_id(),
        final(rx).position() == advance(
            ch.view().log.len() as int,
            ch.view().slots,
            old(rx).position(),
        ).0,
        match advance(ch.view().log.len() as int, ch.view().slots, old(rx).position()).1 {
            Delivery::At(i) => r matches Ok(v) && cloned(ch.view().log[i], v),
            Delivery::Nothing => r == Err::<M, TryRecvFailure>(TryRecvFailure::Empty),
            Delivery::Missed(n) => r == Err::<M, TryRecvFailure>(TryRecvFailure::Lagged(n as u64)),
        },
{
    match rx.rx.try_recv() {
        Ok(m) => Ok(m),
        Err(TryRecvError::Empty) => Err(TryRecvFailure::Empty),
        Err(TryRecvError::Closed) => Err(TryRecvFailure::Closed),
        Err(TryRecvError::Lagged(n)) => Err(TryRecvFailure::Lagged(n)),
    }
}

/// Calls `Receiver::try_recv` on the held receiver `k`. Tokio's source
/// (`recv_ref`) reads the message at the receiver's position when the
/// channel still retains it, returns `Empty` when nothing is pending (the
/// channel keeps its sender, so it is never closed here), and when more than
/// the retained number are pending, returns `Lagged` with the count of
/// overwritten messages and moves the receiver to the oldest retained one.
/// The message returned is a clone of the one sent.
#[verifier::external_body]
pub(crate) fn receive_held_on<M: Clone>(ch: &mut Channel<M>, k: usize) -> (r: Result<M, TryRecvFailure>)
    requires
        k < old(ch).held_len(),
        old(ch).view().cursors.len() == old(ch).held_len(),
        0 <= old(ch).view().cursors[k as int] <= old(ch).view().log.len(),
    ensures
        final(ch).held_len() == old(ch).held_len(),
        final(ch).id() == old(ch).id(),
        final(ch).view() == receive_step(old(ch).view(), k as int).0,
        match receive_step(old(ch).view(), k as int).1 {
            Delivery::At(i) => r matches Ok(v) && cloned(old(ch).view().log[i], v),
            Delivery::Nothing => r == Err::<M, TryRecvFailure>(TryRecvFailure::Empty),
            Delivery::Missed(n) => r == Err::<M, TryRecvFailure>(TryRecvFailure::Lagged(n as u64)),
        },
{
    match ch.held[k].try_recv() {
        Ok(m) => Ok(m),
        Err(TryRecvError::Empty) => Err(TryRecvFailure::Empty),
        Err(TryRecvError::Closed) => Err(TryRecvFailure::Closed),
        Err(TryRecvError::Lagged(n)) => Err(TryRecvFailure::Lagged(n)),
    }
}

/// A receiver handed out for a topic: read it with
/// [`crate::bus::EventBus::receive_from`], or take the Tokio receiver out
/// with [`Subscriber::into_receiver`] to await it.
#[verifier::reject_recursive_types(M)]
pub struct Subscriber<M> {
    rx: Receiver<M>,
    topic: usize,
    channel: Ghost<int>,
    position: Ghost<int>,
}

impl<M> Subscriber<M> {
    /// The position of its topic among the bus's topics.
    pub closed spec fn topic_index(&self) -> nat {
        self.topic as nat
    }

    /// The identity of the channel it receives from.
    pub closed spec fn channel_id(&self) -> int {
        self.channel@
    }

    /// The position in its topic's log of the next message it reads.
    pub closed spec fn position(&self) -> int {
        self.position@
    }

    /// The position of its topic among the bus's topics.
    pub(crate) fn topic(&self) -> (t: usize)
        ensures
            t == self.topic_index(),
    {
        self.topic
    }

    /// The Tokio receiver, to be awaited; what it then receives is Tokio's
    /// and no longer tracked.
    pub fn into_receiver(self) -> Receiver<M> {
        self.rx
    }
}

} // verus!
