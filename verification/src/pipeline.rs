//! Decisions of the linear pipeline stages: what a map, broadcast (fan-out)
//! or merge (fan-in) stage does next after each thing that happens to it, and
//! how a bounded collection of a stage's output fills up.
//!
//! A stage's task receives from its input channel and sends to its outputs;
//! between those awaits it asks the [`Stage`] state machine what to do.

use vstd::prelude::*;

use crate::error::PipelineError;

verus! {

/// How a stage treats a downstream that stopped accepting items.
#[derive(Clone, Copy, Debug, PartialEq, Eq, Structural)]
pub enum StageKind {
    /// Transform each item and forward it to one output; a closed output is an error.
    Transform,
    /// Forward a clone of each item to every output in turn; a closed output
    /// ends the stage cleanly.
    Broadcast,
}

/// Where a stage stands.
#[derive(Clone, Copy, Debug, PartialEq, Eq, Structural)]
pub enum StagePhase {
    /// Waiting for the next input item (or for cancellation).
    Receiving,
    /// Handing the current item to the output with this index.
    Delivering(usize),
    /// Done; the stage's task returns.
    Finished,
}

/// What happened to a stage.
#[derive(Clone, Copy, Debug, PartialEq, Eq, Structural)]
pub enum StageEvent {
    /// The cancellation token fired while the stage waited for input.
    Cancelled,
    /// The input channel closed and is drained.
    InputClosed,
    /// An item arrived from the input.
    Item,
    /// The current output accepted the item.
    Sent,
    /// The current output is closed.
    SendFailed,
}

/// What a stage does next.
#[derive(Debug)]
pub enum StageAction {
    /// Wait for the next input item; the current item, if any, is dropped.
    Receive,
    /// Hand the current item to the output with this index.
    Deliver(usize),
    /// Return from the stage's task with this result.
    Finish(Result<(), PipelineError>),
}

/// A pipeline stage's control state.
#[derive(Clone, Copy, Debug)]
pub struct Stage {
    /// How a closed output is treated.
    pub kind: StageKind,
    /// How many outputs each item goes to.
    pub outputs: usize,
    /// Where the stage stands.
    pub phase: StagePhase,
}

/// Whether a stage in `phase` can be told of `event`: input events while
/// receiving, delivery events while delivering, nothing once finished.
pub open spec fn expects(phase: StagePhase, event: StageEvent) -> bool {
    match phase {
        StagePhase::Receiving => event is Cancelled || event is InputClosed || event is Item,
        StagePhase::Delivering(_) => event is Sent || event is SendFailed,
        StagePhase::Finished => false,
    }
}

/// The next phase of a stage, and its action, after `event`.
pub open spec fn step_spec(kind: StageKind, outputs: nat, phase: StagePhase, event: StageEvent) -> (
    StagePhase,
    StageAction,
) {
    match phase {
        StagePhase::Receiving => match event {
            StageEvent::Item => if outputs == 0 {
                (StagePhase::Receiving, StageAction::Receive)
            } else {
                (StagePhase::Delivering(0), StageAction::Deliver(0))
            },
            _ => (StagePhase::Finished, StageAction::Finish(Ok(()))),
        },
        StagePhase::Delivering(k) => match event {
            StageEvent::Sent => if k + 1 < outputs {
                (StagePhase::Delivering((k + 1) as usize), StageAction::Deliver((k + 1) as usize))
            } else {
                (StagePhase::Receiving, StageAction::Receive)
            },
            _ => (
                StagePhase::Finished,
                StageAction::Finish(
                    match kind {
                        StageKind::Transform => Err(PipelineError::ChannelClosed),
                        StageKind::Broadcast => Ok(()),
                    },
                ),
            ),
        },
        StagePhase::Finished => (StagePhase::Finished, StageAction::Finish(Ok(()))),
    }
}

/// The phase after a run of `events`, with the actions taken on the way.
pub open spec fn run_spec(kind: StageKind, outputs: nat, phase: StagePhase, events: Seq<StageEvent>) -> (
    StagePhase,
    Seq<StageAction>,
)
    decreases events.len(),
{
    if events.len() == 0 {
        (phase, Seq::empty())
    } else {
        let (next, action) = step_spec(kind, outputs, phase, events[0]);
        let (last, actions) = run_spec(kind, outputs, next, events.drop_first());
        (last, seq![action] + actions)
    }
}

/// Whether `events` can be told one after the other to a stage in `phase`.
pub open spec fn valid_run(kind: StageKind, outputs: nat, phase: StagePhase, events: Seq<StageEvent>) -> bool
    decreases events.len(),
{
    events.len() == 0 || (expects(phase, events[0]) && valid_run(
        kind,
        outputs,
        step_spec(kind, outputs, phase, events[0]).0,
        events.drop_first(),
    ))
}

/// `n` copies of `event`.
pub open spec fn repeat(event: StageEvent, n: nat) -> Seq<StageEvent> {
    Seq::new(n, |i: int| event)
}

/// Deliveries to the outputs `from`, `from + 1`, ..., `outputs - 1`, then a
/// return to receiving.
pub open spec fn deliveries_from(from: nat, outputs: nat) -> Seq<StageAction> {
    Seq::new((outputs - from) as nat, |i: int| StageAction::Deliver((from + i) as usize)).push(
        StageAction::Receive,
    )
}

proof fn lemma_deliveries_rest(kind: StageKind, outputs: usize, k: usize)
    requires
        k < outputs,
    ensures
        valid_run(kind, outputs as nat, StagePhase::Delivering(k), repeat(StageEvent::Sent, (outputs - k) as nat)),
        run_spec(kind, outputs as nat, StagePhase::Delivering(k), repeat(StageEvent::Sent, (outputs - k) as nat))
            == (StagePhase::Receiving, deliveries_from((k + 1) as nat, outputs as nat)),
    decreases outputs - k,
{
    let events = repeat(StageEvent::Sent, (outputs - k) as nat);
    assert(events[0] == StageEvent::Sent);
    let (next, action) = step_spec(kind, outputs as nat, StagePhase::Delivering(k), StageEvent::Sent);
    let rest = run_spec(kind, outputs as nat, next, events.drop_first());
    assert(run_spec(kind, outputs as nat, StagePhase::Delivering(k), events) == (rest.0, seq![action]
        + rest.1));
    if k + 1 < outputs {
        assert(next == StagePhase::Delivering((k + 1) as usize));
        lemma_deliveries_rest(kind, outputs, (k + 1) as usize);
        assert(events.drop_first() =~= repeat(StageEvent::Sent, (outputs - (k + 1)) as nat));
        assert(seq![StageAction::Deliver((k + 1) as usize)] + deliveries_from((k + 2) as nat, outputs as nat)
            =~= deliveries_from((k + 1) as nat, outputs as nat));
    } else {
        assert(next == StagePhase::Receiving);
        assert(events.drop_first() =~= Seq::<StageEvent>::empty());
        assert(valid_run(kind, outputs as nat, next, events.drop_first()));
        assert(seq![StageAction::Receive] + Seq::<StageAction>::empty() =~= deliveries_from(
            (k + 1) as nat,
            outputs as nat,
        ));
    }
}

/// Every item reaches every output, in output order: told of an item and of
/// one accepted delivery per output, a stage with at least one output hands
/// the item to outputs `0, 1, ..., outputs - 1` and then waits for the next
/// item.
pub proof fn lemma_item_reaches_every_output(kind: StageKind, outputs: usize)
    requires
        outputs >= 1,
    ensures
        ({
            let events = seq![StageEvent::Item] + repeat(StageEvent::Sent, outputs as nat);
            &&& valid_run(kind, outputs as nat, StagePhase::Receiving, events)
            &&& run_spec(kind, outputs as nat, StagePhase::Receiving, events) == (
                StagePhase::Receiving,
                deliveries_from(0, outputs as nat),
            )
        }),
{
    let events = seq![StageEvent::Item] + repeat(StageEvent::Sent, outputs as nat);
    lemma_deliveries_rest(kind, outputs, 0);
    assert(events.drop_first() =~= repeat(StageEvent::Sent, outputs as nat));
    assert(events[0] == StageEvent::Item);
    assert(seq![StageAction::Deliver(0)] + deliveries_from(1, outputs as nat) =~= deliveries_from(
        0,
        outputs as nat,
    ));
}

/// A broadcast stage with no outputs drains its input: told of `items` items
/// and then of the input's end, it drops every item and finishes with `Ok`.
pub proof fn lemma_empty_broadcast_drains(items: nat)
    ensures
        ({
            let events = repeat(StageEvent::Item, items).push(StageEvent::InputClosed);
            &&& valid_run(StageKind::Broadcast, 0, StagePhase::Receiving, events)
            &&& run_spec(StageKind::Broadcast, 0, StagePhase::Receiving, events) == (
                StagePhase::Finished,
                Seq::new(items, |i: int| StageAction::Receive).push(
                    StageAction::Finish(Ok(())),
                ),
            )
        }),
    decreases items,
{
    let events = repeat(StageEvent::Item, items).push(StageEvent::InputClosed);
    let (next, action) = step_spec(StageKind::Broadcast, 0, StagePhase::Receiving, events[0]);
    let rest = run_spec(StageKind::Broadcast, 0, next, events.drop_first());
    assert(run_spec(StageKind::Broadcast, 0, StagePhase::Receiving, events) == (rest.0, seq![action]
        + rest.1));
    if items == 0 {
        assert(events =~= seq![StageEvent::InputClosed]);
        assert(events.drop_first() =~= Seq::<StageEvent>::empty());
        assert(valid_run(StageKind::Broadcast, 0, next, events.drop_first()));
        assert(seq![StageAction::Finish(Ok(()))] + Seq::<StageAction>::empty() =~= Seq::new(
            0,
            |i: int| StageAction::Receive,
        ).push(StageAction::Finish(Ok(()))));
    } else {
        lemma_empty_broadcast_drains((items - 1) as nat);
        assert(events[0] == StageEvent::Item);
        assert(events.drop_first() =~= repeat(StageEvent::Item, (items - 1) as nat).push(
            StageEvent::InputClosed,
        ));
        assert(seq![StageAction::Receive] + Seq::new((items - 1) as nat, |i: int| StageAction::Receive).push(
            StageAction::Finish(Ok(())),
        ) =~= Seq::new(items, |i: int| StageAction::Receive).push(StageAction::Finish(Ok(()))));
    }
}

/// The end of the input, or a cancellation while waiting for it, finishes
/// any stage cleanly.
pub proof fn lemma_input_end_finishes_cleanly(kind: StageKind, outputs: nat, event: StageEvent)
    requires
        event is Cancelled || event is InputClosed,
    ensures
        step_spec(kind, outputs, StagePhase::Receiving, event) == (
            StagePhase::Finished,
            StageAction::Finish(Ok(())),
        ),
{
}

/// A closed output ends a map stage with `ChannelClosed` and a broadcast
/// stage with `Ok`.
pub proof fn lemma_closed_output_outcome(kind: StageKind, outputs: nat, k: usize)
    ensures
        step_spec(kind, outputs, StagePhase::Delivering(k), StageEvent::SendFailed) == (
            StagePhase::Finished,
            StageAction::Finish(
                if kind == StageKind::Transform {
                    Err(PipelineError::ChannelClosed)
                } else {
                    Ok(())
                },
            ),
        ),
{
}

/// A broadcast stage never fails: in every run, each `Finish` it takes
/// carries `Ok`.
pub proof fn lemma_broadcast_never_fails(outputs: nat, phase: StagePhase, events: Seq<StageEvent>)
    requires
        valid_run(StageKind::Broadcast, outputs, phase, events),
    ensures
        forall|i: int|
            0 <= i < events.len() ==> (#[trigger] run_spec(StageKind::Broadcast, outputs, phase, events).1[i]
                matches StageAction::Finish(r) ==> r is Ok),
    decreases events.len(),
{
    if events.len() > 0 {
        let next = step_spec(StageKind::Broadcast, outputs, phase, events[0]).0;
        lemma_broadcast_never_fails(outputs, next, events.drop_first());
        lemma_run_len(StageKind::Broadcast, outputs, next, events.drop_first());
        let acts = run_spec(StageKind::Broadcast, outputs, phase, events).1;
        let rest = run_spec(StageKind::Broadcast, outputs, next, events.drop_first()).1;
        assert forall|i: int| 0 <= i < events.len() implies (#[trigger] acts[i] matches StageAction::Finish(r)
            ==> r is Ok) by {
            if i > 0 {
                assert(acts[i] == rest[i - 1]);
            }
        }
    }
}

/// A map stage fails exactly on a closed output: in every run, the action
/// taken on a refused delivery is `Finish(Err(ChannelClosed))`, and every
/// other action carries no error.
pub proof fn lemma_map_fails_only_on_closed_output(
    outputs: nat,
    phase: StagePhase,
    events: Seq<StageEvent>,
)
    requires
        valid_run(StageKind::Transform, outputs, phase, events),
    ensures
        forall|i: int|
            0 <= i < events.len() ==> {
                let a = #[trigger] run_spec(StageKind::Transform, outputs, phase, events).1[i];
                &&& events[i] is SendFailed ==> a == StageAction::Finish(
                    Err(PipelineError::ChannelClosed),
                )
                &&& !(events[i] is SendFailed) ==> !(a matches StageAction::Finish(r) && r is Err)
            },
    decreases events.len(),
{
    if events.len() > 0 {
        let next = step_spec(StageKind::Transform, outputs, phase, events[0]).0;
        lemma_map_fails_only_on_closed_output(outputs, next, events.drop_first());
        lemma_run_len(StageKind::Transform, outputs, next, events.drop_first());
        let acts = run_spec(StageKind::Transform, outputs, phase, events).1;
        let rest = run_spec(StageKind::Transform, outputs, next, events.drop_first()).1;
        assert forall|i: int| 0 <= i < events.len() implies {
            let a = #[trigger] acts[i];
            &&& events[i] is SendFailed ==> a == StageAction::Finish(
                Err(PipelineError::ChannelClosed),
            )
            &&& !(events[i] is SendFailed) ==> !(a matches StageAction::Finish(r) && r is Err)
        } by {
            if i > 0 {
                assert(acts[i] == rest[i - 1]);
                assert(events[i] == events.drop_first()[i - 1]);
            }
        }
    }
}

proof fn lemma_run_len(kind: StageKind, outputs: nat, phase: StagePhase, events: Seq<StageEvent>)
    ensures
        run_spec(kind, outputs, phase, events).1.len() == events.len(),
    decreases events.len(),
{
    if events.len() > 0 {
        lemma_run_len(kind, outputs, step_spec(kind, outputs, phase, events[0]).0, events.drop_first());
    }
}

impl Stage {
    /// A map stage: one output, and a closed output is an error.
    pub fn map() -> (s: Stage)
        ensures
            s.kind == StageKind::Transform,
            s.outputs == 1,
            s.phase == StagePhase::Receiving,
    {
        Stage { kind: StageKind::Transform, outputs: 1, phase: StagePhase::Receiving }
    }

    /// A broadcast stage over `outputs` outputs (possibly none: items are then
    /// drained and dropped).
    pub fn broadcast(outputs: usize) -> (s: Stage)
        ensures
            s.kind == StageKind::Broadcast,
            s.outputs == outputs,
            s.phase == StagePhase::Receiving,
    {
        Stage { kind: StageKind::Broadcast, outputs, phase: StagePhase::Receiving }
    }

    /// Whether the stage is done.
    pub fn is_finished(&self) -> (b: bool)
        ensures
            b == (self.phase is Finished),
    {
        match self.phase {
            StagePhase::Finished => true,
            _ => false,
        }
    }

    /// Tells the stage what happened; returns what it does next.
    pub fn on_event(&mut self, event: StageEvent) -> (a: StageAction)
        requires
            expects(old(self).phase, event),
        ensures
            final(self).kind == old(self).kind,
            final(self).outputs == old(self).outputs,
            (final(self).phase, a) == step_spec(
                old(self).kind,
                old(self).outputs as nat,
                old(self).phase,
                event,
            ),
    {
        match self.phase {
            StagePhase::Receiving => match event {
                StageEvent::Item => {
                    if self.outputs == 0 {
                        StageAction::Receive
                    } else {
                        self.phase = StagePhase::Delivering(0);
                        StageAction::Deliver(0)
                    }
                },
                _ => {
                    self.phase = StagePhase::Finished;
                    StageAction::Finish(Ok(()))
                },
            },
            StagePhase::Delivering(k) => match event {
                StageEvent::Sent => {
                    if self.outputs > 0 && k < self.outputs - 1 {
                        self.phase = StagePhase::Delivering(k + 1);
                        StageAction::Deliver(k + 1)
                    } else {
                        self.phase = StagePhase::Receiving;
                        StageAction::Receive
                    }
                },
                _ => {
                    self.phase = StagePhase::Finished;
                    match self.kind {
                        StageKind::Transform => StageAction::Finish(Err(PipelineError::ChannelClosed)),
                        StageKind::Broadcast => StageAction::Finish(Ok(())),
                    }
                },
            },
            StagePhase::Finished => StageAction::Finish(Ok(())),
        }
    }
}

/// The result that a merge stage takes from one joined worker: the worker's
/// own result, or `TaskJoin` when the worker panicked or was cancelled.
pub fn settle_join(joined: Result<Result<(), PipelineError>, tokio::task::JoinError>) -> (r: Result<
    (),
    PipelineError,
>)
    ensures
        match joined {
            Ok(inner) => r == inner,
            Err(e) => r == Err::<(), PipelineError>(PipelineError::TaskJoin(e)),
        },
{
    match joined {
        Ok(inner) => inner,
        Err(e) => Err(PipelineError::TaskJoin(e)),
    }
}

/// Up to `max_items` items taken from a stage's output, in arrival order.
pub struct Collector<T> {
    items: Vec<T>,
    max_items: usize,
}

impl<T> Collector<T> {
    /// The items collected so far, oldest first.
    pub closed spec fn collected(&self) -> Seq<T> {
        self.items@
    }

    /// How many items the collector takes at most.
    pub closed spec fn limit(&self) -> nat {
        self.max_items as nat
    }

    /// An empty collector that takes at most `max_items` items.
    pub fn new(max_items: usize) -> (c: Self)
        ensures
            c.collected() == Seq::<T>::empty(),
            c.limit() == max_items,
    {
        Collector { items: Vec::new(), max_items }
    }

    /// Whether the collector takes another item.
    pub fn wants_more(&self) -> (b: bool)
        ensures
            b == (self.collected().len() < self.limit()),
    {
        self.items.len() < self.max_items
    }

    /// Takes one more item.
    pub fn accept(&mut self, item: T)
        requires
            old(self).collected().len() < old(self).limit(),
        ensures
            final(self).collected() == old(self).collected().push(item),
            final(self).limit() == old(self).limit(),
            final(self).collected().len() <= final(self).limit(),
    {
        self.items.push(item);
    }

    /// The collected items, oldest first.
    pub fn into_items(self) -> (v: Vec<T>)
        ensures
            v@ == self.collected(),
    {
        self.items
    }
}

} // verus!
