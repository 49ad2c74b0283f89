//! Bus fan-out, and the map / broadcast / merge stage decisions driven over
//! in-memory inputs and outputs.

use pub_sub_pipeline::error::PipelineError;
use pub_sub_pipeline::pipeline::{settle_join, Collector, Stage, StageAction, StageEvent};
use pub_sub_pipeline::bus::TryRecvFailure;
use pub_sub_pipeline::{EventBus, InvalidCapacity, PublishError};

/// Drives `stage` over `input`; `outputs[i]` is `None` when output `i` is closed.
/// A cancellation arrives when `cancel_after` items have been taken.
fn drive<T: Clone>(
    mut stage: Stage,
    input: Vec<T>,
    outputs: &mut Vec<Option<Vec<T>>>,
    cancel_after: Option<usize>,
) -> Result<(), PipelineError> {
    let mut items = input.into_iter();
    let mut taken = 0usize;
    let mut current: Option<T> = None;
    let mut action = StageAction::Receive;
    loop {
        let event = match action {
            StageAction::Receive => {
                if cancel_after == Some(taken) {
                    StageEvent::Cancelled
                } else {
                    match items.next() {
                        Some(item) => {
                            taken += 1;
                            current = Some(item);
                            StageEvent::Item
                        }
                        None => StageEvent::InputClosed,
                    }
                }
            }
            StageAction::Deliver(i) => match &mut outputs[i] {
                Some(out) => {
                    out.push(current.clone().unwrap());
                    StageEvent::Sent
                }
                None => StageEvent::SendFailed,
            },
            StageAction::Finish(r) => return r,
        };
        action = stage.on_event(event);
    }
}

#[test]
fn bus_delivers_same_message_to_all_subscribers() {
    let mut bus: EventBus<i32> = EventBus::new(16);
    let mut s1 = bus.subscribe("orders");
    let mut s2 = bus.subscribe("orders");

    let n = bus.publish("orders", 42).expect("publish");
    assert!(n >= 2, "expected at least two receivers");

    assert_eq!(bus.receive_from(&mut s1).expect("recv"), 42);
    assert_eq!(bus.receive_from(&mut s2).expect("recv"), 42);
}

#[test]
fn bus_try_new_rejects_zero_capacity() {
    let err = match EventBus::<()>::try_new(0) {
        Err(e) => e,
        Ok(_) => panic!("zero capacity"),
    };
    assert_eq!(err, InvalidCapacity);
}

#[test]
fn bus_publish_errors_without_subscribers() {
    let mut bus: EventBus<u8> = EventBus::new(4);
    let err = bus
        .publish("empty", 1)
        .expect_err("should fail without receivers");
    assert!(matches!(err, PublishError::NoReceivers { .. }));
}

#[test]
fn bus_subscriber_misses_earlier_publishes() {
    let mut bus: EventBus<u32> = EventBus::new(8);
    let _early = bus.subscribe("t");
    bus.publish("t", 1).unwrap();
    let mut late = bus.subscribe("t");
    bus.publish("t", 2).unwrap();
    assert_eq!(bus.receive_from(&mut late).unwrap(), 2);
    assert!(bus.receive_from(&mut late).is_err());
}

#[test]
fn held_subscriptions_receive_in_order_then_nothing() {
    let mut bus: EventBus<u32> = EventBus::new(8);
    bus.publish("t", 0).unwrap_err();
    let a = bus.subscribe_held("t");
    bus.publish("t", 1).unwrap();
    let b = bus.subscribe_held("t");
    assert_eq!(bus.publish("t", 2).unwrap(), 2);
    assert_eq!(bus.receive(a), Ok(1));
    assert_eq!(bus.receive(a), Ok(2));
    assert_eq!(bus.receive(a), Err(TryRecvFailure::Empty));
    assert_eq!(bus.receive(b), Ok(2));
    assert_eq!(bus.receive(b), Err(TryRecvFailure::Empty));
}

#[test]
fn held_subscription_lags_past_the_rounded_buffer() {
    // A capacity of 3 is rounded up to 4 retained messages.
    let mut bus: EventBus<u32> = EventBus::new(3);
    let s = bus.subscribe_held("t");
    for m in 0..6 {
        bus.publish("t", m).unwrap();
    }
    assert_eq!(bus.receive(s), Err(TryRecvFailure::Lagged(2)));
    for m in 2..6 {
        assert_eq!(bus.receive(s), Ok(m));
    }
    assert_eq!(bus.receive(s), Err(TryRecvFailure::Empty));
}

#[test]
fn held_subscriptions_are_isolated_by_topic() {
    let mut bus: EventBus<u32> = EventBus::new(8);
    let a = bus.subscribe_held("a");
    let b = bus.subscribe_held("b");
    assert_eq!(bus.publish("a", 7).unwrap(), 1);
    assert_eq!(bus.receive(b), Err(TryRecvFailure::Empty));
    assert_eq!(bus.receive(a), Ok(7));
}

#[test]
fn publish_fails_once_handed_out_receivers_are_dropped() {
    let mut bus: EventBus<u32> = EventBus::new(8);
    let rx = bus.subscribe("t");
    assert_eq!(bus.publish("t", 1).unwrap(), 1);
    drop(rx);
    assert!(matches!(
        bus.publish("t", 2),
        Err(PublishError::NoReceivers { .. })
    ));
}

#[test]
fn publish_counts_resubscribed_receivers() {
    let mut bus: EventBus<u32> = EventBus::new(8);
    let rx = bus.subscribe("t");
    let rx = rx.into_receiver();
    let _rx2 = rx.resubscribe();
    assert_eq!(bus.publish("t", 1).unwrap(), 2);
}

#[test]
fn ensure_topic_keeps_an_existing_channel() {
    let mut bus: EventBus<u32> = EventBus::new(1);
    let s = bus.subscribe_held("t");
    bus.ensure_topic("t");
    assert_eq!(bus.publish("t", 5).unwrap(), 1);
    assert_eq!(bus.receive(s), Ok(5));
}

#[test]
fn bus_topics_are_independent() {
    let mut bus: EventBus<u32> = EventBus::new(8);
    let mut a = bus.subscribe("a");
    let mut b = bus.subscribe("b");
    bus.publish("a", 7).unwrap();
    assert_eq!(bus.receive_from(&mut a).unwrap(), 7);
    assert!(bus.receive_from(&mut b).is_err());
    assert!(bus.publish("c", 1).is_err());
}

#[test]
fn map_stage_cancellable_exits_cleanly_when_token_fires() {
    let mut outs: Vec<Option<Vec<i32>>> = vec![Some(vec![])];
    let r = drive(Stage::map(), vec![1, 2], &mut outs, Some(0));
    assert!(r.is_ok());
    assert_eq!(outs[0], Some(vec![]));
}

#[test]
fn map_pipeline_transforms_end_to_end() {
    let mut outs: Vec<Option<Vec<i32>>> = vec![Some(vec![])];
    let input: Vec<i32> = vec!["7"]
        .into_iter()
        .map(|s| pub_sub_pipeline::text::parse_i32(s).unwrap_or(-1))
        .collect();
    drive(Stage::map(), input, &mut outs, None).unwrap();
    assert_eq!(outs[0], Some(vec![7]));
}

#[test]
fn map_stage_fails_when_downstream_closes() {
    let mut outs: Vec<Option<Vec<i32>>> = vec![None];
    let r = drive(Stage::map(), vec![1], &mut outs, None);
    assert!(matches!(r, Err(PipelineError::ChannelClosed)));
}

#[test]
fn broadcast_stage_with_no_outputs_drains_without_panic() {
    let mut outs: Vec<Option<Vec<i32>>> = vec![];
    drive(Stage::broadcast(0), vec![1], &mut outs, None).unwrap();
}

#[test]
fn broadcast_stage_duplicates_to_all_outputs() {
    let mut outs: Vec<Option<Vec<i32>>> = vec![Some(vec![]), Some(vec![])];
    drive(Stage::broadcast(2), vec![99], &mut outs, None).unwrap();
    assert_eq!(outs[0], Some(vec![99]));
    assert_eq!(outs[1], Some(vec![99]));
}

#[test]
fn broadcast_stage_stops_cleanly_on_closed_output() {
    let mut outs: Vec<Option<Vec<i32>>> = vec![Some(vec![]), None, Some(vec![])];
    let r = drive(Stage::broadcast(3), vec![5, 6], &mut outs, None);
    assert!(r.is_ok());
    assert_eq!(outs[0], Some(vec![5]));
    assert_eq!(outs[2], Some(vec![]));
}

#[test]
fn merge_stage_multiplexes_two_inputs() {
    let mut outs: Vec<Option<Vec<i32>>> = vec![Some(vec![])];
    let a = drive(Stage::map(), vec![1], &mut outs, None);
    let b = drive(Stage::map(), vec![2], &mut outs, None);
    settle_join(Ok(a)).unwrap();
    settle_join(Ok(b)).unwrap();
    let mut c = Collector::new(2);
    for v in outs[0].clone().unwrap() {
        if c.wants_more() {
            c.accept(v);
        }
    }
    let mut vals = c.into_items();
    pub_sub_pipeline::scenarios::sort_ascending(&mut vals);
    assert_eq!(vals, vec![1, 2]);
}

#[test]
fn settle_join_passes_the_worker_error() {
    assert!(matches!(
        settle_join(Ok(Err(PipelineError::ChannelClosed))),
        Err(PipelineError::ChannelClosed)
    ));
}

#[test]
fn settle_join_reports_a_panicked_worker() {
    let rt = tokio::runtime::Builder::new_current_thread()
        .build()
        .unwrap();
    let joined = rt.block_on(async { tokio::spawn(async { panic!("boom") }).await });
    let joined: Result<Result<(), PipelineError>, _> = joined.map(|()| Ok(()));
    assert!(matches!(settle_join(joined), Err(PipelineError::TaskJoin(_))));
}

#[test]
fn collector_stops_at_its_limit() {
    let mut c = Collector::new(2);
    let mut offered = 0;
    for v in [1, 2, 3, 4] {
        if !c.wants_more() {
            break;
        }
        c.accept(v);
        offered += 1;
    }
    assert_eq!(offered, 2);
    assert_eq!(c.into_items(), vec![1, 2]);
    let mut none: Collector<i32> = Collector::new(0);
    assert!(!none.wants_more());
    let _ = &mut none;
}

#[test]
fn handed_out_subscribers_receive_in_order_then_nothing() {
    let mut bus: EventBus<u32> = EventBus::new(8);
    let mut a = bus.subscribe("t");
    bus.publish("t", 1).unwrap();
    let mut b = bus.subscribe("t");
    assert_eq!(bus.publish("t", 2).unwrap(), 2);
    assert_eq!(bus.receive_from(&mut a), Ok(1));
    assert_eq!(bus.receive_from(&mut a), Ok(2));
    assert_eq!(bus.receive_from(&mut a), Err(TryRecvFailure::Empty));
    assert_eq!(bus.receive_from(&mut b), Ok(2));
    assert_eq!(bus.receive_from(&mut b), Err(TryRecvFailure::Empty));
}

#[test]
fn handed_out_subscriber_lags_past_the_rounded_buffer() {
    // A capacity of 3 is rounded up to 4 retained messages.
    let mut bus: EventBus<u32> = EventBus::new(3);
    let mut s = bus.subscribe("t");
    for m in 0..6 {
        bus.publish("t", m).unwrap();
    }
    assert_eq!(bus.receive_from(&mut s), Err(TryRecvFailure::Lagged(2)));
    for m in 2..6 {
        assert_eq!(bus.receive_from(&mut s), Ok(m));
    }
    assert_eq!(bus.receive_from(&mut s), Err(TryRecvFailure::Empty));
}

#[test]
fn handed_out_receiver_can_be_taken_out_and_read() {
    let mut bus: EventBus<u32> = EventBus::new(8);
    let sub = bus.subscribe("t");
    bus.publish("t", 3).unwrap();
    let mut rx = sub.into_receiver();
    assert_eq!(rx.try_recv().unwrap(), 3);
}
