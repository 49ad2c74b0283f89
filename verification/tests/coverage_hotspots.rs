//! Branches that are easy to miss: capacity, explicit topics, cancellation.

use pub_sub_pipeline::pipeline::{Stage, StageAction, StageEvent, StagePhase};
use pub_sub_pipeline::text::{list_to_text, parse_i32, trim};
use pub_sub_pipeline::EventBus;

#[test]
fn bus_reports_capacity_and_ensure_topic() {
    let mut bus = EventBus::<u8>::new(12);
    assert_eq!(bus.capacity(), 12);
    bus.ensure_topic("ready");
    bus.ensure_topic("ready");
    let mut sub = bus.subscribe("ready");
    bus.publish("ready", 9).expect("publish");
    assert_eq!(bus.receive_from(&mut sub).expect("recv"), 9);
}

#[test]
fn map_cancellable_processes_items_before_shutdown() {
    let map = |x: i32| x + 10;
    let mut out: Vec<i32> = vec![];
    let mut stage = Stage::map();
    match stage.on_event(StageEvent::Item) {
        StageAction::Deliver(0) => out.push(map(1)),
        other => panic!("unexpected {other:?}"),
    }
    assert_eq!(out, vec![11]);
    assert!(matches!(stage.on_event(StageEvent::Sent), StageAction::Receive));
    assert!(matches!(
        stage.on_event(StageEvent::Cancelled),
        StageAction::Finish(Ok(()))
    ));
    assert!(stage.is_finished());
}

#[test]
fn broadcast_cancellable_stops_even_with_outputs() {
    let mut stage = Stage::broadcast(1);
    assert!(matches!(
        stage.on_event(StageEvent::Cancelled),
        StageAction::Finish(Ok(()))
    ));
    assert_eq!(stage.phase, StagePhase::Finished);
}

#[test]
fn merge_cancellable_stops_cleanly() {
    // One merge worker whose token fires before any input arrives.
    let mut out: Vec<i32> = vec![];
    let mut worker = Stage::map();
    let r = match worker.on_event(StageEvent::Cancelled) {
        StageAction::Finish(r) => r,
        StageAction::Deliver(_) => {
            out.push(0);
            Ok(())
        }
        StageAction::Receive => Ok(()),
    };
    assert!(r.is_ok());
    assert!(pub_sub_pipeline::pipeline::settle_join(Ok(r)).is_ok());
    let mut collected = pub_sub_pipeline::pipeline::Collector::new(1);
    for v in out {
        if collected.wants_more() {
            collected.accept(v);
        }
    }
    assert!(collected.into_items().is_empty());
}

#[test]
fn broadcast_walks_outputs_in_order() {
    let mut stage = Stage::broadcast(3);
    assert!(matches!(stage.on_event(StageEvent::Item), StageAction::Deliver(0)));
    assert!(matches!(stage.on_event(StageEvent::Sent), StageAction::Deliver(1)));
    assert!(matches!(stage.on_event(StageEvent::Sent), StageAction::Deliver(2)));
    assert!(matches!(stage.on_event(StageEvent::Sent), StageAction::Receive));
    assert!(matches!(
        stage.on_event(StageEvent::InputClosed),
        StageAction::Finish(Ok(()))
    ));
}

#[test]
fn parse_i32_follows_std() {
    for s in ["0", "-0", "+0", "007", "-2147483648", "2147483647", "-2147483649", "", "-", "+", " 1", "1_0", "٣"] {
        assert_eq!(parse_i32(s), s.parse::<i32>().ok(), "input {s:?}");
    }
}

#[test]
fn trim_follows_std() {
    for s in ["", "  ", " a ", "\u{85}x\u{200a}", "\u{200b}y\u{200b}", "a b", "\t\r\n7\u{feff}"] {
        assert_eq!(trim(s), s.trim(), "input {s:?}");
    }
}

#[test]
fn list_text_matches_debug() {
    for v in [vec![], vec![5], vec![-1, 0, 1], vec![i32::MIN, i32::MAX]] {
        assert_eq!(list_to_text(&v), format!("{v:?}"));
    }
}
