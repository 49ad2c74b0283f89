use pub_sub_pipeline::error::{PublishError, RecvError};
use pub_sub_pipeline::scenarios::{
    demo_report, fanout_outcome, run_fanout_report, sort_ascending, square_line, square_token,
    ScenarioError,
};

#[test]
fn square_token_parses_and_squares() {
    assert_eq!(square_token(" 7 \n").unwrap(), 49);
}

#[test]
fn square_token_rejects_garbage() {
    let err = square_token("nope").unwrap_err();
    assert!(matches!(err, ScenarioError::BadInteger(_)));
}

#[test]
fn fanout_checksum_matches_closed_form() {
    let report = run_fanout_report(2, 4, "stats").expect("fanout");
    assert!(report.contains("checksum="));
    // sum_{i=0}^{3} i = 6 per subscriber, 2 subscribers => sum of all received = 12
    assert!(report.contains("checksum=12"));
}

#[test]
fn square_token_reports_the_trimmed_token() {
    match square_token("  12ab \t") {
        Err(ScenarioError::BadInteger(t)) => assert_eq!(t, "12ab"),
        other => panic!("unexpected {other:?}"),
    }
    match square_token(" \n") {
        Err(ScenarioError::BadInteger(t)) => assert_eq!(t, ""),
        other => panic!("unexpected {other:?}"),
    }
}

#[test]
fn square_token_handles_signs_and_unicode_whitespace() {
    assert_eq!(square_token("-3").unwrap(), 9);
    assert_eq!(square_token("+4").unwrap(), 16);
    assert_eq!(square_token("\u{3000}\u{a0}5\u{2029}").unwrap(), 25);
    assert!(square_token("-").is_err());
    assert!(square_token("+").is_err());
    assert!(square_token("1 2").is_err());
}

#[test]
fn square_token_saturates() {
    assert_eq!(square_token("46340").unwrap(), 46340 * 46340);
    assert_eq!(square_token("46341").unwrap(), i32::MAX);
    assert_eq!(square_token("-2147483648").unwrap(), i32::MAX);
    assert_eq!(square_token("2147483647").unwrap(), i32::MAX);
    assert!(square_token("2147483648").is_err());
    assert!(square_token("99999999999999999999").is_err());
}

#[test]
fn square_line_skips_blank_lines() {
    assert!(matches!(square_line("   \n"), Ok(None)));
    assert!(matches!(square_line("\n"), Ok(None)));
    assert!(matches!(square_line("6\n"), Ok(Some(36))));
}

#[test]
fn fanout_without_subscribers_has_nothing_to_drain() {
    assert_eq!(
        run_fanout_report(0, 9, "idle").unwrap(),
        "subscribers=0: nothing to drain.\n"
    );
}

#[test]
fn fanout_report_is_exact() {
    assert_eq!(
        run_fanout_report(3, 5, "alerts").unwrap(),
        "fanout topic=alerts subscribers=3 publishes=5 checksum=30\n"
    );
    assert_eq!(
        run_fanout_report(1, 0, "t").unwrap(),
        "fanout topic=t subscribers=1 publishes=0 checksum=0\n"
    );
}

#[test]
fn fanout_delivers_every_publish_past_the_buffer() {
    assert_eq!(
        run_fanout_report(1, 300, "lag").unwrap(),
        "fanout topic=lag subscribers=1 publishes=300 checksum=44850\n"
    );
    assert_eq!(
        run_fanout_report(3, 1000, "big").unwrap(),
        "fanout topic=big subscribers=3 publishes=1000 checksum=1498500\n"
    );
}

#[test]
fn demo_broadcast_sample_gives_first_messages() {
    assert_eq!(
        pub_sub_pipeline::scenarios::demo_broadcast_sample().unwrap(),
        (2, 2)
    );
}

#[test]
fn scenario_error_converts_from_its_parts() {
    let e: ScenarioError = pub_sub_pipeline::error::no_receivers("t").into();
    assert!(matches!(e, ScenarioError::Publish(PublishError::NoReceivers { .. })));
    let e: ScenarioError = RecvError::Lagged(3).into();
    assert!(matches!(e, ScenarioError::Recv(RecvError::Lagged(3))));
    let e: ScenarioError = pub_sub_pipeline::PipelineError::ChannelClosed.into();
    assert!(matches!(
        e,
        ScenarioError::Pipeline(pub_sub_pipeline::PipelineError::ChannelClosed)
    ));
    let e: ScenarioError = std::io::Error::other("boom").into();
    assert!(matches!(e, ScenarioError::Io(_)));
}

#[test]
fn fanout_outcome_flags_missing_deliveries() {
    match fanout_outcome("x", 2, 3, 6, 5, 0) {
        Err(ScenarioError::Invariant { expected, actual }) => {
            assert_eq!(expected, 6);
            assert_eq!(actual, 5);
        }
        other => panic!("unexpected {other:?}"),
    }
    assert_eq!(
        fanout_outcome("x", 2, 3, 6, 6, 18446744073709551615).unwrap(),
        "fanout topic=x subscribers=2 publishes=3 checksum=18446744073709551615\n"
    );
}

#[test]
fn sort_ascending_orders_and_keeps_duplicates() {
    let mut v = vec![20, 10, -5, 10, i32::MIN, i32::MAX, 0];
    sort_ascending(&mut v);
    assert_eq!(v, vec![i32::MIN, -5, 0, 10, 10, 20, i32::MAX]);
    let mut e: Vec<i32> = vec![];
    sort_ascending(&mut e);
    assert!(e.is_empty());
}

#[test]
fn demo_report_text_is_exact() {
    let report = demo_report(2, 2, &vec![16, 25], &vec![10, 20]);
    assert_eq!(
        report,
        "broadcast sample (two subscribers, first message): a=2 b=2\n\
         pipeline squares: [16, 25]\n\
         fan-in merged (sorted): [10, 20]\n"
    );
    assert_eq!(
        demo_report(-7, 0, &vec![], &vec![-2147483648]),
        "broadcast sample (two subscribers, first message): a=-7 b=0\n\
         pipeline squares: []\n\
         fan-in merged (sorted): [-2147483648]\n"
    );
}

#[test]
fn publish_error_carries_topic_and_reason() {
    let e = pub_sub_pipeline::error::no_receivers("orders");
    match e {
        PublishError::NoReceivers { topic, reason } => {
            assert_eq!(topic, "orders");
            assert_eq!(reason, "no active broadcast receivers for this topic");
        }
    }
}
