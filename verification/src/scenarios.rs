//! The logic of the canned scenarios behind the command line: the fan-out
//! drill, the squaring of input lines, and the pieces of the demo report.

use vstd::prelude::*;
use vstd::string::*;

use crate::bus::{round_up_pow2, slots_for, with_name, EventBus, Subscription, TopicView, TryRecvFailure};
use crate::error::{no_receivers_reason, PipelineError, PublishError, RecvError};
use crate::text::{
    all_digits, digits_value, is_digit, lemma_digits_value_nonneg, lemma_parse_int_text, lemma_trim_idempotent,
    lemma_trim_of_untrimmed, int_text, list_text, list_to_text, nat_text, parse_i32, parse_i32_spec, push_i64, push_u64,
    trim, trim_spec,
};

verus! {

/// An I/O failure (`std::io::Error`), carried as is.
#[verifier::external_type_specification]
#[verifier::external_body]
pub struct ExIoError(std::io::Error);

/// Errors surfaced by the canned scenarios and their I/O.
#[derive(Debug)]
pub enum ScenarioError {
    /// Publish failed (typically no subscribers yet).
    Publish(PublishError),
    /// A pipeline stage failed (channel closed or join error).
    Pipeline(PipelineError),
    /// A broadcast receive failed.
    Recv(RecvError),
    /// Reading the input failed.
    Io(std::io::Error),
    /// A line could not be parsed as an `i32`.
    BadInteger(String),
    /// Subscriber / message counts are inconsistent with the harness.
    Invariant {
        /// Expected deliveries across all subscriber drains.
        expected: usize,
        /// Observed deliveries.
        actual: usize,
    },
}

/// A failed publish.
impl From<PublishError> for ScenarioError {
    fn from(v: PublishError) -> (r: Self) {
        ScenarioError::Publish(v)
    }
}

impl vstd::std_specs::convert::FromSpecImpl<PublishError> for ScenarioError {
    open spec fn obeys_from_spec() -> bool {
        true
    }

    open spec fn from_spec(v: PublishError) -> Self {
        ScenarioError::Publish(v)
    }
}

/// A failed pipeline stage.
impl From<PipelineError> for ScenarioError {
    fn from(v: PipelineError) -> (r: Self) {
        ScenarioError::Pipeline(v)
    }
}

impl vstd::std_specs::convert::FromSpecImpl<PipelineError> for ScenarioError {
    open spec fn obeys_from_spec() -> bool {
        true
    }

    open spec fn from_spec(v: PipelineError) -> Self {
        ScenarioError::Pipeline(v)
    }
}

/// A failed broadcast receive.
impl From<RecvError> for ScenarioError {
    fn from(v: RecvError) -> (r: Self) {
        ScenarioError::Recv(v)
    }
}

impl vstd::std_specs::convert::FromSpecImpl<RecvError> for ScenarioError {
    open spec fn obeys_from_spec() -> bool {
        true
    }

    open spec fn from_spec(v: RecvError) -> Self {
        ScenarioError::Recv(v)
    }
}

/// A failed read of the input.
impl From<std::io::Error> for ScenarioError {
    fn from(v: std::io::Error) -> (r: Self) {
        ScenarioError::Io(v)
    }
}

impl vstd::std_specs::convert::FromSpecImpl<std::io::Error> for ScenarioError {
    open spec fn obeys_from_spec() -> bool {
        true
    }

    open spec fn from_spec(v: std::io::Error) -> Self {
        ScenarioError::Io(v)
    }
}

/// A failed join of a stage task.
impl From<tokio::task::JoinError> for ScenarioError {
    fn from(v: tokio::task::JoinError) -> (r: Self) {
        ScenarioError::Pipeline(PipelineError::TaskJoin(v))
    }
}

impl vstd::std_specs::convert::FromSpecImpl<tokio::task::JoinError> for ScenarioError {
    open spec fn obeys_from_spec() -> bool {
        true
    }

    open spec fn from_spec(v: tokio::task::JoinError) -> Self {
        ScenarioError::Pipeline(PipelineError::TaskJoin(v))
    }
}

/// `v * v`, or `i32::MAX` where the square does not fit (`i32::saturating_mul`).
pub open spec fn saturating_square(v: i32) -> i32 {
    if v * v > i32::MAX {
        i32::MAX
    } else {
        (v * v) as i32
    }
}

/// What `square_token` returns for `line`: the saturated square of the
/// trimmed token, or `BadInteger` with the trimmed token (empty for a blank
/// line) when it is not an `i32`.
pub open spec fn square_token_spec(line: Seq<char>, r: Result<i32, ScenarioError>) -> bool {
    let t = trim_spec(line);
    match parse_i32_spec(t) {
        Some(v) => r == Ok::<i32, ScenarioError>(saturating_square(v)),
        None => r matches Err(ScenarioError::BadInteger(s)) && s@ == t,
    }
}

/// Surrounding whitespace is absorbed: a line and its trim give the same result.
pub proof fn lemma_square_token_ignores_whitespace(line: Seq<char>, r: Result<i32, ScenarioError>)
    ensures
        square_token_spec(line, r) == square_token_spec(trim_spec(line), r),
{
    lemma_trim_idempotent(line);
}

/// The sign does not matter: `-d` squares to what `d` does, for decimal
/// digits `d` within `i32`.
pub proof fn lemma_square_token_ignores_sign(d: Seq<char>, r: Result<i32, ScenarioError>)
    requires
        d.len() > 0,
        all_digits(d),
        digits_value(d) <= i32::MAX,
    ensures
        square_token_spec(seq!['-'] + d, r) == square_token_spec(d, r),
{
    let m = seq!['-'] + d;
    assert(is_digit(d[0]) && is_digit(d.last()));
    lemma_trim_of_untrimmed(d);
    assert(m[0] == '-' && m.last() == d.last());
    lemma_trim_of_untrimmed(m);
    assert(m.drop_first() =~= d);
    lemma_digits_value_nonneg(d);
    let v = digits_value(d);
    assert(parse_i32_spec(d) == Some(v as i32));
    assert(parse_i32_spec(m) == Some((-v) as i32));
    assert((-v) * (-v) == v * v) by (nonlinear_arith);
}

/// The square grows with the absolute value, and is never negative.
pub proof fn lemma_square_token_monotone(
    a: Seq<char>,
    b: Seq<char>,
    ra: Result<i32, ScenarioError>,
    rb: Result<i32, ScenarioError>,
    x: i32,
    y: i32,
)
    requires
        square_token_spec(a, ra),
        square_token_spec(b, rb),
        parse_i32_spec(trim_spec(a)) == Some(x),
        parse_i32_spec(trim_spec(b)) == Some(y),
        (if x < 0 { -x } else { x as int }) <= (if y < 0 { -y } else { y as int }),
    ensures
        ra matches Ok(u) && rb matches Ok(w) && 0 <= u <= w,
{
    let ax: int = if x < 0 { -x } else { x as int };
    let ay: int = if y < 0 { -y } else { y as int };
    assert(x * x == ax * ax && y * y == ay * ay) by (nonlinear_arith)
        requires
            ax == (if x < 0 { -x } else { x as int }),
            ay == (if y < 0 { -y } else { y as int }),
    ;
    assert(0 <= ax * ax <= ay * ay) by (nonlinear_arith)
        requires
            0 <= ax <= ay,
    ;
}

/// The value of a square: a line holding the `i32` `v` squares to `v * v`
/// when that fits in an `i32`, and to `i32::MAX` when it does not.
pub proof fn lemma_square_token_value(line: Seq<char>, r: Result<i32, ScenarioError>, v: i32)
    requires
        square_token_spec(line, r),
        parse_i32_spec(trim_spec(line)) == Some(v),
    ensures
        v * v <= i32::MAX ==> (r matches Ok(s) && s == v * v),
        v * v > i32::MAX ==> r == Ok::<i32, ScenarioError>(i32::MAX),
{
    assert(v * v >= 0) by (nonlinear_arith);
}

/// The squaring filter on the decimal text of any `i32` `v` (as a line on its
/// input holds it) answers `v * v`, saturated at `i32::MAX`.
pub proof fn lemma_square_token_of_decimal(v: i32, r: Result<i32, ScenarioError>)
    requires
        square_token_spec(int_text(v as int), r),
    ensures
        v * v <= i32::MAX ==> (r matches Ok(s) && s == v * v),
        v * v > i32::MAX ==> r == Ok::<i32, ScenarioError>(i32::MAX),
{
    lemma_parse_int_text(v);
    lemma_square_token_value(int_text(v as int), r, v);
}

/// Squares a numeric token after trimming whitespace.
///
/// # Errors
///
/// `BadInteger` with the trimmed token when it is empty or not an `i32`.
pub fn square_token(line: &str) -> (r: Result<i32, ScenarioError>)
    ensures
        square_token_spec(line@, r),
{
    let t = trim(line);
    if t.unicode_len() == 0 {
        assert(t@ =~= Seq::<char>::empty());
        return Err(ScenarioError::BadInteger(String::new()));
    }
    match parse_i32(t) {
        None => Err(ScenarioError::BadInteger(String::from_str(t))),
        Some(v) => {
            assert(v * v >= 0) by (nonlinear_arith);
            match v.checked_mul(v) {
                Some(sq) => Ok(sq),
                None => Ok(i32::MAX),
            }
        },
    }
}

/// One line of the squaring filter: `None` for a blank line (skipped),
/// otherwise what [`square_token`] gives for it.
pub fn square_line(line: &str) -> (r: Result<Option<i32>, ScenarioError>)
    ensures
        trim_spec(line@).len() == 0 ==> r matches Ok(None),
        trim_spec(line@).len() > 0 ==> match r {
            Ok(Some(v)) => square_token_spec(line@, Ok(v)),
            Ok(None) => false,
            Err(e) => square_token_spec(line@, Err(e)),
        },
{
    let t = trim(line);
    if t.unicode_len() == 0 {
        return Ok(None);
    }
    match square_token(line) {
        Ok(v) => Ok(Some(v)),
        Err(e) => Err(e),
    }
}

/// The report of a fan-out drill on `topic`.
pub open spec fn fanout_text(topic: Seq<char>, subscribers: nat, count: nat, checksum: nat) -> Seq<
    char,
> {
    "fanout topic="@ + topic + " subscribers="@ + nat_text(subscribers) + " publishes="@
        + nat_text(count) + " checksum="@ + nat_text(checksum) + "\n"@
}

/// The report of a fan-out drill without subscribers.
pub open spec fn no_subscribers_text() -> Seq<char> {
    "subscribers=0: nothing to drain.\n"@
}

/// The deliveries a fan-out drill expects: one per subscriber and publish,
/// saturated at `usize::MAX`.
pub open spec fn expected_deliveries(subscribers: usize, count: u32) -> usize {
    if subscribers * count > usize::MAX {
        usize::MAX
    } else {
        (subscribers * count) as usize
    }
}

/// The end of a fan-out drill: the report when the deliveries match the
/// expectation, else the `Invariant` error.
pub fn fanout_outcome(
    topic: &str,
    subscribers: usize,
    count: u32,
    expected: usize,
    actual: usize,
    checksum: u64,
) -> (r: Result<String, ScenarioError>)
    ensures
        actual != expected ==> (r matches Err(ScenarioError::Invariant { expected: e, actual: a })
            && e == expected && a == actual),
        actual == expected ==> (r matches Ok(s) && s@ == fanout_text(
            topic@,
            subscribers as nat,
            count as nat,
            checksum as nat,
        )),
{
    if actual != expected {
        return Err(ScenarioError::Invariant { expected, actual });
    }
    let mut out = String::new();
    out.append("fanout topic=");
    out.append(topic);
    out.append(" subscribers=");
    push_u64(&mut out, subscribers as u64);
    out.append(" publishes=");
    push_u64(&mut out, count as u64);
    out.append(" checksum=");
    push_u64(&mut out, checksum);
    out.append("\n");
    Ok(out)
}

/// `0 + 1 + ... + (n - 1)`.
pub open spec fn triangle(n: nat) -> nat
    decreases n,
{
    if n == 0 {
        0
    } else {
        triangle((n - 1) as nat) + (n - 1) as nat
    }
}

/// The closed form of [`triangle`].
pub proof fn lemma_triangle_closed_form(n: nat)
    ensures
        2 * triangle(n) == n * (n - 1),
    decreases n,
{
    if n > 0 {
        let m = (n - 1) as nat;
        lemma_triangle_closed_form(m);
        assert(triangle(n) == triangle(m) + m);
        assert(n * (n - 1) == m * (m - 1) + 2 * m) by (nonlinear_arith)
            requires
                m == n - 1,
        ;
        assert(2 * triangle(n) == 2 * triangle(m) + 2 * m);
    } else {
        assert(n * (n - 1) == 0) by (nonlinear_arith)
            requires
                n == 0,
        ;
    }
}

/// The checksum of a fan-out drill: every subscriber receives every one of
/// the publishes `0..count`, summed with wrapping `u64` addition.
pub open spec fn fanout_checksum(subscribers: nat, count: nat) -> nat {
    (subscribers * triangle(count)) % 0x1_0000_0000_0000_0000
}

/// The fan-out checksum is the wrapping `u64` sum of everything every
/// subscriber received: `subscribers` times `0 + 1 + ... + (count - 1)`,
/// that is `subscribers * count * (count - 1) / 2`, modulo 2^64.
pub proof fn lemma_fanout_checksum_closed_form(subscribers: nat, count: nat)
    ensures
        fanout_checksum(subscribers, count) == (subscribers * (count * (count - 1) / 2))
            % 0x1_0000_0000_0000_0000,
{
    lemma_triangle_closed_form(count);
    assert(triangle(count) == count * (count - 1) / 2);
}

proof fn lemma_wrapping_sum(a: int, c: u64, v: u64)
    requires
        a >= 0,
        c == a % 0x1_0000_0000_0000_0000,
    ensures
        c.wrapping_add(v) == (a + v) % 0x1_0000_0000_0000_0000,
{
    let m: int = 0x1_0000_0000_0000_0000;
    vstd::arithmetic::div_mod::lemma_add_mod_noop(a, v as int, m);
    vstd::arithmetic::div_mod::lemma_small_mod(v as nat, m as nat);
    if c + v < m {
        vstd::arithmetic::div_mod::lemma_small_mod((c + v) as nat, m as nat);
    } else {
        vstd::arithmetic::div_mod::lemma_mod_sub_multiples_vanish(c + v, m);
        vstd::arithmetic::div_mod::lemma_small_mod((c + v - m) as nat, m as nat);
    }
}

proof fn lemma_slots_for_256()
    ensures
        slots_for(64) == 64,
        slots_for(256) == 256,
{
    reveal_with_fuel(round_up_pow2, 10);
}

/// Fan-out drill: `subscribers` subscribers of `topic` each receive every one
/// of `count` publishes (`0..count`), and the report gives the wrapping sum of
/// everything they received. Each publish is drained by every subscriber
/// before the next, so none falls behind the bus's lag buffer.
pub fn run_fanout_report(subscribers: usize, count: u32, topic: &str) -> (r: Result<
    String,
    ScenarioError,
>)
    ensures
        subscribers == 0 ==> (r matches Ok(s) && s@ == no_subscribers_text()),
        subscribers > 0 ==> (r matches Ok(s) && s@ == fanout_text(
            topic@,
            subscribers as nat,
            count as nat,
            fanout_checksum(subscribers as nat, count as nat),
        )),
{
    if subscribers == 0 {
        return Ok(String::from_str("subscribers=0: nothing to drain.\n"));
    }
    let mut bus: EventBus<u32> = EventBus::new(256);
    proof {
        lemma_slots_for_256();
    }
    let mut subs: Vec<Subscription> = Vec::new();
    let mut k: usize = 0;
    while k < subscribers
        invariant
            bus.wf(),
            bus.lag_capacity() == 256,
            slots_for(256) == 256,
            0 < subscribers,
            k <= subscribers,
            subs@.len() == k,
            k == 0 ==> bus@ == Map::<Seq<char>, TopicView<u32>>::empty() && bus.topic_names()
                == Seq::<Seq<char>>::empty(),
            k > 0 ==> bus.topic_names() == seq![topic@],
            k > 0 ==> bus@.contains_key(topic@),
            k > 0 ==> bus@[topic@].log == Seq::<u32>::empty(),
            k > 0 ==> bus@[topic@].cursors =~= Seq::new(k as nat, |j: int| 0int),
            k > 0 ==> bus@[topic@].slots == 256,
            k > 0 ==> bus@[topic@].released == 0,
            forall|j: int|
                0 <= j < k ==> bus.holds(#[trigger] subs@[j]) && bus.subscription_topic(subs@[j])
                    == topic@ && subs@[j].member_index() == j,
        decreases subscribers - k,
    {
        let ghost before = bus;
        let s = bus.subscribe_held(topic);
        proof {
            if k == 0 {
                assert(!before.topic_names().contains(topic@));
                assert(with_name(before.topic_names(), topic@) =~= seq![topic@]);
            } else {
                assert(seq![topic@].contains(topic@)) by {
                    assert(seq![topic@][0] == topic@);
                }
            }
            assert(bus@[topic@].cursors =~= Seq::new((k + 1) as nat, |j: int| 0int));
            assert forall|j: int| 0 <= j < k + 1 implies bus.holds(#[trigger] subs@.push(s)[j])
                && bus.subscription_topic(subs@.push(s)[j]) == topic@ && subs@.push(s)[j].member_index()
                == j by {
                if j < k {
                    assert(subs@.push(s)[j] == subs@[j]);
                    assert(before.holds(subs@[j]));
                }
            }
        }
        subs.push(s);
        k = k + 1;
    }
    let expected: usize = match subscribers.checked_mul(count as usize) {
        Some(n) => n,
        None => usize::MAX,
    };
    let mut actual: usize = 0;
    let mut checksum: u64 = 0;
    let mut i: u32 = 0;
    while i < count
        invariant
            bus.wf(),
            bus.lag_capacity() == 256,
            0 < subscribers,
            subs@.len() == subscribers,
            i <= count,
            bus.topic_names() == seq![topic@],
            bus@.contains_key(topic@),
            bus@[topic@].log =~= Seq::new(i as nat, |j: int| j as u32),
            bus@[topic@].cursors =~= Seq::new(subscribers as nat, |j: int| i as int),
            bus@[topic@].slots == 256,
            bus@[topic@].released == 0,
            forall|j: int|
                0 <= j < subscribers ==> bus.holds(#[trigger] subs@[j]) && bus.subscription_topic(
                    subs@[j],
                ) == topic@ && subs@[j].member_index() == j,
            checksum == fanout_checksum(subscribers as nat, i as nat),
            actual == (if subscribers * i > usize::MAX {
                usize::MAX as int
            } else {
                subscribers * i
            }),
            expected == expected_deliveries(subscribers, count),
        decreases count - i,
    {
        assert(seq![topic@].contains(topic@)) by {
            assert(seq![topic@][0] == topic@);
        }
        let ghost pre = bus;
        match bus.publish(topic, i) {
            Ok(_) => {},
            Err(e) => {
                return Err(ScenarioError::Publish(e));
            },
        }
        assert(bus@[topic@].log =~= Seq::new((i + 1) as nat, |j: int| j as u32)) by {
            assert(pre@[topic@].log.push(i) =~= Seq::new((i + 1) as nat, |j: int| j as u32));
        }
        let mut k: usize = 0;
        while k < subs.len()
            invariant
                bus.wf(),
                bus.lag_capacity() == 256,
                0 < subscribers,
                subs@.len() == subscribers,
                i < count,
                k <= subscribers,
                bus.topic_names() == seq![topic@],
                bus@.contains_key(topic@),
                bus@[topic@].log =~= Seq::new((i + 1) as nat, |j: int| j as u32),
                bus@[topic@].cursors =~= Seq::new(
                    subscribers as nat,
                    |j: int|
                        if j < k {
                            i + 1
                        } else {
                            i as int
                        },
                ),
                bus@[topic@].slots == 256,
                bus@[topic@].released == 0,
                forall|j: int|
                    0 <= j < subscribers ==> bus.holds(#[trigger] subs@[j]) && bus.subscription_topic(
                        subs@[j],
                    ) == topic@ && subs@[j].member_index() == j,
                checksum == (subscribers * triangle(i as nat) + k * i) % 0x1_0000_0000_0000_0000,
                actual == (if subscribers * i + k > usize::MAX {
                    usize::MAX as int
                } else {
                    subscribers * i + k
                }),
                expected == expected_deliveries(subscribers, count),
            decreases subscribers - k,
        {
            let sub = subs[k];
            assert(bus.holds(subs@[k as int]));
            let ghost pre_k = bus;
            match bus.receive(sub) {
                Ok(v) => {
                    assert(pre_k@[topic@].log[i as int] == i);
                    assert(v == i);
                    proof {
                        assert(subscribers * triangle(i as nat) + k * i >= 0) by (nonlinear_arith)
                            requires
                                subscribers >= 0,
                                k >= 0,
                                i >= 0,
                        ;
                        lemma_wrapping_sum(subscribers * triangle(i as nat) + k * i, checksum, v as u64);
                        assert(subscribers * triangle(i as nat) + k * i + i == subscribers * triangle(
                            i as nat,
                        ) + (k + 1) * i) by (nonlinear_arith);
                    }
                    checksum = checksum.wrapping_add(v as u64);
                    actual = actual.saturating_add(1);
                },
                Err(TryRecvFailure::Lagged(n)) => {
                    return Err(ScenarioError::Recv(RecvError::Lagged(n)));
                },
                Err(TryRecvFailure::Closed) => {
                    return Err(ScenarioError::Recv(RecvError::Closed));
                },
                Err(TryRecvFailure::Empty) => {
                    return Err(ScenarioError::Invariant { expected, actual });
                },
            }
            assert(bus@[topic@].cursors =~= Seq::new(
                subscribers as nat,
                |j: int|
                    if j < k + 1 {
                        i + 1
                    } else {
                        i as int
                    },
            ));
            k = k + 1;
        }
        proof {
            assert(triangle((i + 1) as nat) == triangle(i as nat) + i);
            assert(subscribers * triangle(i as nat) + subscribers * i == subscribers * triangle(
                (i + 1) as nat,
            )) by (nonlinear_arith)
                requires
                    triangle((i + 1) as nat) == triangle(i as nat) + i,
            ;
            assert(subscribers * i + subscribers == subscribers * (i + 1)) by (nonlinear_arith);
            assert(bus@[topic@].cursors =~= Seq::new(subscribers as nat, |j: int| (i + 1) as int));
        }
        i = i + 1;
    }
    fanout_outcome(topic, subscribers, count, expected, actual, checksum)
}

/// The broadcast sample of the demo: two subscribers of `metrics` on a bus
/// with a lag buffer of 64, and the first message each receives after `2`
/// and `3` were published.
pub fn demo_broadcast_sample() -> (r: Result<(i32, i32), ScenarioError>)
    ensures
        r == Ok::<(i32, i32), ScenarioError>((2, 2)),
{
    let mut bus: EventBus<i32> = EventBus::new(64);
    proof {
        lemma_slots_for_256();
    }
    let sub_a = bus.subscribe_held("metrics");
    let sub_b = bus.subscribe_held("metrics");
    assert(bus.holds(sub_a));
    let ghost t = "metrics"@;
    assert(bus.topic_names() =~= seq![t]);
    assert(seq![t].contains(t)) by {
        assert(seq![t][0] == t);
    }
    match bus.publish("metrics", 2) {
        Ok(_) => {},
        Err(e) => {
            return Err(ScenarioError::Publish(e));
        },
    }
    match bus.publish("metrics", 3) {
        Ok(_) => {},
        Err(e) => {
            return Err(ScenarioError::Publish(e));
        },
    }
    assert(bus@[t].log =~= seq![2i32, 3i32]);
    let a = match bus.receive(sub_a) {
        Ok(v) => v,
        Err(TryRecvFailure::Lagged(n)) => {
            return Err(ScenarioError::Recv(RecvError::Lagged(n)));
        },
        Err(_) => {
            return Err(ScenarioError::Recv(RecvError::Closed));
        },
    };
    let b = match bus.receive(sub_b) {
        Ok(v) => v,
        Err(TryRecvFailure::Lagged(n)) => {
            return Err(ScenarioError::Recv(RecvError::Lagged(n)));
        },
        Err(_) => {
            return Err(ScenarioError::Recv(RecvError::Closed));
        },
    };
    Ok((a, b))
}

/// Whether `v` is in ascending order.
pub open spec fn sorted(v: Seq<i32>) -> bool {
    forall|i: int, j: int| 0 <= i <= j < v.len() ==> v[i] <= v[j]
}

/// Sorts `v` in ascending order, keeping every value as often as it occurs.
pub fn sort_ascending(v: &mut Vec<i32>)
    ensures
        sorted(final(v)@),
        final(v)@.to_multiset() == old(v)@.to_multiset(),
{
    broadcast use vstd::seq_lib::group_to_multiset_ensures;

    let n = v.len();
    let mut i: usize = 1;
    if n == 0 {
        return;
    }
    while i < n
        invariant
            1 <= i <= n,
            n == v.len(),
            sorted(v@.take(i as int)),
            v@.to_multiset() == old(v)@.to_multiset(),
        decreases n - i,
    {
        let ghost before = v@;
        let x = v.remove(i);
        assert(v@.take(i as int) =~= before.take(i as int));
        let mut j: usize = i;
        while j > 0 && v[j - 1] > x
            invariant
                0 <= j <= i,
                i < n,
                v.len() == n - 1,
                before.len() == n,
                x == before[i as int],
                v@ == before.remove(i as int),
                sorted(v@.take(i as int)),
                forall|k: int| j <= k < i ==> v@[k] > x,
            decreases j,
        {
            j = j - 1;
        }
        v.insert(j, x);
        proof {
            let w = v@;
            assert(w == before.remove(i as int).insert(j as int, x));
            assert forall|a: int, b: int| 0 <= a <= b < i + 1 implies #[trigger] w[a] <= #[trigger] w[b] by {
                let p = before.remove(i as int);
                if a < j && b < j {
                    assert(w[a] == p[a] && w[b] == p[b]);
                } else if a < j && b == j {
                    assert(w[a] == p[a]);
                    if j > 0 {
                        assert(p[j - 1] <= x);
                        assert(p.take(i as int)[a] <= p.take(i as int)[j - 1]);
                    }
                } else if a < j {
                    assert(w[a] == p[a] && w[b] == p[b - 1]);
                    assert(p.take(i as int)[a] <= p.take(i as int)[b - 1]);
                } else if a == j {
                    if b > j {
                        assert(w[b] == p[b - 1]);
                        assert(p[b - 1] > x);
                    }
                } else {
                    assert(w[a] == p[a - 1] && w[b] == p[b - 1]);
                    assert(p.take(i as int)[a - 1] <= p.take(i as int)[b - 1]);
                }
            }
            assert(sorted(w.take(i + 1)));
            let p = before.remove(i as int);
            vstd::seq_lib::to_multiset_remove(before, i as int);
            vstd::seq_lib::to_multiset_insert(p, j as int, x);
            vstd::seq_lib::to_multiset_contains(before, x);
            assert(before.contains(x)) by {
                assert(before[i as int] == x);
            }
            assert(w.to_multiset() =~= before.to_multiset()) by {
                broadcast use vstd::multiset::group_multiset_axioms;

            }
        }
        i = i + 1;
    }
    assert(v@.take(n as int) =~= v@);
}

/// The demo report: the first message each of two subscribers got, the
/// squares that came out of the map pipeline, and the merged fan-in values.
pub open spec fn demo_report_text(a: i32, b: i32, squares: Seq<i32>, merged: Seq<i32>) -> Seq<
    char,
> {
    "broadcast sample (two subscribers, first message): a="@ + int_text(a as int) + " b="@
        + int_text(b as int) + "\n"@ + "pipeline squares: "@ + list_text(squares) + "\n"@
        + "fan-in merged (sorted): "@ + list_text(merged) + "\n"@
}

/// Writes the demo report.
pub fn demo_report(a: i32, b: i32, squares: &Vec<i32>, merged: &Vec<i32>) -> (s: String)
    ensures
        s@ == demo_report_text(a, b, squares@, merged@),
{
    let mut out = String::new();
    out.append("broadcast sample (two subscribers, first message): a=");
    push_i64(&mut out, a as i64);
    out.append(" b=");
    push_i64(&mut out, b as i64);
    out.append("\n");
    out.append("pipeline squares: ");
    let sq = list_to_text(squares);
    out.append(sq.as_str());
    out.append("\n");
    out.append("fan-in merged (sorted): ");
    let mg = list_to_text(merged);
    out.append(mg.as_str());
    out.append("\n");
    out
}

} // verus!
