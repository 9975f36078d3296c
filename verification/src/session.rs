//! The course of one test: the steps that the analyser takes, in order.

use crate::broker::{ConnectOptions, REQUEST_CAPACITY};
use crate::matrix::TestCase;
use crate::number;
use crate::qos;
use crate::qos::{to_qos, QoS, SIGNAL_QOS};
use crate::receiver::SUBSCRIPTIONS;
use crate::timing;
use crate::timing::{initial_capacity, GRACE_PERIOD_SECS, TEST_DURATION_SECS};
use crate::topics;
use crate::topics::{config_payload, counter_topic, CONFIG_TOPIC, GO_TOPIC, START, STOP};
use vstd::prelude::*;
use vstd::string::*;

verus! {

/// How long to wait for the confirmation of the subscriptions.
pub const SUBACK_TIMEOUT_MS: u64 = 5_000;

/// How long the publisher is given to honour a stop, and to take in its settings.
pub const SETTLE_MS: u64 = 200;

/// How long the last messages are given after the client has gone.
pub const FLUSH_MS: u64 = 400;

/// The seconds without traffic after which the analyser's connection is probed.
pub const KEEP_ALIVE_SECS: u64 = 60;

/// A step of a test.
#[derive(Debug, PartialEq, Eq)]
pub enum Step {
    /// Subscribe to a topic.
    Subscribe { topic: String, qos: QoS },
    /// Wait until all subscriptions are confirmed, but go on after this time.
    AwaitReady { timeout_ms: u64 },
    /// Publish a payload.
    Publish { topic: String, qos: QoS, retain: bool, payload: String },
    /// Wait.
    Sleep { ms: u64 },
    /// Take the time at which the test starts.
    StartTimer,
    /// Gather batches until this time after the start, or until no more can
    /// come. Room is made for `capacity` messages first.
    Collect { window_secs: u64, capacity: usize },
    /// Gather the batches that are waiting.
    Drain,
    /// Take the time that the test took, and whether the publisher is done.
    StopTimer,
    /// Unsubscribe from a topic.
    Unsubscribe { topic: String },
    /// Give up the client.
    Disconnect,
    /// Stop handling packets.
    StopReceiving,
}

/// A step, with its texts as sequences.
pub enum StepView {
    Subscribe { topic: Seq<char>, qos: QoS },
    AwaitReady { timeout_ms: u64 },
    Publish { topic: Seq<char>, qos: QoS, retain: bool, payload: Seq<char> },
    Sleep { ms: u64 },
    StartTimer,
    Collect { window_secs: u64, capacity: usize },
    Drain,
    StopTimer,
    Unsubscribe { topic: Seq<char> },
    Disconnect,
    StopReceiving,
}

impl View for Step {
    type V = StepView;

    open spec fn view(&self) -> StepView {
        match *self {
            Step::Subscribe { topic, qos } => StepView::Subscribe { topic: topic@, qos },
            Step::AwaitReady { timeout_ms } => StepView::AwaitReady { timeout_ms },
            Step::Publish { topic, qos, retain, payload } => StepView::Publish {
                topic: topic@,
                qos,
                retain,
                payload: payload@,
            },
            Step::Sleep { ms } => StepView::Sleep { ms },
            Step::StartTimer => StepView::StartTimer,
            Step::Collect { window_secs, capacity } => StepView::Collect { window_secs, capacity },
            Step::Drain => StepView::Drain,
            Step::StopTimer => StepView::StopTimer,
            Step::Unsubscribe { topic } => StepView::Unsubscribe { topic: topic@ },
            Step::Disconnect => StepView::Disconnect,
            Step::StopReceiving => StepView::StopReceiving,
        }
    }
}

// ---------------------------------------------------------------------------
// The analyser
// ---------------------------------------------------------------------------

/// The name of the analyser's client in one test.
pub open spec fn client_id_text(c: TestCase) -> Seq<char> {
    "analyser-"@ + topics::triple(c.pub_qos as nat, c.delay_ms as nat, c.msg_size as nat, '-')
        + seq!['-'] + number::decimal(c.sub_qos as nat)
}

/// The name of the analyser's client in one test:
/// `analyser-{pub_qos}-{delay_ms}-{msg_size}-{sub_qos}`.
pub fn client_id(case: &TestCase) -> (r: String)
    ensures
        r@ == client_id_text(*case),
        r@ == "analyser-"@ + number::decimal(case.pub_qos as nat) + seq!['-'] + number::decimal(
            case.delay_ms as nat,
        ) + seq!['-'] + number::decimal(case.msg_size as nat) + seq!['-'] + number::decimal(
            case.sub_qos as nat,
        ),
{
    let mut out = "analyser-".to_owned();
    number::push_decimal(&mut out, case.pub_qos as u128);
    out.append("-");
    number::push_decimal(&mut out, case.delay_ms as u128);
    out.append("-");
    number::push_decimal(&mut out, case.msg_size as u128);
    out.append("-");
    number::push_decimal(&mut out, case.sub_qos as u128);
    proof {
        reveal_strlit("-");
        assert("-"@ =~= seq!['-']);
        assert(out@ =~= client_id_text(*case));
        law_client_id_layout(*case);
    }
    out
}

/// Runs tests against one broker.
#[derive(Debug, PartialEq, Eq)]
pub struct Analyser {
    pub host: String,
    pub port: u16,
}

impl Analyser {
    /// An analyser for the broker at this address.
    pub fn new(host: String, port: u16) -> (r: Self)
        ensures
            r.host == host,
            r.port == port,
    {
        Analyser { host, port }
    }

    /// How to connect for one test. The session is always a clean one, so that
    /// no message that was queued in an earlier run is counted in this one.
    pub fn connect_options(&self, case: &TestCase) -> (r: ConnectOptions)
        ensures
            r.client_id@ == client_id_text(*case),
            r.host@ == self.host@,
            r.port == self.port,
            r.keep_alive_secs == KEEP_ALIVE_SECS,
            r.clean_session,
            r.request_capacity == REQUEST_CAPACITY,
            r.keep_alive_secs == 60,
            r.request_capacity == 65_535,
    {
        ConnectOptions {
            client_id: client_id(case),
            host: self.host.clone(),
            port: self.port,
            keep_alive_secs: KEEP_ALIVE_SECS,
            clean_session: true,
            request_capacity: REQUEST_CAPACITY,
        }
    }
}

// ---------------------------------------------------------------------------
// The plan of a test
// ---------------------------------------------------------------------------

/// The topic of the counter messages of a test.
pub open spec fn topic_of(c: TestCase) -> Seq<char> {
    topics::counter_topic_text(c.pub_qos, c.delay_ms, c.msg_size)
}

/// The publication of a payload the way both programs exchange settings and
/// signals: it arrives at least once and is not retained.
pub open spec fn request(topic: Seq<char>, payload: Seq<char>) -> StepView {
    StepView::Publish { topic, qos: SIGNAL_QOS, retain: false, payload }
}

/// The steps of a test.
pub open spec fn plan(c: TestCase, capacity: usize) -> Seq<StepView> {
    seq![
        StepView::Subscribe { topic: topic_of(c), qos: qos::qos_of(c.sub_qos) },
        StepView::Subscribe { topic: GO_TOPIC@, qos: qos::qos_of(c.sub_qos) },
        StepView::AwaitReady { timeout_ms: SUBACK_TIMEOUT_MS },
        request(GO_TOPIC@, STOP@),
        StepView::Sleep { ms: SETTLE_MS },
        request(CONFIG_TOPIC@, topics::config_text(c.pub_qos, c.delay_ms, c.msg_size)),
        StepView::Sleep { ms: SETTLE_MS },
        StepView::StartTimer,
        request(GO_TOPIC@, START@),
        StepView::Collect {
            window_secs: (TEST_DURATION_SECS + GRACE_PERIOD_SECS) as u64,
            capacity,
        },
        StepView::Drain,
        StepView::StopTimer,
        StepView::Unsubscribe { topic: topic_of(c) },
        StepView::Unsubscribe { topic: GO_TOPIC@ },
        StepView::Disconnect,
        StepView::Sleep { ms: FLUSH_MS },
        StepView::Drain,
        StepView::StopReceiving,
    ]
}

/// The steps with their texts as sequences.
pub open spec fn step_views(steps: Seq<Step>) -> Seq<StepView> {
    steps.map_values(|s: Step| s@)
}

/// Publish a payload the way both programs exchange settings and signals.
pub fn publish(topic: &str, payload: String) -> (r: Step)
    ensures
        r@ == request(topic@, payload@),
        r matches Step::Publish { topic: t, qos, retain, payload: p } && t@ == topic@ && qos
            == QoS::AtLeastOnce && !retain && p@ == payload@,
{
    Step::Publish { topic: topic.to_owned(), qos: SIGNAL_QOS, retain: false, payload }
}

/// The steps of a test. The settings are sent in one message on one topic, so
/// that a publisher that listens to this topic has all of them or none.
pub fn test_plan(case: &TestCase) -> (r: Vec<Step>)
    ensures
        exists|capacity: usize| #[trigger]
            timing::is_initial_capacity(case.delay_ms, capacity as int) && step_views(r@) == plan(
                *case,
                capacity,
            ),
        r@.len() == 18,
        r@[0] matches Step::Subscribe { topic, .. } && topic@ == topics::counter_topic_text(
            case.pub_qos,
            case.delay_ms,
            case.msg_size,
        ),
        r@[1] matches Step::Subscribe { topic, .. } && topic@ == "request/go"@,
        r@[2] == (Step::AwaitReady { timeout_ms: 5_000 }),
        r@[3] matches Step::Publish { topic, payload, .. } && topic@ == "request/go"@ && payload@
            == "stop"@,
        r@[4] == (Step::Sleep { ms: 200 }),
        r@[5] matches Step::Publish { topic, payload, .. } && topic@ == "request/config"@
            && payload@ == topics::config_text(case.pub_qos, case.delay_ms, case.msg_size),
        r@[6] == (Step::Sleep { ms: 200 }),
        r@[7] == Step::StartTimer,
        r@[8] matches Step::Publish { topic, payload, .. } && topic@ == "request/go"@ && payload@
            == "start"@,
        r@[9] matches Step::Collect { window_secs, capacity } && window_secs == 40
            && timing::is_initial_capacity(case.delay_ms, capacity as int),
        r@[10] == Step::Drain,
        r@[11] == Step::StopTimer,
        r@[12] matches Step::Unsubscribe { topic } && topic@ == topics::counter_topic_text(
            case.pub_qos,
            case.delay_ms,
            case.msg_size,
        ),
        r@[13] matches Step::Unsubscribe { topic } && topic@ == "request/go"@,
        r@[14] == Step::Disconnect,
        r@[15] == (Step::Sleep { ms: 400 }),
        r@[16] == Step::Drain,
        r@[17] == Step::StopReceiving,
        r@[0]->Subscribe_qos == qos::qos_of(case.sub_qos),
        r@[1]->Subscribe_qos == qos::qos_of(case.sub_qos),
        forall|i: int|
            0 <= i < r@.len() && (#[trigger] r@[i]) is Publish ==> r@[i]->Publish_qos
                == QoS::AtLeastOnce && !r@[i]->retain,
{
    let sub_qos = to_qos(case.sub_qos);
    let capacity: usize = initial_capacity(case.delay_ms);
    let mut steps: Vec<Step> = Vec::new();
    steps.push(
        Step::Subscribe {
            topic: counter_topic(case.pub_qos, case.delay_ms, case.msg_size),
            qos: sub_qos,
        },
    );
    steps.push(Step::Subscribe { topic: GO_TOPIC.to_owned(), qos: sub_qos });
    steps.push(Step::AwaitReady { timeout_ms: SUBACK_TIMEOUT_MS });
    steps.push(publish(GO_TOPIC, STOP.to_owned()));
    steps.push(Step::Sleep { ms: SETTLE_MS });
    steps.push(
        publish(CONFIG_TOPIC, config_payload(case.pub_qos, case.delay_ms, case.msg_size)),
    );
    steps.push(Step::Sleep { ms: SETTLE_MS });
    steps.push(Step::StartTimer);
    steps.push(publish(GO_TOPIC, START.to_owned()));
    steps.push(
        Step::Collect { window_secs: TEST_DURATION_SECS + GRACE_PERIOD_SECS, capacity },
    );
    steps.push(Step::Drain);
    steps.push(Step::StopTimer);
    steps.push(
        Step::Unsubscribe { topic: counter_topic(case.pub_qos, case.delay_ms, case.msg_size) },
    );
    steps.push(Step::Unsubscribe { topic: GO_TOPIC.to_owned() });
    steps.push(Step::Disconnect);
    steps.push(Step::Sleep { ms: FLUSH_MS });
    steps.push(Step::Drain);
    steps.push(Step::StopReceiving);
    assert(step_views(steps@) =~= plan(*case, capacity));
    steps
}

// ---------------------------------------------------------------------------
// Laws
// ---------------------------------------------------------------------------

/// The analyser subscribes first, as often as a receiver waits for a
/// confirmation, then waits for the confirmations, and publishes nothing
/// before that.
pub proof fn law_subscribed_before_publishing(c: TestCase, capacity: usize)
    ensures
        forall|i: int|
            0 <= i < plan(c, capacity).len() ==> ((#[trigger] plan(c, capacity)[i]) is Subscribe
                <==> i < SUBSCRIPTIONS),
        exists|k: int|
            0 <= k < plan(c, capacity).len() && (#[trigger] plan(c, capacity)[k]) is AwaitReady,
        forall|i: int, k: int|
            0 <= i < plan(c, capacity).len() && 0 <= k < plan(c, capacity).len() && (
            #[trigger] plan(c, capacity)[k]) is AwaitReady ==> {
                &&& (#[trigger] plan(c, capacity)[i]) is Subscribe ==> i < k
                &&& plan(c, capacity)[i] is Publish ==> k < i
            },
{
    assert(plan(c, capacity)[2] is AwaitReady);
}

/// The stop signal is sent before the settings, and the settings are sent
/// before the start signal, with a pause after each.
pub proof fn law_settings_before_start(
    c: TestCase,
    capacity: usize,
    stop: int,
    config: int,
    start: int,
)
    requires
        0 <= stop < plan(c, capacity).len(),
        0 <= config < plan(c, capacity).len(),
        0 <= start < plan(c, capacity).len(),
        plan(c, capacity)[stop] == request(GO_TOPIC@, STOP@),
        plan(c, capacity)[config] == request(
            CONFIG_TOPIC@,
            topics::config_text(c.pub_qos, c.delay_ms, c.msg_size),
        ),
        plan(c, capacity)[start] == request(GO_TOPIC@, START@),
    ensures
        stop < config < start,
        exists|k: int|
            stop < k < config && #[trigger] plan(c, capacity)[k] == (StepView::Sleep {
                ms: SETTLE_MS,
            }),
        exists|k: int|
            config < k < start && #[trigger] plan(c, capacity)[k] == (StepView::Sleep {
                ms: SETTLE_MS,
            }),
{
    reveal_strlit("request/go");
    reveal_strlit("request/config");
    reveal_strlit("start");
    reveal_strlit("stop");
    assert(GO_TOPIC@.len() != CONFIG_TOPIC@.len());
    assert(START@.len() != STOP@.len());
    let p = plan(c, capacity);
    assert(p[4] == (StepView::Sleep { ms: SETTLE_MS }));
    assert(p[6] == (StepView::Sleep { ms: SETTLE_MS }));
}

/// Every subscription is given up in the end.
pub proof fn law_subscriptions_given_up(c: TestCase, capacity: usize, i: int)
    requires
        0 <= i < plan(c, capacity).len(),
        plan(c, capacity)[i] is Subscribe,
    ensures
        exists|j: int|
            i < j < plan(c, capacity).len() && #[trigger] plan(c, capacity)[j]
                == (StepView::Unsubscribe { topic: plan(c, capacity)[i]->Subscribe_topic }),
{
    let p = plan(c, capacity);
    assert(p[12] == (StepView::Unsubscribe { topic: topic_of(c) }));
    assert(p[13] == (StepView::Unsubscribe { topic: GO_TOPIC@ }));
}

/// Whatever is still waiting when messages stop being handled is gathered.
pub proof fn law_drained_before_receiving_stops(c: TestCase, capacity: usize, i: int)
    requires
        0 <= i < plan(c, capacity).len(),
        plan(c, capacity)[i] is StopReceiving,
    ensures
        0 < i,
        plan(c, capacity)[i - 1] is Drain,
{
}

/// Different tests connect under different names.
pub proof fn law_client_id_injective(a: TestCase, b: TestCase)
    requires
        client_id_text(a) == client_id_text(b),
    ensures
        a == b,
{
    let n = "analyser-"@.len() as int;
    let tail_a = topics::triple(
        a.delay_ms as nat,
        a.msg_size as nat,
        a.sub_qos as nat,
        '-',
    );
    let tail_b = topics::triple(
        b.delay_ms as nat,
        b.msg_size as nat,
        b.sub_qos as nat,
        '-',
    );
    let whole_a = number::decimal(a.pub_qos as nat) + seq!['-'] + tail_a;
    let whole_b = number::decimal(b.pub_qos as nat) + seq!['-'] + tail_b;
    assert(client_id_text(a).skip(n) =~= whole_a);
    assert(client_id_text(b).skip(n) =~= whole_b);
    topics::lemma_head_number(a.pub_qos as nat, '-', tail_a);
    topics::lemma_head_number(b.pub_qos as nat, '-', tail_b);
    number::law_decimal_injective(a.pub_qos as nat, b.pub_qos as nat);
    topics::lemma_triple_injective(
        a.delay_ms as nat,
        a.msg_size as nat,
        a.sub_qos as nat,
        b.delay_ms as nat,
        b.msg_size as nat,
        b.sub_qos as nat,
        '-',
    );
}

/// The name of a test's client is made of its four settings, with hyphens
/// between them.
pub proof fn law_client_id_layout(c: TestCase)
    ensures
        client_id_text(c) == "analyser-"@ + number::decimal(c.pub_qos as nat) + seq!['-']
            + number::decimal(c.delay_ms as nat) + seq!['-'] + number::decimal(c.msg_size as nat)
            + seq!['-'] + number::decimal(c.sub_qos as nat),
{
    assert(client_id_text(c) =~= "analyser-"@ + number::decimal(c.pub_qos as nat) + seq!['-']
        + number::decimal(c.delay_ms as nat) + seq!['-'] + number::decimal(c.msg_size as nat)
        + seq!['-'] + number::decimal(c.sub_qos as nat));
}

/// A view of steps shows each step at its place, with all that it holds.
pub proof fn law_step_views_faithful(steps: Seq<Step>, i: int)
    requires
        0 <= i < steps.len(),
    ensures
        step_views(steps).len() == steps.len(),
        match step_views(steps)[i] {
            StepView::Subscribe { topic, qos } => steps[i] matches Step::Subscribe {
                topic: t,
                qos: q,
            } && t@ == topic && q == qos,
            StepView::AwaitReady { timeout_ms } => steps[i] == Step::AwaitReady { timeout_ms },
            StepView::Publish { topic, qos, retain, payload } => steps[i] matches Step::Publish {
                topic: t,
                qos: q,
                retain: kept,
                payload: p,
            } && t@ == topic && q == qos && kept == retain && p@ == payload,
            StepView::Sleep { ms } => steps[i] == Step::Sleep { ms },
            StepView::StartTimer => steps[i] == Step::StartTimer,
            StepView::Collect { window_secs, capacity } => steps[i] == Step::Collect {
                window_secs,
                capacity,
            },
            StepView::Drain => steps[i] == Step::Drain,
            StepView::StopTimer => steps[i] == Step::StopTimer,
            StepView::Unsubscribe { topic } => steps[i] matches Step::Unsubscribe { topic: t } && t@
                == topic,
            StepView::Disconnect => steps[i] == Step::Disconnect,
            StepView::StopReceiving => steps[i] == Step::StopReceiving,
        },
{
}

/// Both topics are subscribed to with the quality of service that the test
/// names for the subscriber, and everything is published so that it arrives at
/// least once and is not retained.
pub proof fn law_plan_qualities(c: TestCase, capacity: usize, i: int)
    requires
        0 <= i < plan(c, capacity).len(),
    ensures
        plan(c, capacity)[i] matches StepView::Subscribe { qos, .. } ==> {
            &&& qos == QoS::AtLeastOnce <==> c.sub_qos == 1
            &&& qos == QoS::ExactlyOnce <==> c.sub_qos == 2
        },
        plan(c, capacity)[i] matches StepView::Publish { qos, retain, .. } ==> qos
            == QoS::AtLeastOnce && !retain,
{
}

/// Messages are gathered for as long as the burst and the grace period behind
/// it last, and room is made for as many as was asked for.
pub proof fn law_plan_window(c: TestCase, capacity: usize, i: int)
    requires
        0 <= i < plan(c, capacity).len(),
        plan(c, capacity)[i] is Collect,
    ensures
        plan(c, capacity)[i] == (StepView::Collect { window_secs: 40, capacity }),
{
}

} // verus!
