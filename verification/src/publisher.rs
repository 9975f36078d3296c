//! The publisher: it takes in its settings, and sends a burst of counter
//! messages when it is told to start.

use crate::broker::{ConnectOptions, DEFAULT_HOST, DEFAULT_PORT, REQUEST_CAPACITY};
use crate::clock::{now_us, ClockBeforeEpoch};
use crate::matrix::TestCase;
use crate::message;
use crate::message::{counter_payload, Message};
use crate::number;
use crate::qos;
use crate::qos::{to_qos, QoS, SIGNAL_QOS};
use crate::receiver;
use crate::session;
use crate::session::{publish, Step, StepView};
use crate::text;
use crate::timing;
use crate::topics;
use crate::topics::{
    counter_topic, CONFIG_TOPIC, DELAY_TOPIC, DONE, GO_TOPIC, QOS_TOPIC, SIZE_TOPIC, START,
};
use vstd::prelude::*;
use vstd::string::*;
use vstd::utf8::*;

verus! {

/// The name of the publisher's client.
pub const PUBLISHER_ID: &'static str = "rust-publisher";

/// The seconds without traffic after which the publisher's connection is probed.
pub const PUBLISHER_KEEP_ALIVE_SECS: u64 = 30;

/// The length of a burst, in microseconds.
pub const BURST_US: u128 = 30_000_000;

/// Messages of a burst are not retained.
pub const BURST_RETAIN: bool = false;

/// The pause before the connection is tried again after a failure, in seconds.
pub const RETRY_SECS: u64 = 1;

/// The byte that pads a message: an ASCII `x`.
pub const PADDING: u8 = 0x78;

/// How the publisher connects: to the local broker.
pub fn publisher_connect_options() -> (r: ConnectOptions)
    ensures
        r.client_id@ == PUBLISHER_ID@,
        r.host@ == DEFAULT_HOST@,
        r.port == DEFAULT_PORT,
        r.keep_alive_secs == PUBLISHER_KEEP_ALIVE_SECS,
        !r.clean_session,
        r.request_capacity == REQUEST_CAPACITY,
        r.client_id@ == "rust-publisher"@,
        r.host@ == "localhost"@,
        r.port == 1883,
        r.keep_alive_secs == 30,
        r.request_capacity == 65_535,
{
    ConnectOptions {
        client_id: PUBLISHER_ID.to_owned(),
        host: DEFAULT_HOST.to_owned(),
        port: DEFAULT_PORT,
        keep_alive_secs: PUBLISHER_KEEP_ALIVE_SECS,
        clean_session: false,
        request_capacity: REQUEST_CAPACITY,
    }
}

/// The topics that the publisher subscribes to, in order.
pub open spec fn publisher_topic_texts() -> Seq<Seq<char>> {
    seq![QOS_TOPIC@, DELAY_TOPIC@, SIZE_TOPIC@, GO_TOPIC@]
}

/// The subscriptions that the publisher starts with, in order.
pub fn publisher_subscriptions() -> (r: Vec<Step>)
    ensures
        session::step_views(r@) == publisher_topic_texts().map_values(
            |topic: Seq<char>| StepView::Subscribe { topic, qos: SIGNAL_QOS },
        ),
        r@.len() == 4,
        r@[0] matches Step::Subscribe { topic, qos } && topic@ == "request/qos"@ && qos
            == QoS::AtLeastOnce,
        r@[1] matches Step::Subscribe { topic, qos } && topic@ == "request/delay"@ && qos
            == QoS::AtLeastOnce,
        r@[2] matches Step::Subscribe { topic, qos } && topic@ == "request/messagesize"@ && qos
            == QoS::AtLeastOnce,
        r@[3] matches Step::Subscribe { topic, qos } && topic@ == "request/go"@ && qos
            == QoS::AtLeastOnce,
{
    let mut out: Vec<Step> = Vec::new();
    out.push(Step::Subscribe { topic: QOS_TOPIC.to_owned(), qos: SIGNAL_QOS });
    out.push(Step::Subscribe { topic: DELAY_TOPIC.to_owned(), qos: SIGNAL_QOS });
    out.push(Step::Subscribe { topic: SIZE_TOPIC.to_owned(), qos: SIGNAL_QOS });
    out.push(Step::Subscribe { topic: GO_TOPIC.to_owned(), qos: SIGNAL_QOS });
    assert(session::step_views(out@) =~= publisher_topic_texts().map_values(
        |topic: Seq<char>| StepView::Subscribe { topic, qos: SIGNAL_QOS },
    ));
    out
}

/// What the publisher sends when a burst is over: the signal that it is done.
pub fn done_signal() -> (r: Step)
    ensures
        r@ == session::request(GO_TOPIC@, DONE@),
        r matches Step::Publish { topic, qos, retain, payload } && topic@ == "request/go"@ && qos
            == QoS::AtLeastOnce && !retain && payload@ == "done"@,
{
    publish(GO_TOPIC, DONE.to_owned())
}

// ---------------------------------------------------------------------------
// Settings
// ---------------------------------------------------------------------------

/// The settings of a burst.
#[derive(Clone, Copy, Debug, PartialEq, Eq, Structural)]
pub struct RunConfig {
    pub qos: u8,
    pub delay_ms: u64,
    pub message_size: usize,
}

/// The settings before any are received.
pub open spec fn default_config() -> RunConfig {
    RunConfig { qos: 0, delay_ms: 0, message_size: 1 }
}

impl Default for RunConfig {
    fn default() -> (r: Self)
        ensures
            r == default_config(),
            r.qos == 0,
            r.delay_ms == 0,
            r.message_size == 1,
    {
        RunConfig { qos: 0, delay_ms: 0, message_size: 1 }
    }
}

/// What a message leads to.
#[derive(Clone, Copy, Debug, PartialEq, Eq, Structural)]
pub enum Reaction {
    /// The quality of service is set.
    QosSet,
    /// The delay is set.
    DelaySet,
    /// The size is set.
    SizeSet,
    /// A burst is to be sent.
    StartBurst,
    /// Nothing.
    Ignored,
    /// Nothing: the topic is none of the publisher's.
    UnexpectedTopic,
}

/// The number that a payload writes, white space around it aside, or a
/// default where it writes none up to `max`.
pub open spec fn number_or(payload: Seq<char>, max: nat, default: nat) -> nat {
    match number::unsigned_value(text::trim(payload), max) {
        Some(n) => n,
        None => default,
    }
}

/// A message with settings `cfg` in force: the settings afterwards, and what
/// the message leads to.
pub open spec fn react(cfg: RunConfig, topic: Seq<char>, payload: Seq<char>) -> (
    RunConfig,
    Reaction,
) {
    if topic == QOS_TOPIC@ {
        let n = number_or(payload, u8::MAX as nat, 0);
        (
            RunConfig {
                qos: if n < 2 {
                    n as u8
                } else {
                    2
                },
                ..cfg
            },
            Reaction::QosSet,
        )
    } else if topic == DELAY_TOPIC@ {
        (
            RunConfig { delay_ms: number_or(payload, u64::MAX as nat, 0) as u64, ..cfg },
            Reaction::DelaySet,
        )
    } else if topic == SIZE_TOPIC@ {
        (
            RunConfig { message_size: number_or(payload, usize::MAX as nat, 1) as usize, ..cfg },
            Reaction::SizeSet,
        )
    } else if topic == GO_TOPIC@ {
        (
            cfg,
            if text::trim(payload) == START@ {
                Reaction::StartBurst
            } else {
                Reaction::Ignored
            },
        )
    } else {
        (cfg, Reaction::UnexpectedTopic)
    }
}

/// The text of a payload, with the bytes that are no UTF-8 replaced.
pub uninterp spec fn lossy_text(bytes: Seq<u8>) -> Seq<char>;

/// `String::from_utf8_lossy` of the standard library is a function of the
/// bytes alone, and decodes them where they are UTF-8.
#[verifier::external_body]
fn from_utf8_lossy(bytes: &[u8]) -> (r: String)
    ensures
        r@ == lossy_text(bytes@),
        valid_utf8(bytes@) ==> r@ == decode_utf8(bytes@),
{
    String::from_utf8_lossy(bytes).into_owned()
}

fn parse_or(payload: &str, max: u64, default: u64) -> (r: u64)
    requires
        default <= max,
    ensures
        r == number_or(payload@, max as nat, default as nat),
        r <= max,
{
    let chars = text::chars_of(payload);
    match number::parse_unsigned(text::trim_chars(chars.as_slice()), max as u128) {
        Some(n) => n as u64,
        None => default,
    }
}

impl RunConfig {
    /// Takes in a message.
    pub fn on_message(&mut self, topic: &str, payload: &str) -> (r: Reaction)
        ensures
            (*final(self), r) == react(*old(self), topic@, payload@),
    {
        if text::same_text(topic, QOS_TOPIC) {
            let n: u64 = parse_or(payload, u8::MAX as u64, 0);
            self.qos = if n < 2 {
                n as u8
            } else {
                2
            };
            Reaction::QosSet
        } else if text::same_text(topic, DELAY_TOPIC) {
            self.delay_ms = parse_or(payload, u64::MAX, 0);
            Reaction::DelaySet
        } else if text::same_text(topic, SIZE_TOPIC) {
            self.message_size = parse_or(payload, usize::MAX as u64, 1) as usize;
            Reaction::SizeSet
        } else if text::same_text(topic, GO_TOPIC) {
            if text::same_text(text::trim_text(payload), START) {
                Reaction::StartBurst
            } else {
                Reaction::Ignored
            }
        } else {
            Reaction::UnexpectedTopic
        }
    }

    /// Takes in a message as it comes from the broker. Bytes of the payload
    /// that are no UTF-8 are replaced first.
    pub fn on_publish(&mut self, topic: &str, payload: &[u8]) -> (r: Reaction)
        ensures
            (*final(self), r) == react(*old(self), topic@, lossy_text(payload@)),
            valid_utf8(payload@) ==> (*final(self), r) == react(
                *old(self),
                topic@,
                decode_utf8(payload@),
            ),
    {
        let payload_text = from_utf8_lossy(payload);
        self.on_message(topic, payload_text.as_str())
    }
}

// ---------------------------------------------------------------------------
// Bursts
// ---------------------------------------------------------------------------

/// The padding of a message.
pub open spec fn padding_bytes(size: nat) -> Seq<u8> {
    Seq::new(size, |i: int| PADDING)
}

fn padding(size: usize) -> (r: Vec<u8>)
    ensures
        r@ == padding_bytes(size as nat),
        r@.len() == size,
        forall|i: int| 0 <= i < size ==> #[trigger] r@[i] == 0x78,
{
    let mut out: Vec<u8> = Vec::new();
    let mut i: usize = 0;
    while i < size
        invariant
            i <= size,
            out@ == padding_bytes(i as nat),
        decreases size - i,
    {
        out.push(PADDING);
        i = i + 1;
        assert(out@ =~= padding_bytes(i as nat));
    }
    out
}

/// A burst under way.
#[derive(Debug)]
pub struct Burst {
    /// The topic of its messages.
    pub topic: String,
    /// Their quality of service.
    pub qos: QoS,
    /// The pause after each message, if there is one.
    pub delay_ms: Option<u64>,
    /// What follows the numbers in each message.
    pub padding: Vec<u8>,
    /// The number of messages so far.
    pub counter: u64,
}

/// What a burst does next.
#[derive(Debug, PartialEq, Eq)]
pub enum BurstStep {
    /// Send a message, and pause if there is a delay.
    Send { payload: Vec<u8>, retain: bool, pause_ms: Option<u64> },
    /// Stop: so many messages have been sent, and the signal is due.
    Finished { sent: u64, signal: Step },
}

/// The time of the burst has passed.
pub open spec fn is_over(elapsed_us: u128) -> bool {
    elapsed_us >= BURST_US
}

/// A step of the burst `before`, after `elapsed_us` microseconds and with the
/// clock at `sent_us`: the next message, or the end with its signal.
pub open spec fn burst_step(
    before: Burst,
    elapsed_us: u128,
    sent_us: u128,
    after: Burst,
    r: BurstStep,
) -> bool {
    if is_over(elapsed_us) {
        &&& after == before
        &&& r matches BurstStep::Finished { sent, signal }
        &&& sent == before.counter
        &&& signal@ == session::request(GO_TOPIC@, DONE@)
    } else {
        &&& after == Burst { counter: (before.counter + 1) as u64, ..before }
        &&& r matches BurstStep::Send { payload, retain, pause_ms }
        &&& payload@ == message::counter_payload_bytes(before.counter, sent_us, before.padding@)
        &&& retain == BURST_RETAIN
        &&& pause_ms == before.delay_ms
    }
}

/// The topic on which a burst with these settings is sent.
pub open spec fn burst_topic(cfg: RunConfig) -> Seq<char> {
    topics::counter_topic_text(cfg.qos, cfg.delay_ms, cfg.message_size)
}

impl Burst {
    /// A burst with these settings, before its first message. No padding is
    /// longer than the largest allocation.
    pub fn new(cfg: &RunConfig) -> (r: Self)
        requires
            cfg.message_size <= isize::MAX,
        ensures
            r.topic@ == burst_topic(*cfg),
            r.qos == qos::qos_of(cfg.qos),
            r.delay_ms == (if cfg.delay_ms > 0 {
                Some(cfg.delay_ms)
            } else {
                None
            }),
            r.padding@ == padding_bytes(cfg.message_size as nat),
            r.padding@.len() == cfg.message_size,
            forall|i: int| 0 <= i < cfg.message_size ==> #[trigger] r.padding@[i] == 0x78,
            r.topic@ == topics::counter_topic_text(cfg.qos, cfg.delay_ms, cfg.message_size),
            r.counter == 0,
    {
        Burst {
            topic: counter_topic(cfg.qos, cfg.delay_ms, cfg.message_size),
            qos: to_qos(cfg.qos),
            delay_ms: if cfg.delay_ms > 0 {
                Some(cfg.delay_ms)
            } else {
                None
            },
            padding: padding(cfg.message_size),
            counter: 0,
        }
    }

    /// The next message, sent at the time `sent_us`.
    pub fn next_message_at(&mut self, sent_us: u128) -> (r: Vec<u8>)
        requires
            old(self).counter < u64::MAX,
        ensures
            r@ == message::counter_payload_bytes(old(self).counter, sent_us, old(self).padding@),
            *final(self) == (Burst { counter: (old(self).counter + 1) as u64, ..*old(self) }),
            r@.len() == number::decimal(old(self).counter as nat).len() + number::decimal(
                sent_us as nat,
            ).len() + 2 + old(self).padding@.len(),
    {
        let payload = counter_payload(self.counter, sent_us, self.padding.as_slice());
        proof {
            message::law_payload_layout(
                self.counter,
                sent_us,
                self.padding@,
                number::decimal(self.counter as nat).len() as int,
                number::decimal(sent_us as nat).len() as int,
            );
        }
        self.counter = self.counter + 1;
        payload
    }

    /// What to do when `elapsed_us` microseconds of the burst have passed and
    /// the clock stands at `sent_us`.
    pub fn step_at(&mut self, elapsed_us: u128, sent_us: u128) -> (r: BurstStep)
        requires
            !is_over(elapsed_us) ==> old(self).counter < u64::MAX,
        ensures
            burst_step(*old(self), elapsed_us, sent_us, *final(self), r),
            elapsed_us >= 30_000_000 ==> *final(self) == *old(self),
            elapsed_us < 30_000_000 ==> *final(self) == (Burst {
                counter: (old(self).counter + 1) as u64,
                ..*old(self)
            }),
            match r {
                BurstStep::Finished { sent, signal } => {
                    &&& elapsed_us >= 30_000_000
                    &&& sent == old(self).counter
                    &&& signal matches Step::Publish { topic, qos, retain, payload }
                    &&& topic@ == "request/go"@
                    &&& qos == QoS::AtLeastOnce
                    &&& !retain
                    &&& payload@ == "done"@
                },
                BurstStep::Send { payload, retain, pause_ms } => {
                    &&& elapsed_us < 30_000_000
                    &&& payload@ == message::counter_payload_bytes(
                        old(self).counter,
                        sent_us,
                        old(self).padding@,
                    )
                    &&& !retain
                    &&& pause_ms == old(self).delay_ms
                },
            },
    {
        if elapsed_us >= BURST_US {
            BurstStep::Finished { sent: self.counter, signal: done_signal() }
        } else {
            let payload = self.next_message_at(sent_us);
            BurstStep::Send { payload, retain: BURST_RETAIN, pause_ms: self.delay_ms }
        }
    }

    /// What to do now that `elapsed_us` microseconds of the burst have passed.
    /// The clock is read for a message only; where it stands before the Unix
    /// epoch there is none, and the burst stays as it is.
    pub fn step(&mut self, elapsed_us: u128) -> (r: Result<BurstStep, ClockBeforeEpoch>)
        requires
            !is_over(elapsed_us) ==> old(self).counter < u64::MAX,
        ensures
            is_over(elapsed_us) ==> r is Ok && forall|sent_us: u128| #[trigger]
                burst_step(*old(self), elapsed_us, sent_us, *final(self), r->Ok_0),
            !is_over(elapsed_us) ==> exists|t: std::time::SystemTime|
                match #[trigger] crate::clock::micros_at(t) {
                    Ok(now) => r is Ok && burst_step(
                        *old(self),
                        elapsed_us,
                        now,
                        *final(self),
                        r->Ok_0,
                    ),
                    Err(e) => r == Err::<BurstStep, _>(e) && *final(self) == *old(self),
                },
    {
        if elapsed_us >= BURST_US {
            return Ok(self.step_at(elapsed_us, 0));
        }
        match now_us() {
            Ok(now) => Ok(self.step_at(elapsed_us, now)),
            Err(e) => Err(e),
        }
    }
}

// ---------------------------------------------------------------------------
// Laws
// ---------------------------------------------------------------------------

/// Whatever is received, the quality of service is a real one.
pub proof fn law_qos_in_range(cfg: RunConfig, topic: Seq<char>, payload: Seq<char>)
    ensures
        default_config().qos <= 2,
        cfg.qos <= 2 ==> react(cfg, topic, payload).0.qos <= 2,
{
}

/// The topics are told apart, each setting by its own.
proof fn lemma_topics_distinct()
    ensures
        publisher_topic_texts().no_duplicates(),
{
    reveal_strlit("request/qos");
    reveal_strlit("request/delay");
    reveal_strlit("request/messagesize");
    reveal_strlit("request/go");
    assert(QOS_TOPIC@.len() == 11);
    assert(DELAY_TOPIC@.len() == 13);
    assert(SIZE_TOPIC@.len() == 19);
    assert(GO_TOPIC@.len() == 10);
}

/// A number in decimal, sent on the topic of a setting, becomes the setting;
/// the other settings stay as they are.
pub proof fn law_settings_take_effect(cfg: RunConfig, qos: u8, delay_ms: u64, size: usize)
    requires
        qos <= 2,
    ensures
        react(cfg, QOS_TOPIC@, number::decimal(qos as nat)) == (
            RunConfig { qos, ..cfg },
            Reaction::QosSet,
        ),
        react(cfg, DELAY_TOPIC@, number::decimal(delay_ms as nat)) == (
            RunConfig { delay_ms, ..cfg },
            Reaction::DelaySet,
        ),
        react(cfg, SIZE_TOPIC@, number::decimal(size as nat)) == (
            RunConfig { message_size: size, ..cfg },
            Reaction::SizeSet,
        ),
{
    lemma_topics_distinct();
    let t = publisher_topic_texts();
    assert(t[0] == QOS_TOPIC@ && t[1] == DELAY_TOPIC@ && t[2] == SIZE_TOPIC@);
    lemma_number_or(qos as nat, u8::MAX as nat, 0);
    lemma_number_or(delay_ms as nat, u64::MAX as nat, 0);
    lemma_number_or(size as nat, usize::MAX as nat, 1);
}

proof fn lemma_number_or(n: nat, max: nat, default: nat)
    requires
        n <= max,
    ensures
        number_or(number::decimal(n), max, default) == n,
{
    let s = number::decimal(n);
    number::lemma_decimal(n);
    assert(number::is_digit(s[0]));
    assert(number::is_digit(s[s.len() - 1]));
    text::lemma_trim_nothing(s);
    number::law_decimal_round_trip(n, max);
}

/// The signals leave the settings as they are, and so does a topic that is
/// none of the publisher's. Only the start signal starts a burst.
pub proof fn law_signals_keep_settings(cfg: RunConfig, topic: Seq<char>, payload: Seq<char>)
    ensures
        !(topic == QOS_TOPIC@ || topic == DELAY_TOPIC@ || topic == SIZE_TOPIC@) ==> react(
            cfg,
            topic,
            payload,
        ).0 == cfg,
        react(cfg, topic, payload).1 == Reaction::StartBurst <==> topic == GO_TOPIC@ && text::trim(
            payload,
        ) == START@,
{
    lemma_topics_distinct();
    let t = publisher_topic_texts();
    assert(t[0] == QOS_TOPIC@ && t[1] == DELAY_TOPIC@ && t[2] == SIZE_TOPIC@ && t[3] == GO_TOPIC@);
}

/// Messages on the topics that the publisher subscribes to are expected, and
/// no others.
pub proof fn law_subscribed_topics_expected(cfg: RunConfig, topic: Seq<char>, payload: Seq<char>)
    ensures
        react(cfg, topic, payload).1 != Reaction::UnexpectedTopic
            <==> publisher_topic_texts().contains(topic),
{
    let t = publisher_topic_texts();
    assert(t[0] == QOS_TOPIC@ && t[1] == DELAY_TOPIC@ && t[2] == SIZE_TOPIC@ && t[3] == GO_TOPIC@);
}

/// A test and a publisher with the same settings use the same topic.
pub proof fn law_topics_agree(c: TestCase, cfg: RunConfig)
    requires
        cfg.qos == c.pub_qos,
        cfg.delay_ms == c.delay_ms,
        cfg.message_size == c.msg_size,
    ensures
        burst_topic(cfg) == session::topic_of(c),
        burst_topic(cfg) == topics::counter_topic_text(c.pub_qos, c.delay_ms, c.msg_size),
{
}

/// The settings that the analyser announces at once are not for this
/// publisher: they change nothing.
pub proof fn law_announced_settings_ignored(cfg: RunConfig, payload: Seq<char>)
    ensures
        react(cfg, CONFIG_TOPIC@, payload) == (cfg, Reaction::UnexpectedTopic),
{
    reveal_strlit("request/config");
    reveal_strlit("request/qos");
    reveal_strlit("request/delay");
    reveal_strlit("request/messagesize");
    reveal_strlit("request/go");
    assert(CONFIG_TOPIC@.len() == 14);
    assert(QOS_TOPIC@.len() == 11);
    assert(DELAY_TOPIC@.len() == 13);
    assert(SIZE_TOPIC@.len() == 19);
    assert(GO_TOPIC@.len() == 10);
}

/// The analyser understands the signal that ends a burst.
pub proof fn law_done_signal_understood(now: u128)
    ensures
        receiver::reports_done(
            receiver::Incoming::Publish { topic: GO_TOPIC@, payload: encode_utf8(DONE@), now },
        ),
{
}

/// The length of a burst over the delay, both in milliseconds, rounded up.
pub open spec fn most_messages(delay_ms: u64) -> int
    recommends
        delay_ms > 0,
{
    (BURST_US / 1000 + delay_ms - 1) / delay_ms as int
}

/// A throttled burst sends no more messages than its length over the delay,
/// rounded up: `at[k]` is how far it has come when message `k` is sent, and a
/// full pause lies between two messages.
pub proof fn law_throttled_burst_bounded(delay_ms: u64, at: Seq<u128>)
    requires
        delay_ms > 0,
        forall|k: int| 0 <= k < at.len() ==> !is_over(#[trigger] at[k]),
        forall|j: int, k: int|
            0 <= j && k == j + 1 && k < at.len() ==> #[trigger] at[j] + delay_ms * 1000
                <= #[trigger] at[k],
    ensures
        at.len() <= most_messages(delay_ms),
{
    let d = delay_ms as int;
    if at.len() > 0 {
        let n = at.len() - 1;
        lemma_pauses_add_up(delay_ms, at, n);
        assert(!is_over(at[n]));
        assert(n * d < 30_000) by (nonlinear_arith)
            requires
                n * (d * 1000) < 30_000_000,
        ;
        lemma_rounded_up(n + 1, d);
    } else {
        assert((30_000 + d - 1) / d >= 0) by (nonlinear_arith)
            requires
                d > 0,
        ;
    }
}

/// Where sending takes no time and no pause is overrun, a throttled burst sends
/// exactly that many messages; where the delay divides the length of the burst,
/// these are the messages that the analyser expects.
pub proof fn law_throttled_burst_exact(delay_ms: u64, at: Seq<u128>)
    requires
        delay_ms > 0,
        forall|k: int| 0 <= k < at.len() ==> #[trigger] at[k] == k * (delay_ms * 1000),
        forall|k: int| 0 <= k < at.len() ==> !is_over(#[trigger] at[k]),
        at.len() * (delay_ms * 1000) >= BURST_US,
    ensures
        at.len() == most_messages(delay_ms),
        30_000int % delay_ms as int == 0 ==> at.len() == timing::throttled_messages(delay_ms),
{
    let d = delay_ms as int;
    let n = at.len() as int;
    assert(n * d >= 30_000) by (nonlinear_arith)
        requires
            n * (d * 1000) >= 30_000_000,
    ;
    assert(n > 0) by (nonlinear_arith)
        requires
            n * d >= 30_000,
            n >= 0,
    ;
    assert(!is_over(at[n - 1]));
    assert((n - 1) * d < 30_000) by (nonlinear_arith)
        requires
            (n - 1) * (d * 1000) < 30_000_000,
    ;
    lemma_rounded_up(n, d);
    if 30_000int % d == 0 {
        let q = 30_000int / d;
        vstd::arithmetic::div_mod::lemma_fundamental_div_mod(30_000, d);
        assert(d * q == 30_000);
        assert(n == q) by (nonlinear_arith)
            requires
                d > 0,
                d * q == 30_000,
                n * d >= 30_000,
                (n - 1) * d < 30_000,
        ;
    }
}

/// `n` is at most the length of a burst over `d`, rounded up, where `n - 1`
/// times `d` lies within the burst; it is that number where `n` times `d` does not.
proof fn lemma_rounded_up(n: int, d: int)
    requires
        d > 0,
        n > 0,
        (n - 1) * d < 30_000,
    ensures
        n <= (30_000 + d - 1) / d,
        n * d >= 30_000 ==> n == (30_000 + d - 1) / d,
{
    let m = 30_000 + d - 1;
    let q = m / d;
    vstd::arithmetic::div_mod::lemma_fundamental_div_mod(m, d);
    vstd::arithmetic::div_mod::lemma_mod_bound(m, d);
    assert(d * q <= m < d * q + d);
    assert(n <= q) by (nonlinear_arith)
        requires
            d > 0,
            (n - 1) * d < 30_000,
            30_000 + d - 1 < d * q + d,
    ;
    if n * d >= 30_000 {
        assert(n >= q) by (nonlinear_arith)
            requires
                d > 0,
                n * d >= 30_000,
                d * q <= 30_000 + d - 1,
        ;
    }
}

/// The pauses before message `n` lie behind it.
proof fn lemma_pauses_add_up(delay_ms: u64, at: Seq<u128>, n: int)
    requires
        0 <= n < at.len(),
        forall|j: int, k: int|
            0 <= j && k == j + 1 && k < at.len() ==> #[trigger] at[j] + delay_ms * 1000
                <= #[trigger] at[k],
    ensures
        n * (delay_ms * 1000) <= at[n],
    decreases n,
{
    let pause = delay_ms * 1000;
    if n == 0 {
        assert(n * pause == 0) by (nonlinear_arith)
            requires
                n == 0,
        ;
    } else {
        lemma_pauses_add_up(delay_ms, at, n - 1);
        let before = at[n - 1] as int;
        let after = at[n] as int;
        assert(at[n - 1] + delay_ms * 1000 <= at[n]);
        assert(n * pause <= after) by (nonlinear_arith)
            requires
                (n - 1) * pause <= before,
                before + pause <= after,
        ;
    }
}

/// Step `k` of a burst comes within its time, and leads from the state
/// `bursts[k]` to the one behind it.
pub open spec fn sends_message(
    bursts: Seq<Burst>,
    elapsed_us: Seq<u128>,
    sent: Seq<u128>,
    results: Seq<BurstStep>,
    k: int,
) -> bool {
    &&& !is_over(elapsed_us[k])
    &&& burst_step(bursts[k], elapsed_us[k], sent[k], bursts[k + 1], results[k])
}

/// A burst numbers its messages from zero, without a gap, and pads them all
/// alike.
pub proof fn law_burst_numbered(
    bursts: Seq<Burst>,
    elapsed_us: Seq<u128>,
    sent: Seq<u128>,
    results: Seq<BurstStep>,
    k: int,
)
    requires
        bursts.len() > 0,
        bursts[0].counter == 0,
        bursts.len() - 1 <= u64::MAX,
        forall|j: int|
            0 <= j < bursts.len() - 1 ==> #[trigger] sends_message(
                bursts,
                elapsed_us,
                sent,
                results,
                j,
            ),
        0 <= k < bursts.len() - 1,
    ensures
        results[k] matches BurstStep::Send { payload, pause_ms, .. } && payload@
            == message::counter_payload_bytes(k as u64, sent[k], bursts[0].padding@) && pause_ms
            == bursts[0].delay_ms,
        bursts[k].counter == k,
        bursts[k].padding == bursts[0].padding,
        bursts[k].delay_ms == bursts[0].delay_ms,
    decreases k,
{
    assert(sends_message(bursts, elapsed_us, sent, results, k));
    if k > 0 {
        law_burst_numbered(bursts, elapsed_us, sent, results, k - 1);
        assert(sends_message(bursts, elapsed_us, sent, results, k - 1));
    }
}

/// The packets that a burst leads to: message `k` is sent at `sent[k]` and
/// received at `received[k]`.
pub open spec fn burst_packets(cfg: RunConfig, sent: Seq<u128>, received: Seq<u128>) -> Seq<
    receiver::Incoming,
> {
    Seq::new(
        sent.len(),
        |k: int|
            receiver::Incoming::Publish {
                topic: burst_topic(cfg),
                payload: message::counter_payload_bytes(
                    k as u64,
                    sent[k],
                    padding_bytes(cfg.message_size as nat),
                ),
                now: received[k],
            },
    )
}

/// The messages of such a burst.
pub open spec fn burst_messages(sent: Seq<u128>, received: Seq<u128>) -> Seq<Message> {
    Seq::new(
        sent.len(),
        |k: int|
            Message {
                seq: k as u64,
                sent_us: sent[k],
                recv_us: received[k],
                latency_us: message::latency(received[k], sent[k]),
            },
    )
}

/// A burst that arrives whole is counted whole: the analyser hands on, or
/// still holds, exactly the messages that were sent, numbered from zero and in
/// order, with the time at which each was sent.
pub proof fn law_burst_counted(cfg: RunConfig, sent: Seq<u128>, received: Seq<u128>)
    requires
        sent.len() == received.len(),
        sent.len() <= u64::MAX,
    ensures
        ({
            let outcome = receiver::run(
                receiver::initial_state(),
                burst_packets(cfg, sent, received),
            );
            receiver::messages_handed_on(outcome.1) + outcome.0.batch == burst_messages(
                sent,
                received,
            )
        }),
        burst_messages(sent, received).len() == sent.len(),
        forall|k: int|
            0 <= k < sent.len() ==> {
                let m = #[trigger] burst_messages(sent, received)[k];
                m.seq == k && m.sent_us == sent[k] && m.recv_us == received[k]
            },
{
    let packets = burst_packets(cfg, sent, received);
    receiver::law_messages_conserved(receiver::initial_state(), packets);
    lemma_burst_messages(cfg, sent, received);
    assert(receiver::initial_state().batch + receiver::messages_of(packets)
        =~= receiver::messages_of(packets));
}

proof fn lemma_burst_messages(cfg: RunConfig, sent: Seq<u128>, received: Seq<u128>)
    requires
        sent.len() == received.len(),
        sent.len() <= u64::MAX,
    ensures
        receiver::messages_of(burst_packets(cfg, sent, received)) == burst_messages(sent, received),
    decreases sent.len(),
{
    let packets = burst_packets(cfg, sent, received);
    if sent.len() == 0 {
        assert(receiver::messages_of(packets) =~= burst_messages(sent, received));
    } else {
        let n = sent.len() - 1;
        lemma_burst_messages(cfg, sent.drop_last(), received.drop_last());
        assert(packets.drop_last() =~= burst_packets(cfg, sent.drop_last(), received.drop_last()));
        topics::law_counter_topic_recognised(cfg.qos, cfg.delay_ms, cfg.message_size);
        message::law_payload_round_trip(
            n as u64,
            sent[n],
            padding_bytes(cfg.message_size as nat),
            received[n],
        );
        assert(receiver::message_of(packets.last()) == Some(burst_messages(sent, received)[n]));
        assert(receiver::messages_of(packets) =~= burst_messages(sent, received));
    }
}

/// The padding has as many bytes as the settings ask for, all of them an `x`.
pub proof fn law_padding_exact(size: nat)
    ensures
        padding_bytes(size).len() == size,
        forall|i: int| 0 <= i < size ==> #[trigger] padding_bytes(size)[i] == 0x78,
{
}

/// A larger setting makes for a longer padding, by as many bytes.
pub proof fn law_padding_grows(size: nat, more: nat)
    ensures
        padding_bytes(size + more) == padding_bytes(size) + padding_bytes(more),
{
    assert(padding_bytes(size + more) =~= padding_bytes(size) + padding_bytes(more));
}

/// Every message of a burst is as long as its two numbers, two colons and the
/// padding that the settings ask for, and ends with that padding.
pub proof fn law_payload_length(cfg: RunConfig, counter: u64, sent_us: u128)
    ensures
        ({
            let payload = message::counter_payload_bytes(
                counter,
                sent_us,
                padding_bytes(cfg.message_size as nat),
            );
            let numbers = number::decimal(counter as nat).len() + number::decimal(
                sent_us as nat,
            ).len() + 2;
            &&& payload.len() == numbers + cfg.message_size
            &&& forall|i: int| numbers <= i < payload.len() ==> #[trigger] payload[i] == 0x78
        }),
{
    let padding = padding_bytes(cfg.message_size as nat);
    let a = number::decimal(counter as nat).len() as int;
    let b = number::decimal(sent_us as nat).len() as int;
    let payload = message::counter_payload_bytes(counter, sent_us, padding);
    message::law_payload_layout(counter, sent_us, padding, a, b);
    assert forall|i: int| a + b + 2 <= i < payload.len() implies #[trigger] payload[i] == 0x78 by {
        assert(payload.skip(a + b + 2)[i - (a + b + 2)] == payload[i]);
    }
}

/// A burst goes on for thirty seconds. Within them each step sends the next
/// message and changes nothing but the counter; behind them a step ends the
/// burst with the signal and the number of messages, and changes nothing.
pub proof fn law_burst_step_exact(
    before: Burst,
    elapsed_us: u128,
    sent_us: u128,
    after: Burst,
    r: BurstStep,
)
    requires
        burst_step(before, elapsed_us, sent_us, after, r),
        elapsed_us < 30_000_000 ==> before.counter < u64::MAX,
    ensures
        after.topic == before.topic,
        after.qos == before.qos,
        after.delay_ms == before.delay_ms,
        after.padding == before.padding,
        match r {
            BurstStep::Finished { sent, signal } => {
                &&& elapsed_us >= 30_000_000
                &&& after.counter == before.counter
                &&& sent == before.counter
                &&& signal matches Step::Publish { topic, qos, retain, payload }
                &&& topic@ == "request/go"@
                &&& qos == QoS::AtLeastOnce
                &&& !retain
                &&& payload@ == "done"@
            },
            BurstStep::Send { payload, retain, pause_ms } => {
                &&& elapsed_us < 30_000_000
                &&& after.counter == before.counter + 1
                &&& payload@ == message::counter_payload_bytes(
                    before.counter,
                    sent_us,
                    before.padding@,
                )
                &&& !retain
                &&& pause_ms == before.delay_ms
            },
        },
{
}

/// A payload that writes a number, white space around it aside, sets it, if it
/// is in the range of the setting. A quality of service above the highest
/// counts as the highest.
pub proof fn law_readable_settings(cfg: RunConfig, payload: Seq<char>, n: nat)
    ensures
        number::unsigned_value(text::trim(payload), 255) == Some(n) ==> react(
            cfg,
            "request/qos"@,
            payload,
        ).0 == (RunConfig {
            qos: if n == 0 {
                0
            } else if n == 1 {
                1
            } else {
                2
            },
            ..cfg
        }),
        number::unsigned_value(text::trim(payload), u64::MAX as nat) == Some(n) ==> react(
            cfg,
            "request/delay"@,
            payload,
        ).0 == (RunConfig { delay_ms: n as u64, ..cfg }),
        number::unsigned_value(text::trim(payload), usize::MAX as nat) == Some(n) ==> react(
            cfg,
            "request/messagesize"@,
            payload,
        ).0 == (RunConfig { message_size: n as usize, ..cfg }),
{
    lemma_topics_distinct();
    let t = publisher_topic_texts();
    assert(t[0] == QOS_TOPIC@ && t[1] == DELAY_TOPIC@ && t[2] == SIZE_TOPIC@ && t[3] == GO_TOPIC@);
}

/// A payload that writes no number in the range of a setting resets it to its
/// default.
pub proof fn law_unreadable_settings(cfg: RunConfig, payload: Seq<char>)
    ensures
        number::unsigned_value(text::trim(payload), 255) is None ==> react(
            cfg,
            "request/qos"@,
            payload,
        ).0 == (RunConfig { qos: 0, ..cfg }),
        number::unsigned_value(text::trim(payload), u64::MAX as nat) is None ==> react(
            cfg,
            "request/delay"@,
            payload,
        ).0 == (RunConfig { delay_ms: 0, ..cfg }),
        number::unsigned_value(text::trim(payload), usize::MAX as nat) is None ==> react(
            cfg,
            "request/messagesize"@,
            payload,
        ).0 == (RunConfig { message_size: 1, ..cfg }),
{
    lemma_topics_distinct();
    let t = publisher_topic_texts();
    assert(t[0] == QOS_TOPIC@ && t[1] == DELAY_TOPIC@ && t[2] == SIZE_TOPIC@ && t[3] == GO_TOPIC@);
}

/// Each topic leads to its own reaction, whatever the payload; on the topic of
/// the signals it is the start signal alone that starts a burst, white space
/// around it aside.
pub proof fn law_reactions(cfg: RunConfig, topic: Seq<char>, payload: Seq<char>)
    ensures
        react(cfg, topic, payload).1 == Reaction::QosSet <==> topic == "request/qos"@,
        react(cfg, topic, payload).1 == Reaction::DelaySet <==> topic == "request/delay"@,
        react(cfg, topic, payload).1 == Reaction::SizeSet <==> topic == "request/messagesize"@,
        react(cfg, topic, payload).1 == Reaction::StartBurst <==> topic == "request/go"@
            && text::trim(payload) == "start"@,
        react(cfg, topic, payload).1 == Reaction::Ignored <==> topic == "request/go"@
            && text::trim(payload) != "start"@,
{
    lemma_topics_distinct();
    let t = publisher_topic_texts();
    assert(t[0] == QOS_TOPIC@ && t[1] == DELAY_TOPIC@ && t[2] == SIZE_TOPIC@ && t[3] == GO_TOPIC@);
}

/// White space around a payload makes no difference.
pub proof fn law_surroundings_ignored(
    cfg: RunConfig,
    topic: Seq<char>,
    before: Seq<char>,
    payload: Seq<char>,
    after: Seq<char>,
)
    requires
        forall|j: int| 0 <= j < before.len() ==> text::is_white_space(#[trigger] before[j]),
        forall|j: int| 0 <= j < after.len() ==> text::is_white_space(#[trigger] after[j]),
    ensures
        react(cfg, topic, before + payload + after) == react(cfg, topic, payload),
{
    text::law_trim_ignores_surroundings(before, payload, after);
}

/// So many pauses fill a burst, and one less does not.
pub proof fn law_most_messages_exact(delay_ms: u64)
    requires
        delay_ms > 0,
    ensures
        (most_messages(delay_ms) - 1) * delay_ms < 30_000 <= most_messages(delay_ms) * delay_ms,
{
    let d = delay_ms as int;
    let m = 30_000 + d - 1;
    let q = m / d;
    vstd::arithmetic::div_mod::lemma_fundamental_div_mod(m, d);
    vstd::arithmetic::div_mod::lemma_mod_bound(m, d);
    assert((q - 1) * d < 30_000 <= q * d) by (nonlinear_arith)
        requires
            d > 0,
            d * q <= 30_000 + d - 1 < d * q + d,
    ;
}

} // verus!
