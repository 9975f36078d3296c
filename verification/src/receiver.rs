//! What the analyser does with the packets of a run: it waits until both of
//! its subscriptions are confirmed, gathers the counter messages in batches,
//! and notes when the publisher reports that it is done.

use crate::clock::{now_us, ClockBeforeEpoch};
use crate::message;
use crate::message::{parse_counter_payload_at, Message};
use crate::text;
use crate::topics::{COUNTER_PREFIX, DONE, GO_TOPIC};
use vstd::prelude::*;
use vstd::string::*;
use vstd::utf8::*;

verus! {

/// The number of messages that are handed on together.
pub const BATCH_SIZE: usize = 4096;

/// The number of subscriptions of a run: the counter topic and the topic of
/// the start and stop signals.
pub const SUBSCRIPTIONS: u8 = 2;

// ---------------------------------------------------------------------------
// Model
// ---------------------------------------------------------------------------

/// The state of a receiver.
#[verifier::ext_equal]
pub struct ReceiverState {
    /// The messages that have not been handed on yet.
    pub batch: Seq<Message>,
    /// The number of subscriptions that are not confirmed yet.
    pub subacks_remaining: nat,
    /// The publisher has reported that it is done.
    pub done: bool,
}

/// A packet from the broker.
pub enum Incoming {
    /// A subscription is confirmed.
    SubAck,
    /// A message on a topic, received at the time `now`.
    Publish { topic: Seq<char>, payload: Seq<u8>, now: u128 },
    /// Any other packet.
    Other,
}

/// What a packet leads to.
#[verifier::ext_equal]
pub enum Outgoing {
    /// Nothing.
    Nothing,
    /// The last subscription has been confirmed.
    Ready,
    /// The publisher is done.
    Done,
    /// A full batch is handed on.
    Batch(Seq<Message>),
}

/// The state before the first packet.
pub open spec fn initial_state() -> ReceiverState {
    ReceiverState { batch: Seq::empty(), subacks_remaining: SUBSCRIPTIONS as nat, done: false }
}

/// Messages on this topic are counter messages.
pub open spec fn is_counter_topic(topic: Seq<char>) -> bool {
    topic != GO_TOPIC@ && text::has_prefix(topic, COUNTER_PREFIX@)
}

/// The packet reports that the publisher is done.
pub open spec fn reports_done(e: Incoming) -> bool {
    e matches Incoming::Publish { topic, payload, .. } && topic == GO_TOPIC@ && payload
        == encode_utf8(DONE@)
}

/// The counter message that a packet brings.
pub open spec fn message_of(e: Incoming) -> Option<Message> {
    match e {
        Incoming::Publish { topic, payload, now } => if is_counter_topic(topic) {
            message::counter_message(payload, now)
        } else {
            None
        },
        _ => None,
    }
}

/// One packet: the next state, and what the packet leads to.
pub open spec fn step(s: ReceiverState, e: Incoming) -> (ReceiverState, Outgoing) {
    if e is SubAck {
        if s.subacks_remaining == 0 {
            (s, Outgoing::Nothing)
        } else {
            (
                ReceiverState { subacks_remaining: (s.subacks_remaining - 1) as nat, ..s },
                if s.subacks_remaining == 1 {
                    Outgoing::Ready
                } else {
                    Outgoing::Nothing
                },
            )
        }
    } else if reports_done(e) {
        (ReceiverState { done: true, ..s }, Outgoing::Done)
    } else {
        match message_of(e) {
            Some(m) => {
                let batch = s.batch.push(m);
                if batch.len() >= BATCH_SIZE {
                    (ReceiverState { batch: Seq::empty(), ..s }, Outgoing::Batch(batch))
                } else {
                    (ReceiverState { batch, ..s }, Outgoing::Nothing)
                }
            },
            None => (s, Outgoing::Nothing),
        }
    }
}

/// Many packets, one after the other.
pub open spec fn run(s: ReceiverState, events: Seq<Incoming>) -> (ReceiverState, Seq<Outgoing>)
    decreases events.len(),
{
    if events.len() == 0 {
        (s, Seq::empty())
    } else {
        let before = run(s, events.drop_last());
        let last = step(before.0, events.last());
        (last.0, before.1.push(last.1))
    }
}

/// The counter messages that the packets bring, in order.
pub open spec fn messages_of(events: Seq<Incoming>) -> Seq<Message> {
    events.filter_map(|e: Incoming| message_of(e))
}

/// The messages in all batches that were handed on, in order.
pub open spec fn messages_handed_on(outgoing: Seq<Outgoing>) -> Seq<Message>
    decreases outgoing.len(),
{
    if outgoing.len() == 0 {
        Seq::empty()
    } else {
        let before = messages_handed_on(outgoing.drop_last());
        match outgoing.last() {
            Outgoing::Batch(batch) => before + batch,
            _ => before,
        }
    }
}

/// The number of confirmed subscriptions among the packets.
pub open spec fn count_subacks(events: Seq<Incoming>) -> nat
    decreases events.len(),
{
    if events.len() == 0 {
        0
    } else {
        count_subacks(events.drop_last()) + if events.last() is SubAck {
            1nat
        } else {
            0nat
        }
    }
}

/// How often readiness was reported.
pub open spec fn count_ready(outgoing: Seq<Outgoing>) -> nat
    decreases outgoing.len(),
{
    if outgoing.len() == 0 {
        0
    } else {
        count_ready(outgoing.drop_last()) + if outgoing.last() is Ready {
            1nat
        } else {
            0nat
        }
    }
}

// ---------------------------------------------------------------------------
// The receiver
// ---------------------------------------------------------------------------

/// Gathers the packets of one run.
#[derive(Debug)]
pub struct Receiver {
    batch: Vec<Message>,
    subacks_remaining: u8,
    done: bool,
}

impl View for Receiver {
    type V = ReceiverState;

    closed spec fn view(&self) -> ReceiverState {
        ReceiverState {
            batch: self.batch@,
            subacks_remaining: self.subacks_remaining as nat,
            done: self.done,
        }
    }
}

/// What a message on a topic leads to.
#[derive(Debug, PartialEq, Eq)]
pub enum PublishOutcome {
    /// Nothing.
    Nothing,
    /// The publisher is done.
    Done,
    /// A full batch is to be handed on.
    Batch(Vec<Message>),
}

impl View for PublishOutcome {
    type V = Outgoing;

    open spec fn view(&self) -> Outgoing {
        match self {
            PublishOutcome::Nothing => Outgoing::Nothing,
            PublishOutcome::Done => Outgoing::Done,
            PublishOutcome::Batch(batch) => Outgoing::Batch(batch@),
        }
    }
}

impl Receiver {
    /// A receiver that has seen no packet.
    pub fn new() -> (r: Self)
        ensures
            r@ == initial_state(),
            r@.batch.len() == 0,
            r@.subacks_remaining == 2,
            !r@.done,
    {
        Receiver {
            batch: Vec::with_capacity(BATCH_SIZE),
            subacks_remaining: SUBSCRIPTIONS,
            done: false,
        }
    }

    /// The publisher has reported that it is done.
    pub fn done_received(&self) -> (r: bool)
        ensures
            r == self@.done,
    {
        self.done
    }

    /// A subscription is confirmed: whether it was the last one to wait for.
    pub fn on_suback(&mut self) -> (ready: bool)
        ensures
            (final(self)@, if ready {
                Outgoing::Ready
            } else {
                Outgoing::Nothing
            }) == step(old(self)@, Incoming::SubAck),
            ready <==> old(self)@.subacks_remaining == 1,
            final(self)@.subacks_remaining == (if old(self)@.subacks_remaining == 0 {
                0
            } else {
                old(self)@.subacks_remaining - 1
            }),
            final(self)@.batch == old(self)@.batch,
            final(self)@.done == old(self)@.done,
    {
        if self.subacks_remaining > 0 {
            self.subacks_remaining = self.subacks_remaining - 1;
            self.subacks_remaining == 0
        } else {
            false
        }
    }

    /// A message on a topic, received at the time `now`.
    pub fn on_publish_at(&mut self, topic: &str, payload: &[u8], now: u128) -> (r: PublishOutcome)
        ensures
            (final(self)@, r@) == step(
                old(self)@,
                Incoming::Publish { topic: topic@, payload: payload@, now },
            ),
            final(self)@.subacks_remaining == old(self)@.subacks_remaining,
            final(self)@.done <==> old(self)@.done || (topic@ == "request/go"@ && payload@
                == encode_utf8("done"@)),
            r is Done <==> topic@ == "request/go"@ && payload@ == encode_utf8("done"@),
            r matches PublishOutcome::Batch(batch) ==> old(self)@.batch.len() + 1 == batch@.len()
                && batch@.take(old(self)@.batch.len() as int) == old(self)@.batch
                && final(self)@.batch.len() == 0,
    {
        if text::same_text(topic, GO_TOPIC) {
            if text::same_bytes(payload, DONE.as_bytes()) {
                self.done = true;
                return PublishOutcome::Done;
            }
            return PublishOutcome::Nothing;
        }
        if text::text_has_prefix(topic, COUNTER_PREFIX) {
            if let Some(m) = parse_counter_payload_at(payload, now) {
                self.batch.push(m);
                if self.batch.len() >= BATCH_SIZE {
                    let mut full: Vec<Message> = Vec::with_capacity(BATCH_SIZE);
                    std::mem::swap(&mut full, &mut self.batch);
                    assert(full@.take(old(self)@.batch.len() as int) =~= old(self)@.batch);
                    return PublishOutcome::Batch(full);
                }
            }
        }
        PublishOutcome::Nothing
    }

    /// A message on a topic, received now. The clock is read for counter
    /// messages only; where it stands before the Unix epoch, the message is
    /// refused and the receiver stays as it is.
    pub fn on_publish(&mut self, topic: &str, payload: &[u8]) -> (r: Result<
        PublishOutcome,
        ClockBeforeEpoch,
    >)
        ensures
            !is_counter_topic(topic@) ==> r is Ok && forall|now: u128|
                (final(self)@, r->Ok_0@) == #[trigger] step(
                    old(self)@,
                    Incoming::Publish { topic: topic@, payload: payload@, now },
                ),
            is_counter_topic(topic@) ==> exists|t: std::time::SystemTime|
                match #[trigger] crate::clock::micros_at(t) {
                    Ok(now) => r is Ok && (final(self)@, r->Ok_0@) == step(
                        old(self)@,
                        Incoming::Publish { topic: topic@, payload: payload@, now },
                    ),
                    Err(e) => r == Err::<PublishOutcome, _>(e) && final(self)@ == old(self)@,
                },
    {
        if text::same_text(topic, GO_TOPIC) || !text::text_has_prefix(topic, COUNTER_PREFIX) {
            return Ok(self.on_publish_at(topic, payload, 0));
        }
        match now_us() {
            Ok(now) => Ok(self.on_publish_at(topic, payload, now)),
            Err(e) => Err(e),
        }
    }

    /// The connection has ended: the messages that have not been handed on.
    pub fn finish(self) -> (r: Option<Vec<Message>>)
        ensures
            match r {
                Some(batch) => batch@ == self@.batch && self@.batch.len() > 0,
                None => self@.batch.len() == 0,
            },
    {
        if self.batch.len() == 0 {
            None
        } else {
            Some(self.batch)
        }
    }
}

// ---------------------------------------------------------------------------
// Gathering
// ---------------------------------------------------------------------------

/// What can happen while the messages of a run are gathered.
#[derive(Debug)]
pub enum CollectEvent {
    /// A batch has come.
    Batch(Vec<Message>),
    /// No more batches can come.
    Closed,
    /// The time is over.
    WindowOver,
}

/// Takes in what has happened: whether to go on.
pub fn collect(messages: &mut Vec<Message>, event: CollectEvent) -> (more: bool)
    ensures
        match event {
            CollectEvent::Batch(batch) => more && final(messages)@ == old(messages)@ + batch@,
            _ => !more && final(messages)@ == old(messages)@,
        },
{
    match event {
        CollectEvent::Batch(batch) => {
            let mut batch = batch;
            messages.append(&mut batch);
            true
        },
        CollectEvent::Closed => false,
        CollectEvent::WindowOver => false,
    }
}

// ---------------------------------------------------------------------------
// Laws
// ---------------------------------------------------------------------------

/// No counter message is lost, repeated or put out of order: those handed on,
/// followed by those still held back, are those that were held back before,
/// followed by those that the packets brought.
pub proof fn law_messages_conserved(s: ReceiverState, events: Seq<Incoming>)
    ensures
        messages_handed_on(run(s, events).1) + run(s, events).0.batch == s.batch + messages_of(
            events,
        ),
    decreases events.len(),
{
    if events.len() == 0 {
        assert(messages_of(events) =~= Seq::empty());
    } else {
        let shorter = events.drop_last();
        law_messages_conserved(s, shorter);
        let before = run(s, shorter);
        let after = run(s, events);
        assert(after.1.drop_last() =~= before.1);
        let e = events.last();
        let handed_on = messages_handed_on(before.1);
        match message_of(e) {
            Some(m) => {
                assert(messages_of(events) == messages_of(shorter) + seq![m]);
                assert(handed_on + before.0.batch.push(m) =~= (handed_on + before.0.batch).push(m));
                assert((s.batch + messages_of(shorter)).push(m) =~= s.batch + messages_of(events));
                if before.0.batch.len() + 1 >= BATCH_SIZE {
                    assert(messages_handed_on(after.1) + after.0.batch =~= handed_on
                        + before.0.batch.push(m));
                }
            },
            None => {
                assert(messages_of(events) == messages_of(shorter));
            },
        }
    }
}

/// Every batch that is handed on holds exactly `BATCH_SIZE` messages, and
/// fewer than that are held back.
pub proof fn law_batches_full(s: ReceiverState, events: Seq<Incoming>)
    requires
        s.batch.len() < BATCH_SIZE,
    ensures
        run(s, events).0.batch.len() < BATCH_SIZE,
        forall|i: int|
            0 <= i < run(s, events).1.len() && (#[trigger] run(s, events).1[i]) is Batch ==> run(
                s,
                events,
            ).1[i]->Batch_0.len() == BATCH_SIZE,
    decreases events.len(),
{
    if events.len() > 0 {
        law_batches_full(s, events.drop_last());
        let before = run(s, events.drop_last());
        let after = run(s, events);
        let outgoing = after.1;
        assert forall|i: int|
            0 <= i < outgoing.len() && (#[trigger] outgoing[i]) is Batch
            implies outgoing[i]->Batch_0.len() == BATCH_SIZE by {
            if i < before.1.len() {
                assert(outgoing[i] == before.1[i]);
            }
        }
    }
}

/// Readiness is reported once, when the last of the subscriptions is
/// confirmed, and not before.
pub proof fn law_ready_once(events: Seq<Incoming>)
    ensures
        count_ready(run(initial_state(), events).1) == (if count_subacks(events)
            >= SUBSCRIPTIONS {
            1nat
        } else {
            0nat
        }),
        run(initial_state(), events).0.subacks_remaining == (if count_subacks(events)
            >= SUBSCRIPTIONS {
            0
        } else {
            SUBSCRIPTIONS - count_subacks(events)
        }),
    decreases events.len(),
{
    if events.len() > 0 {
        law_ready_once(events.drop_last());
        let before = run(initial_state(), events.drop_last());
        let after = run(initial_state(), events);
        assert(after.1.drop_last() =~= before.1);
    }
}

/// The run counts as done exactly if a packet reported it. Start and stop
/// signals on the same topic do not.
pub proof fn law_done_reported(events: Seq<Incoming>)
    ensures
        run(initial_state(), events).0.done <==> exists|i: int|
            0 <= i < events.len() && reports_done(#[trigger] events[i]),
    decreases events.len(),
{
    if events.len() > 0 {
        let shorter = events.drop_last();
        law_done_reported(shorter);
        let n = events.len() - 1;
        if reports_done(events[n]) {
        } else if exists|i: int| 0 <= i < events.len() && reports_done(#[trigger] events[i]) {
            let i = choose|i: int| 0 <= i < events.len() && reports_done(#[trigger] events[i]);
            assert(shorter[i] == events[i]);
        }
        if run(initial_state(), shorter).0.done {
            let i = choose|i: int| 0 <= i < shorter.len() && reports_done(#[trigger] shorter[i]);
            assert(events[i] == shorter[i]);
        }
    }
}

/// A confirmation counts once: it lowers the number of those that are waited
/// for, unless there are none, and readiness is reported when it falls to zero.
/// Nothing else changes.
pub proof fn law_confirmation_counts(s: ReceiverState)
    ensures
        step(s, Incoming::SubAck).0.batch == s.batch,
        step(s, Incoming::SubAck).0.done == s.done,
        s.subacks_remaining > 0 ==> step(s, Incoming::SubAck).0.subacks_remaining
            == s.subacks_remaining - 1,
        s.subacks_remaining == 0 ==> step(s, Incoming::SubAck).0.subacks_remaining == 0,
        step(s, Incoming::SubAck).1 == (if s.subacks_remaining == 1 {
            Outgoing::Ready
        } else {
            Outgoing::Nothing
        }),
{
}

/// Any other packet, and any message on a topic that is neither the counter's
/// nor that of the signals, changes nothing and leads to nothing.
pub proof fn law_other_packets_ignored(
    s: ReceiverState,
    topic: Seq<char>,
    payload: Seq<u8>,
    now: u128,
)
    requires
        topic != "request/go"@,
        forall|rest: Seq<char>| topic != #[trigger] ("counter/"@ + rest),
    ensures
        step(s, Incoming::Other) == (s, Outgoing::Nothing),
        step(s, Incoming::Publish { topic, payload, now }) == (s, Outgoing::Nothing),
{
    text::law_prefix_exact(topic, COUNTER_PREFIX@);
}

/// On the topic of the signals, the signal that the publisher is done is noted
/// and reported; everything else there is passed over.
pub proof fn law_signals_handled(s: ReceiverState, payload: Seq<u8>, now: u128)
    ensures
        step(s, Incoming::Publish { topic: "request/go"@, payload, now }) == (if payload
            == encode_utf8("done"@) {
            (
                ReceiverState {
                    batch: s.batch,
                    subacks_remaining: s.subacks_remaining,
                    done: true,
                },
                Outgoing::Done,
            )
        } else {
            (s, Outgoing::Nothing)
        }),
{
}

/// Whatever follows the prefix of the counter topics, the messages there are
/// gathered as their payloads read, and a payload that holds no message is
/// passed over. The message that completes a batch hands it on.
pub proof fn law_counter_messages_gathered(
    s: ReceiverState,
    rest: Seq<char>,
    payload: Seq<u8>,
    now: u128,
)
    ensures
        ({
            let (after, out) = step(
                s,
                Incoming::Publish { topic: "counter/"@ + rest, payload, now },
            );
            &&& after.subacks_remaining == s.subacks_remaining
            &&& after.done == s.done
            &&& match message::counter_message(payload, now) {
                Some(m) => if s.batch.len() + 1 < 4096 {
                    after.batch == s.batch.push(m) && out == Outgoing::Nothing
                } else {
                    after.batch == Seq::<Message>::empty() && out == Outgoing::Batch(
                        s.batch.push(m),
                    )
                },
                None => after.batch == s.batch && out == Outgoing::Nothing,
            }
        }),
{
    let topic = "counter/"@ + rest;
    text::law_prefix_exact(topic, COUNTER_PREFIX@);
    reveal_strlit("counter/");
    reveal_strlit("request/go");
    assert(topic[0] == 'c');
}

/// Packets are handled one after the other, each in the state that those before
/// it have led to.
pub proof fn law_packets_in_turn(s: ReceiverState, events: Seq<Incoming>, e: Incoming)
    ensures
        run(s, Seq::empty()) == (s, Seq::<Outgoing>::empty()),
        run(s, events.push(e)).0 == step(run(s, events).0, e).0,
        run(s, events.push(e)).1 == run(s, events).1.push(step(run(s, events).0, e).1),
{
    assert(events.push(e).drop_last() =~= events);
}

/// Another packet adds the message that it brings, if it brings one, behind
/// those of the packets before it.
pub proof fn law_messages_of_push(events: Seq<Incoming>, e: Incoming)
    ensures
        messages_of(Seq::empty()) == Seq::<Message>::empty(),
        messages_of(events.push(e)) == (match message_of(e) {
            Some(m) => messages_of(events).push(m),
            None => messages_of(events),
        }),
{
    assert(events.push(e).drop_last() =~= events);
    assert(messages_of(Seq::empty()) =~= Seq::<Message>::empty());
    if let Some(m) = message_of(e) {
        assert(messages_of(events.push(e)) =~= messages_of(events).push(m));
    }
}

/// A packet brings a message exactly if it comes on a topic with the prefix of
/// the counter topics and its payload holds one.
pub proof fn law_message_of_exact(topic: Seq<char>, payload: Seq<u8>, now: u128)
    ensures
        message_of(Incoming::SubAck) is None,
        message_of(Incoming::Other) is None,
        message_of(Incoming::Publish { topic, payload, now }) == (if exists|rest: Seq<char>|
            topic == #[trigger] ("counter/"@ + rest) {
            message::counter_message(payload, now)
        } else {
            None
        }),
{
    text::law_prefix_exact(topic, COUNTER_PREFIX@);
    reveal_strlit("counter/");
    reveal_strlit("request/go");
    if text::has_prefix(topic, COUNTER_PREFIX@) {
        assert(topic.take(8)[0] == 'c');
        assert(topic[0] == 'c');
    }
}

/// Every batch that is handed on adds its messages, behind those of the batches
/// before it; nothing else adds any.
pub proof fn law_handed_on_push(outgoing: Seq<Outgoing>, out: Outgoing, batch: Seq<Message>)
    ensures
        messages_handed_on(Seq::empty()) == Seq::<Message>::empty(),
        messages_handed_on(outgoing.push(Outgoing::Batch(batch))) == messages_handed_on(outgoing)
            + batch,
        !(out is Batch) ==> messages_handed_on(outgoing.push(out)) == messages_handed_on(outgoing),
{
    assert(outgoing.push(out).drop_last() =~= outgoing);
    assert(outgoing.push(Outgoing::Batch(batch)).drop_last() =~= outgoing);
}

/// The confirmations are counted one by one, and so are the reports of
/// readiness.
pub proof fn law_counts_exact(events: Seq<Incoming>, outgoing: Seq<Outgoing>)
    ensures
        count_subacks(events) == events.filter(|e: Incoming| e is SubAck).len(),
        count_ready(outgoing) == outgoing.filter(|out: Outgoing| out is Ready).len(),
    decreases events.len() + outgoing.len(),
{
    reveal(Seq::filter);
    if events.len() > 0 {
        law_counts_exact(events.drop_last(), outgoing);
    }
    if outgoing.len() > 0 {
        law_counts_exact(events, outgoing.drop_last());
    }
}

/// The view of what a message leads to shows which it is, and the whole batch.
pub proof fn law_outcome_view_faithful(r: PublishOutcome)
    ensures
        r@ == Outgoing::Nothing <==> r is Nothing,
        r@ == Outgoing::Done <==> r is Done,
        r matches PublishOutcome::Batch(batch) ==> r@ == Outgoing::Batch(batch@),
{
}

} // verus!
