//! The topics, payloads and client names on the broker.

use crate::number;
use crate::text;
use vstd::prelude::*;
use vstd::string::*;

verus! {

/// The topic on which runs are started, stopped and reported done.
pub const GO_TOPIC: &'static str = "request/go";

/// The topic on which the analyser announces all settings of a run at once, for
/// publishers that listen to it. The publisher of this crate does not: it takes
/// each setting from a topic of its own.
pub const CONFIG_TOPIC: &'static str = "request/config";

/// The topic that sets the publisher's quality of service.
pub const QOS_TOPIC: &'static str = "request/qos";

/// The topic that sets the publisher's delay.
pub const DELAY_TOPIC: &'static str = "request/delay";

/// The topic that sets the publisher's message size.
pub const SIZE_TOPIC: &'static str = "request/messagesize";

/// What every topic with counter messages starts with.
pub const COUNTER_PREFIX: &'static str = "counter/";

/// The signal that starts a burst.
pub const START: &'static str = "start";

/// The signal that stops a publisher that is still running.
pub const STOP: &'static str = "stop";

/// The signal that a burst is over.
pub const DONE: &'static str = "done";

/// Three numbers in decimal with a separator between them.
pub open spec fn triple(a: nat, b: nat, c: nat, separator: char) -> Seq<char> {
    number::decimal(a) + seq![separator] + number::decimal(b) + seq![separator] + number::decimal(c)
}

/// The topic of the counter messages for one choice of settings.
pub open spec fn counter_topic_text(qos: u8, delay_ms: u64, size: usize) -> Seq<char> {
    COUNTER_PREFIX@ + triple(qos as nat, delay_ms as nat, size as nat, '/')
}

/// The settings of a run as one payload.
pub open spec fn config_text(qos: u8, delay_ms: u64, size: usize) -> Seq<char> {
    triple(qos as nat, delay_ms as nat, size as nat, ':')
}

fn push_triple(out: &mut String, a: u64, b: u64, c: u64, separator: &str)
    requires
        separator@.len() == 1,
    ensures
        final(out)@ == old(out)@ + triple(a as nat, b as nat, c as nat, separator@[0]),
{
    number::push_decimal(out, a as u128);
    out.append(separator);
    number::push_decimal(out, b as u128);
    out.append(separator);
    number::push_decimal(out, c as u128);
    assert(separator@ =~= seq![separator@[0]]);
    assert(out@ =~= old(out)@ + triple(a as nat, b as nat, c as nat, separator@[0]));
}

/// The topic of the counter messages: `counter/{qos}/{delay_ms}/{size}`.
pub fn counter_topic(qos: u8, delay_ms: u64, size: usize) -> (r: String)
    ensures
        r@ == counter_topic_text(qos, delay_ms, size),
        r@ == "counter/"@ + number::decimal(qos as nat) + seq!['/'] + number::decimal(
            delay_ms as nat,
        ) + seq!['/'] + number::decimal(size as nat),
{
    let mut out = COUNTER_PREFIX.to_owned();
    proof {
        reveal_strlit("/");
    }
    push_triple(&mut out, qos as u64, delay_ms, size as u64, "/");
    proof {
        law_counter_topic_layout(qos, delay_ms, size);
    }
    out
}

/// The settings of a run as one payload: `{qos}:{delay_ms}:{size}`.
pub fn config_payload(qos: u8, delay_ms: u64, size: usize) -> (r: String)
    ensures
        r@ == config_text(qos, delay_ms, size),
        r@ == number::decimal(qos as nat) + seq![':'] + number::decimal(delay_ms as nat) + seq![':']
            + number::decimal(size as nat),
{
    let mut out = String::new();
    proof {
        reveal_strlit(":");
    }
    push_triple(&mut out, qos as u64, delay_ms, size as u64, ":");
    assert(out@ =~= config_text(qos, delay_ms, size));
    out
}

/// A number behind another one can be told apart from it: the first separator
/// ends the first number.
pub proof fn lemma_head_number(n: nat, separator: char, tail: Seq<char>)
    requires
        !number::is_digit(separator),
    ensures
        ({
            let s = number::decimal(n) + seq![separator] + tail;
            let k = text::first_index(s, separator);
            &&& k == number::decimal(n).len()
            &&& s.take(k) == number::decimal(n)
            &&& s.skip(k + 1) == tail
        }),
{
    let d = number::decimal(n);
    let s = d + seq![separator] + tail;
    number::lemma_decimal(n);
    assert forall|j: int| 0 <= j < d.len() implies s[j] != separator by {
        assert(number::is_digit(d[j]));
        assert(s[j] == d[j]);
    }
    text::lemma_first_index(s, separator, d.len() as int);
    assert(s.take(d.len() as int) =~= d);
    assert(s.skip(d.len() as int + 1) =~= tail);
}

/// Three numbers can be read back from their common text.
pub proof fn lemma_triple_injective(
    a: nat,
    b: nat,
    c: nat,
    x: nat,
    y: nat,
    z: nat,
    separator: char,
)
    requires
        !number::is_digit(separator),
        triple(a, b, c, separator) == triple(x, y, z, separator),
    ensures
        a == x,
        b == y,
        c == z,
{
    let t1 = number::decimal(b) + seq![separator] + number::decimal(c);
    let t2 = number::decimal(y) + seq![separator] + number::decimal(z);
    assert(triple(a, b, c, separator) =~= number::decimal(a) + seq![separator] + t1);
    assert(triple(x, y, z, separator) =~= number::decimal(x) + seq![separator] + t2);
    lemma_head_number(a, separator, t1);
    lemma_head_number(x, separator, t2);
    lemma_head_number(b, separator, number::decimal(c));
    lemma_head_number(y, separator, number::decimal(z));
    number::law_decimal_injective(a, x);
    number::law_decimal_injective(b, y);
    number::law_decimal_injective(c, z);
}

/// Runs with different settings use different topics, so that no run counts
/// the messages of another.
pub proof fn law_counter_topic_injective(
    qos1: u8,
    delay1: u64,
    size1: usize,
    qos2: u8,
    delay2: u64,
    size2: usize,
)
    requires
        counter_topic_text(qos1, delay1, size1) == counter_topic_text(qos2, delay2, size2),
    ensures
        qos1 == qos2,
        delay1 == delay2,
        size1 == size2,
{
    let t1 = triple(qos1 as nat, delay1 as nat, size1 as nat, '/');
    let t2 = triple(qos2 as nat, delay2 as nat, size2 as nat, '/');
    let n = COUNTER_PREFIX@.len() as int;
    assert(counter_topic_text(qos1, delay1, size1).skip(n) =~= t1);
    assert(counter_topic_text(qos2, delay2, size2).skip(n) =~= t2);
    lemma_triple_injective(
        qos1 as nat,
        delay1 as nat,
        size1 as nat,
        qos2 as nat,
        delay2 as nat,
        size2 as nat,
        '/',
    );
}

/// Different settings have different configuration payloads.
pub proof fn law_config_injective(
    qos1: u8,
    delay1: u64,
    size1: usize,
    qos2: u8,
    delay2: u64,
    size2: usize,
)
    requires
        config_text(qos1, delay1, size1) == config_text(qos2, delay2, size2),
    ensures
        qos1 == qos2,
        delay1 == delay2,
        size1 == size2,
{
    lemma_triple_injective(
        qos1 as nat,
        delay1 as nat,
        size1 as nat,
        qos2 as nat,
        delay2 as nat,
        size2 as nat,
        ':',
    );
}

/// Every topic with counter messages is recognised by its start, and none is
/// taken for the topic of the start and stop signals.
pub proof fn law_counter_topic_recognised(qos: u8, delay_ms: u64, size: usize)
    ensures
        text::has_prefix(counter_topic_text(qos, delay_ms, size), COUNTER_PREFIX@),
        counter_topic_text(qos, delay_ms, size) != GO_TOPIC@,
{
    let s = counter_topic_text(qos, delay_ms, size);
    assert(s.take(COUNTER_PREFIX@.len() as int) =~= COUNTER_PREFIX@);
    reveal_strlit("counter/");
    reveal_strlit("request/go");
    assert(s[0] == 'c');
}

/// The topic of the counter messages names the three settings in order, behind
/// the prefix and with a slash between them.
pub proof fn law_counter_topic_layout(qos: u8, delay_ms: u64, size: usize)
    ensures
        counter_topic_text(qos, delay_ms, size) == "counter/"@ + number::decimal(qos as nat)
            + seq!['/'] + number::decimal(delay_ms as nat) + seq!['/'] + number::decimal(
            size as nat,
        ),
{
    assert(counter_topic_text(qos, delay_ms, size) =~= "counter/"@ + number::decimal(qos as nat)
        + seq!['/'] + number::decimal(delay_ms as nat) + seq!['/'] + number::decimal(size as nat));
}

/// The configuration payload names the three settings in order, with a colon
/// between them.
pub proof fn law_config_layout(qos: u8, delay_ms: u64, size: usize)
    ensures
        config_text(qos, delay_ms, size) == number::decimal(qos as nat) + seq![':']
            + number::decimal(delay_ms as nat) + seq![':'] + number::decimal(size as nat),
{
}

} // verus!
