//! The counter messages: `{seq}:{timestamp_us}:{padding}`.

use crate::clock::{now_us, ClockBeforeEpoch};
use crate::number;
use crate::text;
use vstd::prelude::*;
use vstd::slice::*;

verus! {

/// The byte that ends each number of a payload: an ASCII colon.
pub const COLON: u8 = 0x3a;

/// A counter message as it was received.
#[derive(Clone, Copy, Debug, PartialEq, Eq, Structural)]
pub struct Message {
    /// The position of the message in its burst.
    pub seq: u64,
    /// When it was sent, in microseconds since the Unix epoch.
    pub sent_us: u128,
    /// When it was received, in microseconds since the Unix epoch.
    pub recv_us: u128,
    /// How long it took, in microseconds. Negative where the sender's clock is
    /// ahead of the receiver's.
    pub latency_us: i64,
}

/// The integer that 64 bits in two's complement hold of `x`.
pub open spec fn wrap_i64(x: int) -> i64 {
    ((x + 0x8000_0000_0000_0000) % 0x1_0000_0000_0000_0000 - 0x8000_0000_0000_0000) as i64
}

/// The difference of two timestamps, in 64 bits.
pub open spec fn latency(recv_us: u128, sent_us: u128) -> i64 {
    wrap_i64(recv_us - sent_us)
}

proof fn lemma_truncate(x: u128)
    ensures
        (x as i64) as int == wrap_i64(x as int),
{
    assert(x as i64 == ((x % 0x1_0000_0000_0000_0000u128) as u64) as i64) by (bit_vector);
    let low: u64 = (x % 0x1_0000_0000_0000_0000u128) as u64;
    assert(low < 0x8000_0000_0000_0000u64 ==> low as i64 == low) by (bit_vector);
    assert(low >= 0x8000_0000_0000_0000u64 ==> low as i64 == low - 0x1_0000_0000_0000_0000)
        by (bit_vector);
}

/// The latency of a message: the low 64 bits of the difference of its two
/// timestamps, which is the difference itself for any two times less than
/// 292 000 years apart.
pub fn latency_us(recv_us: u128, sent_us: u128) -> (r: i64)
    ensures
        r == latency(recv_us, sent_us),
        (r - (recv_us - sent_us)) % 0x1_0000_0000_0000_0000 == 0,
{
    proof {
        lemma_truncate(recv_us);
        lemma_truncate(sent_us);
        law_latency_congruent(recv_us, sent_us);
    }
    let a: i64 = #[verifier::truncate] (recv_us as i64);
    let b: i64 = #[verifier::truncate] (sent_us as i64);
    a.wrapping_sub(b)
}

/// Wrapping to 64 bits changes a number by a multiple of two to the 64th, and
/// leaves one that fits as it is.
pub proof fn law_wrap_exact(x: int)
    ensures
        (wrap_i64(x) - x) % 0x1_0000_0000_0000_0000 == 0,
        i64::MIN <= x <= i64::MAX ==> wrap_i64(x) == x,
{
    let m = 0x1_0000_0000_0000_0000int;
    let shifted = x + 0x8000_0000_0000_0000;
    vstd::arithmetic::div_mod::lemma_fundamental_div_mod(shifted, m);
    let q = shifted / m;
    assert(wrap_i64(x) - x == -q * m);
    vstd::arithmetic::div_mod::lemma_mod_multiples_basic(-q, m);
}

/// The latency differs from the difference of the timestamps by a multiple of
/// two to the 64th.
pub proof fn law_latency_congruent(recv_us: u128, sent_us: u128)
    ensures
        (latency(recv_us, sent_us) - (recv_us - sent_us)) % 0x1_0000_0000_0000_0000 == 0,
{
    law_wrap_exact(recv_us - sent_us);
}

/// Where the difference of the timestamps fits in 64 bits, it is the latency.
pub proof fn law_latency_is_difference(recv_us: u128, sent_us: u128)
    requires
        i64::MIN <= recv_us - sent_us <= i64::MAX,
    ensures
        latency(recv_us, sent_us) == recv_us - sent_us,
{
}

// ---------------------------------------------------------------------------
// Payloads
// ---------------------------------------------------------------------------

/// The payload of a counter message: the sequence number and the timestamp in
/// decimal, each followed by a colon, then the padding.
pub open spec fn counter_payload_bytes(seq: u64, sent_us: u128, padding: Seq<u8>) -> Seq<u8> {
    number::ascii_bytes(number::decimal(seq as nat)) + seq![COLON] + number::ascii_bytes(
        number::decimal(sent_us as nat),
    ) + seq![COLON] + padding
}

/// The message that a payload holds when it is received at `now`: a sequence
/// number up to the first colon, a timestamp up to the second one, and
/// anything behind that.
pub open spec fn counter_message(payload: Seq<u8>, now: u128) -> Option<Message> {
    let colon1 = text::first_index(payload, COLON);
    let rest = payload.skip(colon1 + 1);
    let colon2 = text::first_index(rest, COLON);
    if colon1 < payload.len() && colon2 < rest.len() {
        match (
            number::utf8_number(payload.take(colon1), u64::MAX as nat),
            number::utf8_number(rest.take(colon2), u128::MAX as nat),
        ) {
            (Some(seq), Some(sent_us)) => Some(
                Message {
                    seq: seq as u64,
                    sent_us: sent_us as u128,
                    recv_us: now,
                    latency_us: latency(now, sent_us as u128),
                },
            ),
            _ => None,
        }
    } else {
        None
    }
}

/// Writes the payload of a counter message.
pub fn counter_payload(seq: u64, sent_us: u128, padding: &[u8]) -> (r: Vec<u8>)
    ensures
        r@ == counter_payload_bytes(seq, sent_us, padding@),
{
    let mut out: Vec<u8> = Vec::new();
    number::push_decimal_bytes(&mut out, seq as u128);
    out.push(COLON);
    number::push_decimal_bytes(&mut out, sent_us);
    out.push(COLON);
    out.extend_from_slice(padding);
    assert(out@ =~= counter_payload_bytes(seq, sent_us, padding@));
    out
}

/// Reads the payload of a counter message that is received at `now`.
pub fn parse_counter_payload_at(payload: &[u8], now: u128) -> (r: Option<Message>)
    ensures
        r == counter_message(payload@, now),
{
    let colon1: usize = text::find_byte(payload, COLON);
    if colon1 == payload.len() {
        return None;
    }
    let seq_field = slice_subrange(payload, 0, colon1);
    let rest = slice_subrange(payload, colon1 + 1, payload.len());
    proof {
        assert(seq_field@ =~= payload@.take(colon1 as int));
        assert(rest@ =~= payload@.skip(colon1 + 1));
        number::lemma_utf8_number(seq_field@, u64::MAX as nat);
    }
    let seq: u128 = match number::parse_unsigned_bytes(seq_field, u64::MAX as u128) {
        Some(v) => v,
        None => {
            return None;
        },
    };
    let colon2: usize = text::find_byte(rest, COLON);
    if colon2 == rest.len() {
        return None;
    }
    let sent_field = slice_subrange(rest, 0, colon2);
    proof {
        assert(sent_field@ =~= rest@.take(colon2 as int));
        number::lemma_utf8_number(sent_field@, u128::MAX as nat);
    }
    let sent_us: u128 = match number::parse_unsigned_bytes(sent_field, u128::MAX) {
        Some(v) => v,
        None => {
            return None;
        },
    };
    Some(
        Message {
            seq: seq as u64,
            sent_us,
            recv_us: now,
            latency_us: latency_us(now, sent_us),
        },
    )
}

/// Reads the payload of a counter message that is received now. The clock is
/// read once, before the payload. A clock that stands before the Unix epoch is
/// an error; otherwise the payload alone decides whether there is a message,
/// and the clock gives no more than its time of receipt.
pub fn parse_counter_payload(payload: &[u8]) -> (r: Result<Option<Message>, ClockBeforeEpoch>)
    ensures
        exists|t: std::time::SystemTime|
            match #[trigger] crate::clock::micros_at(t) {
                Ok(now) => r == Ok::<_, ClockBeforeEpoch>(counter_message(payload@, now)),
                Err(e) => r == Err::<Option<Message>, _>(e),
            },
{
    match now_us() {
        Ok(now) => Ok(parse_counter_payload_at(payload, now)),
        Err(e) => Err(e),
    }
}

/// What the publisher writes, the analyser reads back: the same sequence
/// number and the same timestamp, whatever the padding.
pub proof fn law_payload_round_trip(seq: u64, sent_us: u128, padding: Seq<u8>, now: u128)
    ensures
        counter_message(counter_payload_bytes(seq, sent_us, padding), now) == Some(
            Message { seq, sent_us, recv_us: now, latency_us: latency(now, sent_us) },
        ),
{
    let a = number::ascii_bytes(number::decimal(seq as nat));
    let b = number::ascii_bytes(number::decimal(sent_us as nat));
    let payload = counter_payload_bytes(seq, sent_us, padding);
    lemma_number_field(seq as nat, u64::MAX as nat);
    lemma_number_field(sent_us as nat, u128::MAX as nat);
    assert forall|j: int| 0 <= j < a.len() implies payload[j] != COLON by {
        assert(payload[j] == a[j]);
    }
    assert(payload[a.len() as int] == COLON);
    text::lemma_first_index(payload, COLON, a.len() as int);
    let rest = payload.skip(a.len() as int + 1);
    assert(rest =~= b + seq![COLON] + padding);
    assert forall|j: int| 0 <= j < b.len() implies rest[j] != COLON by {
        assert(rest[j] == b[j]);
    }
    assert(rest[b.len() as int] == COLON);
    text::lemma_first_index(rest, COLON, b.len() as int);
    assert(payload.take(a.len() as int) =~= a);
    assert(rest.take(b.len() as int) =~= b);
}

/// A number in decimal is a field that holds this number and no colon.
proof fn lemma_number_field(n: nat, max: nat)
    requires
        n <= max,
    ensures
        number::utf8_number(number::ascii_bytes(number::decimal(n)), max) == Some(n),
        forall|j: int|
            0 <= j < number::decimal(n).len() ==> #[trigger] number::ascii_bytes(
                number::decimal(n),
            )[j] != COLON,
{
    let s = number::decimal(n);
    let bytes = number::ascii_bytes(s);
    number::lemma_decimal(n);
    number::law_decimal_round_trip(n, max);
    number::lemma_utf8_number(bytes, max);
    assert forall|j: int| 0 <= j < s.len() implies #[trigger] bytes[j] != COLON by {
        assert(number::is_digit(s[j]));
    }
    assert(number::byte_chars(bytes) =~= s) by {
        assert forall|j: int| 0 <= j < s.len() implies number::byte_chars(bytes)[j] == s[j] by {
            assert(number::is_digit(s[j]));
        }
    }
}

/// A payload is the two numbers in decimal, a colon behind each, and the
/// padding; nothing else is in it, and nothing is left out.
pub proof fn law_payload_layout(seq: u64, sent_us: u128, padding: Seq<u8>, a: int, b: int)
    requires
        a == number::decimal(seq as nat).len(),
        b == number::decimal(sent_us as nat).len(),
    ensures
        counter_payload_bytes(seq, sent_us, padding).len() == a + b + 2 + padding.len(),
        forall|i: int|
            0 <= i < a ==> (#[trigger] counter_payload_bytes(seq, sent_us, padding)[i]) as int
                == number::decimal(seq as nat)[i] as int,
        counter_payload_bytes(seq, sent_us, padding)[a] == 0x3a,
        forall|i: int|
            0 <= i < b ==> (#[trigger] counter_payload_bytes(seq, sent_us, padding).skip(
                a + 1,
            )[i]) as int == number::decimal(sent_us as nat)[i] as int,
        counter_payload_bytes(seq, sent_us, padding)[a + 1 + b] == 0x3a,
        counter_payload_bytes(seq, sent_us, padding).skip(a + b + 2) == padding,
{
    let payload = counter_payload_bytes(seq, sent_us, padding);
    let first = number::decimal(seq as nat);
    let second = number::decimal(sent_us as nat);
    number::law_decimal_exact(seq as nat);
    number::law_decimal_exact(sent_us as nat);
    number::law_bytes_and_chars(Seq::empty(), first);
    number::law_bytes_and_chars(Seq::empty(), second);
    assert forall|i: int| 0 <= i < a implies (#[trigger] payload[i]) as int == first[i] as int by {
        assert('0' <= first[i] <= '9');
        assert(payload[i] == number::ascii_bytes(first)[i]);
    }
    assert forall|i: int| 0 <= i < b implies (#[trigger] payload.skip(a + 1)[i]) as int
        == second[i] as int by {
        assert('0' <= second[i] <= '9');
        assert(payload.skip(a + 1)[i] == number::ascii_bytes(second)[i]);
    }
    assert(payload.skip(a + b + 2) =~= padding);
}

/// A payload with two colons is read field by field: both fields must hold a
/// number, and what follows the second colon does not matter.
pub proof fn law_fields_decide(first: Seq<u8>, second: Seq<u8>, tail: Seq<u8>, now: u128)
    requires
        !first.contains(0x3a),
        !second.contains(0x3a),
    ensures
        match counter_message(first + seq![0x3au8] + second + seq![0x3au8] + tail, now) {
            Some(m) => {
                &&& number::utf8_number(first, u64::MAX as nat) == Some(m.seq as nat)
                &&& number::utf8_number(second, u128::MAX as nat) == Some(m.sent_us as nat)
                &&& m.recv_us == now
                &&& (m.latency_us - (now - m.sent_us)) % 0x1_0000_0000_0000_0000 == 0
            },
            None => {
                ||| number::utf8_number(first, u64::MAX as nat) is None
                ||| number::utf8_number(second, u128::MAX as nat) is None
            },
        },
{
    let payload = first + seq![0x3au8] + second + seq![0x3au8] + tail;
    let rest = payload.skip(first.len() as int + 1);
    assert forall|j: int| 0 <= j < first.len() implies payload[j] != COLON by {
        assert(payload[j] == first[j]);
        assert(first.contains(first[j]));
    }
    assert(payload[first.len() as int] == COLON);
    text::lemma_first_index(payload, COLON, first.len() as int);
    assert(rest =~= second + seq![0x3au8] + tail);
    assert forall|j: int| 0 <= j < second.len() implies rest[j] != COLON by {
        assert(rest[j] == second[j]);
        assert(second.contains(second[j]));
    }
    assert(rest[second.len() as int] == COLON);
    text::lemma_first_index(rest, COLON, second.len() as int);
    assert(payload.take(first.len() as int) =~= first);
    assert(rest.take(second.len() as int) =~= second);
    if let Some(m) = counter_message(payload, now) {
        law_latency_congruent(now, m.sent_us);
    }
}

/// A payload without two colons holds no message.
pub proof fn law_two_colons_needed(first: Seq<u8>, second: Seq<u8>, now: u128)
    requires
        !first.contains(0x3a),
        !second.contains(0x3a),
    ensures
        counter_message(first, now) is None,
        counter_message(first + seq![0x3au8] + second, now) is None,
{
    assert forall|j: int| 0 <= j < first.len() implies first[j] != COLON by {
        assert(first.contains(first[j]));
    }
    text::lemma_first_index(first, COLON, first.len() as int);
    let payload = first + seq![0x3au8] + second;
    let rest = payload.skip(first.len() as int + 1);
    assert forall|j: int| 0 <= j < first.len() implies payload[j] != COLON by {
        assert(payload[j] == first[j]);
    }
    assert(payload[first.len() as int] == COLON);
    text::lemma_first_index(payload, COLON, first.len() as int);
    assert(rest =~= second);
    assert forall|j: int| 0 <= j < second.len() implies second[j] != COLON by {
        assert(second.contains(second[j]));
    }
    text::lemma_first_index(rest, COLON, second.len() as int);
}

} // verus!
