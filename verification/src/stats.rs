//! The figures of a run, as far as they are whole numbers.

use crate::matrix::TestCase;
use crate::message;
use crate::message::Message;
use crate::timing;
use crate::timing::expected_messages;
use vstd::prelude::*;
use vstd::relations::*;
use vstd::seq_lib::*;

verus! {

// ---------------------------------------------------------------------------
// Order
// ---------------------------------------------------------------------------

/// The elements in ascending order.
pub open spec fn ascending(s: Seq<i64>) -> Seq<i64> {
    s.sort_by(|a: i64, b: i64| a <= b)
}

/// No element is smaller than one before it.
pub open spec fn is_ascending(s: Seq<i64>) -> bool {
    forall|i: int, j: int| 0 <= i <= j < s.len() ==> s[i] <= s[j]
}

/// `slice::sort_unstable` of the standard library sorts in ascending order:
/// the elements stay the same, and no one is smaller than one before it.
#[verifier::external_body]
fn sort_unstable(data: &mut Vec<i64>)
    ensures
        is_ascending(final(data)@),
        final(data)@.to_multiset() == old(data)@.to_multiset(),
{
    data.sort_unstable();
}

proof fn lemma_ascending(s: Seq<i64>)
    ensures
        is_ascending(ascending(s)),
        ascending(s).to_multiset() == s.to_multiset(),
        ascending(s).len() == s.len(),
{
    let leq = |a: i64, b: i64| a <= b;
    assert(total_ordering(leq));
    s.lemma_sort_by_ensures(leq);
    assert forall|i: int, j: int| 0 <= i <= j < ascending(s).len() implies ascending(s)[i]
        <= ascending(s)[j] by {
        if i < j {
            assert(leq(ascending(s)[i], ascending(s)[j]));
        }
    }
    s.to_multiset_ensures();
    ascending(s).to_multiset_ensures();
}

proof fn lemma_ascending_unique(s: Seq<i64>, t: Seq<i64>)
    requires
        is_ascending(t),
        t.to_multiset() == s.to_multiset(),
    ensures
        t == ascending(s),
{
    let leq = |a: i64, b: i64| a <= b;
    lemma_ascending(s);
    assert(total_ordering(leq));
    assert(sorted_by(t, leq));
    assert(sorted_by(ascending(s), leq));
    lemma_sorted_unique(t, ascending(s), leq);
}

/// The two elements around a percentile in a sorted sequence.
#[derive(Clone, Copy, Debug, PartialEq, Eq, Structural)]
pub struct Bracket {
    /// The position of the lower one.
    pub index: usize,
    /// The element at this position.
    pub lower: i64,
    /// The next one, or the same where there is none.
    pub upper: i64,
}

/// The position of the percentile `p` among `n` sorted elements: the whole
/// part of `p` hundredths of the way from the first to the last.
pub open spec fn percentile_index(n: nat, p: nat) -> int {
    p * (n - 1) / 100
}

/// The elements around the percentile `p` of a sorted sequence.
pub open spec fn bracket_of(sorted: Seq<i64>, p: nat) -> Bracket {
    let i = percentile_index(sorted.len(), p);
    Bracket {
        index: i as usize,
        lower: sorted[i],
        upper: sorted[if i + 1 < sorted.len() {
            i + 1
        } else {
            i
        }],
    }
}

/// The elements around the percentile `p` of the elements of `s`.
pub open spec fn percentile_bracket(s: Seq<i64>, p: nat) -> Bracket {
    bracket_of(ascending(s), p)
}

proof fn lemma_percentile_index(n: nat, p: nat)
    requires
        n > 0,
        p <= 100,
    ensures
        0 <= percentile_index(n, p) < n,
{
    assert(0 <= p * (n - 1) <= 100 * (n - 1)) by (nonlinear_arith)
        requires
            n > 0,
            0 <= p <= 100,
    ;
}

/// The elements around the percentile `p` of a sorted sequence.
fn bracket(sorted: &Vec<i64>, p: u64) -> (r: Bracket)
    requires
        sorted@.len() > 0,
        p <= 100,
    ensures
        r == bracket_of(sorted@, p as nat),
{
    let n: usize = sorted.len();
    proof {
        lemma_percentile_index(n as nat, p as nat);
        assert(0 <= p * (n - 1) <= 100 * (n - 1)) by (nonlinear_arith)
            requires
                n > 0,
                0 <= p <= 100,
        ;
    }
    let steps: u128 = (p as u128) * ((n - 1) as u128);
    let index: usize = (steps / 100) as usize;
    let next: usize = if index + 1 < n {
        index + 1
    } else {
        index
    };
    Bracket { index, lower: sorted[index], upper: sorted[next] }
}

/// The elements around the median and the 99th percentile, found with one
/// sort. Without elements there are none.
pub fn percentiles_p50_p99(data: Vec<i64>) -> (r: (Option<Bracket>, Option<Bracket>))
    ensures
        r == (if data@.len() == 0 {
            (None, None)
        } else {
            (Some(percentile_bracket(data@, 50)), Some(percentile_bracket(data@, 99)))
        }),
        r.0 matches Some(b) ==> 100 * b.index <= 50 * (data@.len() - 1) < 100 * (b.index + 1)
            && data@.filter(|x: i64| x <= b.lower).len() > b.index && data@.filter(
            |x: i64| x >= b.lower,
        ).len() >= data@.len() - b.index,
        r.1 matches Some(b) ==> 100 * b.index <= 99 * (data@.len() - 1) < 100 * (b.index + 1)
            && data@.filter(|x: i64| x <= b.lower).len() > b.index && data@.filter(
            |x: i64| x >= b.lower,
        ).len() >= data@.len() - b.index,
{
    if data.len() == 0 {
        return (None, None);
    }
    let ghost original = data@;
    let mut data = data;
    sort_unstable(&mut data);
    proof {
        lemma_ascending_unique(original, data@);
        lemma_ascending(original);
        law_percentile_position(original, 50);
        law_percentile_position(original, 99);
        law_percentile_ranks(original, 50);
        law_percentile_ranks(original, 99);
    }
    (Some(bracket(&data, 50)), Some(bracket(&data, 99)))
}

// ---------------------------------------------------------------------------
// Mean and extremes
// ---------------------------------------------------------------------------

/// The sum of the elements.
pub open spec fn total(s: Seq<i64>) -> int
    decreases s.len(),
{
    if s.len() == 0 {
        0
    } else {
        total(s.drop_last()) + s.last()
    }
}

/// A mean as a fraction: the sum, in 64 bits, over the number of elements.
#[derive(Clone, Copy, Debug, PartialEq, Eq, Structural)]
pub struct Mean {
    pub sum: i64,
    pub count: usize,
}

/// The mean of the elements. Without elements there is none. The sum is kept
/// in 64 bits, and wraps where they do not hold it.
pub fn mean(data: &[i64]) -> (r: Option<Mean>)
    ensures
        match r {
            Some(m) => data@.len() > 0 && m.count == data@.len() && m.sum == message::wrap_i64(
                total(data@),
            ),
            None => data@.len() == 0,
        },
        r matches Some(m) ==> (m.sum - data@.fold_left(0int, |sum: int, x: i64| sum + x))
            % 0x1_0000_0000_0000_0000 == 0,
{
    if data.len() == 0 {
        return None;
    }
    let mut sum: i64 = 0;
    let mut i: usize = 0;
    while i < data.len()
        invariant
            i <= data@.len(),
            sum == message::wrap_i64(total(data@.take(i as int))),
        decreases data@.len() - i,
    {
        assert(data@.take(i + 1).drop_last() =~= data@.take(i as int));
        sum = sum.wrapping_add(data[i]);
        i = i + 1;
    }
    assert(data@.take(i as int) =~= data@);
    proof {
        law_total_is_sum(data@);
        message::law_wrap_exact(total(data@));
    }
    Some(Mean { sum, count: data.len() })
}

/// `m` is the smallest element.
pub open spec fn is_minimum(s: Seq<i64>, m: i64) -> bool {
    s.contains(m) && forall|i: int| 0 <= i < s.len() ==> m <= #[trigger] s[i]
}

/// `m` is the largest element.
pub open spec fn is_maximum(s: Seq<i64>, m: i64) -> bool {
    s.contains(m) && forall|i: int| 0 <= i < s.len() ==> #[trigger] s[i] <= m
}

/// The smallest element, if there is one.
pub fn minimum(data: &[i64]) -> (r: Option<i64>)
    ensures
        match r {
            Some(m) => is_minimum(data@, m),
            None => data@.len() == 0,
        },
        r matches Some(m) ==> (exists|i: int| 0 <= i < data@.len() && #[trigger] data@[i] == m) && (
        forall|i: int| 0 <= i < data@.len() ==> m <= #[trigger] data@[i]),
{
    if data.len() == 0 {
        return None;
    }
    let mut m: i64 = data[0];
    let mut i: usize = 1;
    while i < data.len()
        invariant
            1 <= i <= data@.len(),
            data@.contains(m),
            forall|j: int| 0 <= j < i ==> m <= #[trigger] data@[j],
        decreases data@.len() - i,
    {
        if data[i] < m {
            m = data[i];
        }
        i = i + 1;
    }
    Some(m)
}

/// The largest element, if there is one.
pub fn maximum(data: &[i64]) -> (r: Option<i64>)
    ensures
        match r {
            Some(m) => is_maximum(data@, m),
            None => data@.len() == 0,
        },
        r matches Some(m) ==> (exists|i: int| 0 <= i < data@.len() && #[trigger] data@[i] == m) && (
        forall|i: int| 0 <= i < data@.len() ==> #[trigger] data@[i] <= m),
{
    if data.len() == 0 {
        return None;
    }
    let mut m: i64 = data[0];
    let mut i: usize = 1;
    while i < data.len()
        invariant
            1 <= i <= data@.len(),
            data@.contains(m),
            forall|j: int| 0 <= j < i ==> #[trigger] data@[j] <= m,
        decreases data@.len() - i,
    {
        if data[i] > m {
            m = data[i];
        }
        i = i + 1;
    }
    Some(m)
}

// ---------------------------------------------------------------------------
// A run
// ---------------------------------------------------------------------------

/// The latencies of the messages, in order.
pub open spec fn latencies_of(messages: Seq<Message>) -> Seq<i64> {
    messages.map_values(|m: Message| m.latency_us)
}

/// The latencies of the messages, in order.
pub fn latencies(messages: &[Message]) -> (r: Vec<i64>)
    ensures
        r@ == latencies_of(messages@),
        r@.len() == messages@.len(),
        forall|i: int| 0 <= i < r@.len() ==> #[trigger] r@[i] == messages@[i].latency_us,
{
    let mut out: Vec<i64> = Vec::with_capacity(messages.len());
    let mut i: usize = 0;
    while i < messages.len()
        invariant
            i <= messages@.len(),
            out@ == latencies_of(messages@.take(i as int)),
        decreases messages@.len() - i,
    {
        out.push(messages[i].latency_us);
        i = i + 1;
        assert(out@ =~= latencies_of(messages@.take(i as int)));
    }
    assert(messages@.take(i as int) =~= messages@);
    out
}

/// The figures of a run.
#[derive(Clone, Copy, Debug, PartialEq, Eq, Structural)]
pub struct RunStats {
    /// The settings.
    pub case: TestCase,
    /// How many messages arrived.
    pub messages_received: usize,
    /// How many were expected, for a throttled run.
    pub messages_expected: Option<usize>,
    /// The smallest latency.
    pub latency_us_min: Option<i64>,
    /// The largest latency.
    pub latency_us_max: Option<i64>,
    /// The mean latency.
    pub latency_us_avg: Option<Mean>,
    /// The latencies around the median.
    pub latency_us_p50: Option<Bracket>,
    /// The latencies around the 99th percentile.
    pub latency_us_p99: Option<Bracket>,
    /// The publisher has reported that it is done.
    pub done_received: bool,
}

/// The figures are those of a run with these settings and messages.
pub open spec fn are_stats_of(
    stats: RunStats,
    case: TestCase,
    messages: Seq<Message>,
    done_received: bool,
) -> bool {
    let data = latencies_of(messages);
    &&& stats.case == case
    &&& stats.messages_received == messages.len()
    &&& match stats.messages_expected {
        Some(n) => case.delay_ms > 0 && n == timing::throttled_messages(case.delay_ms),
        None => case.delay_ms == 0,
    }
    &&& match stats.latency_us_min {
        Some(m) => is_minimum(data, m),
        None => data.len() == 0,
    }
    &&& match stats.latency_us_max {
        Some(m) => is_maximum(data, m),
        None => data.len() == 0,
    }
    &&& match stats.latency_us_avg {
        Some(m) => data.len() > 0 && m.count == data.len() && m.sum == message::wrap_i64(
            total(data),
        ),
        None => data.len() == 0,
    }
    &&& match stats.latency_us_p50 {
        Some(b) => data.len() > 0 && b == percentile_bracket(data, 50),
        None => data.len() == 0,
    }
    &&& match stats.latency_us_p99 {
        Some(b) => data.len() > 0 && b == percentile_bracket(data, 99),
        None => data.len() == 0,
    }
    &&& stats.done_received == done_received
}

/// The figures of a run with these settings and messages.
pub fn run_stats(case: TestCase, messages: &[Message], done_received: bool) -> (r: RunStats)
    ensures
        are_stats_of(r, case, messages@, done_received),
        r.case == case,
        r.messages_received == messages@.len(),
        r.done_received == done_received,
        match r.messages_expected {
            Some(n) => 0 < case.delay_ms && n * case.delay_ms <= 30_000 < (n + 1) * case.delay_ms,
            None => case.delay_ms == 0,
        },
        r.latency_us_min is None <==> messages@.len() == 0,
        r.latency_us_max is None <==> messages@.len() == 0,
        r.latency_us_avg is None <==> messages@.len() == 0,
        r.latency_us_p50 is None <==> messages@.len() == 0,
        r.latency_us_p99 is None <==> messages@.len() == 0,
        r.latency_us_min matches Some(m) ==> (exists|i: int|
            0 <= i < messages@.len() && (#[trigger] messages@[i]).latency_us == m) && (forall|i: int|
            0 <= i < messages@.len() ==> m <= (#[trigger] messages@[i]).latency_us),
        r.latency_us_max matches Some(m) ==> (exists|i: int|
            0 <= i < messages@.len() && (#[trigger] messages@[i]).latency_us == m) && (forall|i: int|
            0 <= i < messages@.len() ==> (#[trigger] messages@[i]).latency_us <= m),
        r.latency_us_avg matches Some(m) ==> m.count == messages@.len() && (m.sum
            - messages@.map_values(|x: Message| x.latency_us).fold_left(
            0int,
            |sum: int, x: i64| sum + x,
        )) % 0x1_0000_0000_0000_0000 == 0,
        r.latency_us_p50 matches Some(b) ==> 100 * b.index <= 50 * (messages@.len() - 1) < 100 * (
        b.index + 1) && b == percentile_bracket(
            messages@.map_values(|x: Message| x.latency_us),
            50,
        ),
        r.latency_us_p99 matches Some(b) ==> 100 * b.index <= 99 * (messages@.len() - 1) < 100 * (
        b.index + 1) && b == percentile_bracket(
            messages@.map_values(|x: Message| x.latency_us),
            99,
        ),
{
    let data = latencies(messages);
    let latency_us_min = minimum(data.as_slice());
    let latency_us_max = maximum(data.as_slice());
    let latency_us_avg = mean(data.as_slice());
    assert forall|i: int| 0 <= i < messages@.len() implies #[trigger] messages@[i].latency_us
        == data@[i] by {
        assert(data@[i] == messages@[i].latency_us);
    }
    assert(data@ =~= messages@.map_values(|x: Message| x.latency_us));
    let (latency_us_p50, latency_us_p99) = percentiles_p50_p99(data);
    RunStats {
        case,
        messages_received: messages.len(),
        messages_expected: expected_messages(case.delay_ms),
        latency_us_min,
        latency_us_max,
        latency_us_avg,
        latency_us_p50,
        latency_us_p99,
        done_received,
    }
}

// ---------------------------------------------------------------------------
// Laws
// ---------------------------------------------------------------------------

/// A percentile lies between the smallest and the largest element, and its
/// lower neighbour is not above its upper one.
pub proof fn law_percentile_in_range(s: Seq<i64>, p: nat, least: i64, greatest: i64)
    requires
        s.len() > 0,
        p <= 100,
        is_minimum(s, least),
        is_maximum(s, greatest),
    ensures
        least <= percentile_bracket(s, p).lower <= percentile_bracket(s, p).upper <= greatest,
{
    let sorted = ascending(s);
    lemma_ascending(s);
    lemma_percentile_index(s.len(), p);
    let i = percentile_index(s.len(), p);
    let j = if i + 1 < s.len() {
        i + 1
    } else {
        i
    };
    lemma_same_elements(s, sorted, i);
    lemma_same_elements(s, sorted, j);
}

/// Every element of one sequence occurs in another with the same elements.
proof fn lemma_same_elements(s: Seq<i64>, t: Seq<i64>, k: int)
    requires
        s.to_multiset() == t.to_multiset(),
        0 <= k < t.len(),
    ensures
        s.contains(t[k]),
{
    s.to_multiset_ensures();
    t.to_multiset_ensures();
    assert(t.contains(t[k]));
    assert(t.to_multiset().count(t[k]) > 0);
}

/// A higher percentile lies no lower.
pub proof fn law_percentiles_ordered(s: Seq<i64>, p: nat, q: nat)
    requires
        s.len() > 0,
        p <= q <= 100,
    ensures
        percentile_bracket(s, p).lower <= percentile_bracket(s, q).lower,
        percentile_bracket(s, p).upper <= percentile_bracket(s, q).upper,
{
    let n = s.len();
    lemma_ascending(s);
    lemma_percentile_index(n, p);
    lemma_percentile_index(n, q);
    assert(p * (n - 1) <= q * (n - 1)) by (nonlinear_arith)
        requires
            n > 0,
            p <= q,
    ;
    assert(percentile_index(n, p) <= percentile_index(n, q));
}

/// The percentiles do not depend on the order of the elements.
pub proof fn law_percentiles_ignore_order(s: Seq<i64>, t: Seq<i64>, p: nat)
    requires
        s.to_multiset() == t.to_multiset(),
    ensures
        percentile_bracket(s, p) == percentile_bracket(t, p),
{
    lemma_ascending(s);
    lemma_ascending_unique(t, ascending(s));
}

/// The mean lies between the smallest and the largest element, as long as 64
/// bits hold the sum.
pub proof fn law_mean_in_range(s: Seq<i64>, least: i64, greatest: i64)
    requires
        forall|i: int| 0 <= i < s.len() ==> least <= #[trigger] s[i] <= greatest,
        i64::MIN <= total(s) <= i64::MAX,
    ensures
        least * s.len() <= message::wrap_i64(total(s)) <= greatest * s.len(),
{
    lemma_total_bounds(s, least, greatest);
}

proof fn lemma_total_bounds(s: Seq<i64>, least: i64, greatest: i64)
    requires
        forall|i: int| 0 <= i < s.len() ==> least <= #[trigger] s[i] <= greatest,
    ensures
        least * s.len() <= total(s) <= greatest * s.len(),
    decreases s.len(),
{
    if s.len() > 0 {
        let shorter = s.drop_last();
        assert forall|i: int| 0 <= i < shorter.len() implies least <= #[trigger] shorter[i]
            <= greatest by {
            assert(shorter[i] == s[i]);
        }
        lemma_total_bounds(shorter, least, greatest);
        let n = s.len() as int;
        assert(least * n == least * (n - 1) + least) by (nonlinear_arith);
        assert(greatest * n == greatest * (n - 1) + greatest) by (nonlinear_arith);
    }
}

/// Sorting keeps the elements and puts them in order.
pub proof fn law_ascending_exact(s: Seq<i64>)
    ensures
        ascending(s).len() == s.len(),
        ascending(s).to_multiset() == s.to_multiset(),
        forall|i: int, j: int| 0 <= i <= j < s.len() ==> ascending(s)[i] <= ascending(s)[j],
{
    lemma_ascending(s);
}

/// The percentile `p` stands `p` hundredths of the way from the first to the
/// last of all the elements in order, rounded down; its upper neighbour is the
/// next element, unless it is the last itself.
pub proof fn law_percentile_position(s: Seq<i64>, p: nat)
    requires
        0 < s.len() <= usize::MAX,
        p <= 100,
    ensures
        percentile_bracket(s, p).index < s.len(),
        100 * percentile_bracket(s, p).index <= p * (s.len() - 1) < 100 * (percentile_bracket(
            s,
            p,
        ).index + 1),
        exists|t: Seq<i64>|
            {
                &&& #[trigger] t.to_multiset() == s.to_multiset()
                &&& t.len() == s.len()
                &&& forall|i: int, j: int| 0 <= i <= j < t.len() ==> t[i] <= t[j]
                &&& percentile_bracket(s, p).lower == t[percentile_bracket(s, p).index as int]
                &&& percentile_bracket(s, p).index + 1 < s.len() ==> percentile_bracket(s, p).upper
                    == t[percentile_bracket(s, p).index + 1]
                &&& percentile_bracket(s, p).index + 1 == s.len() ==> percentile_bracket(s, p).upper
                    == percentile_bracket(s, p).lower
            },
{
    lemma_ascending(s);
    lemma_percentile_index(s.len(), p);
    let t = ascending(s);
    assert(t.to_multiset() == s.to_multiset());
}

/// Counted among all the elements, more of them than the position of the
/// percentile are not above its lower neighbour, and as many as from there to
/// the end are not below it.
pub proof fn law_percentile_ranks(s: Seq<i64>, p: nat)
    requires
        0 < s.len() <= usize::MAX,
        p <= 100,
    ensures
        s.filter(|x: i64| x <= percentile_bracket(s, p).lower).len() > percentile_bracket(
            s,
            p,
        ).index,
        s.filter(|x: i64| x >= percentile_bracket(s, p).lower).len() >= s.len()
            - percentile_bracket(s, p).index,
        s.filter(|x: i64| x < percentile_bracket(s, p).lower).len() <= percentile_bracket(
            s,
            p,
        ).index,
{
    lemma_ascending(s);
    lemma_percentile_index(s.len(), p);
    let b = percentile_bracket(s, p);
    let i = b.index as int;
    let t = ascending(s);
    let below = |x: i64| x <= b.lower;
    let above = |x: i64| x >= b.lower;
    let less = |x: i64| x < b.lower;
    lemma_same_count(s, t, below);
    lemma_same_count(s, t, above);
    lemma_same_count(s, t, less);
    assert(t =~= t.take(i + 1) + t.skip(i + 1));
    Seq::filter_distributes_over_add(t.take(i + 1), t.skip(i + 1), below);
    assert forall|k: int| 0 <= k < i + 1 implies below(#[trigger] t.take(i + 1)[k]) by {
        assert(t[k] <= t[i]);
    }
    lemma_count_all(t.take(i + 1), below);
    assert(t =~= t.take(i) + t.skip(i));
    Seq::filter_distributes_over_add(t.take(i), t.skip(i), above);
    assert forall|k: int| 0 <= k < t.len() - i implies above(#[trigger] t.skip(i)[k]) by {
        assert(t[i] <= t[i + k]);
    }
    lemma_count_all(t.skip(i), above);
    Seq::filter_distributes_over_add(t.take(i), t.skip(i), less);
    assert forall|k: int| 0 <= k < t.len() - i implies !less(#[trigger] t.skip(i)[k]) by {
        assert(t[i] <= t[i + k]);
    }
    lemma_count_none(t.skip(i), less);
    t.take(i).lemma_filter_len(less);
}

proof fn lemma_count_all(s: Seq<i64>, pred: spec_fn(i64) -> bool)
    requires
        forall|k: int| 0 <= k < s.len() ==> pred(#[trigger] s[k]),
    ensures
        s.filter(pred).len() == s.len(),
    decreases s.len(),
{
    reveal(Seq::filter);
    if s.len() > 0 {
        assert forall|k: int| 0 <= k < s.len() - 1 implies pred(#[trigger] s.drop_last()[k]) by {
            assert(pred(s[k]));
        }
        lemma_count_all(s.drop_last(), pred);
        assert(pred(s[s.len() - 1]));
    }
}

proof fn lemma_count_none(s: Seq<i64>, pred: spec_fn(i64) -> bool)
    requires
        forall|k: int| 0 <= k < s.len() ==> !pred(#[trigger] s[k]),
    ensures
        s.filter(pred).len() == 0,
    decreases s.len(),
{
    reveal(Seq::filter);
    if s.len() > 0 {
        assert forall|k: int| 0 <= k < s.len() - 1 implies !pred(#[trigger] s.drop_last()[k]) by {
            assert(!pred(s[k]));
        }
        lemma_count_none(s.drop_last(), pred);
        assert(!pred(s[s.len() - 1]));
    }
}

/// An element at index `j` counts, whatever stands around it.
proof fn lemma_count_without(s: Seq<i64>, pred: spec_fn(i64) -> bool, j: int)
    requires
        0 <= j < s.len(),
    ensures
        s.filter(pred).len() == s.remove(j).filter(pred).len() + (if pred(s[j]) {
            1int
        } else {
            0
        }),
{
    let x = seq![s[j]];
    assert(s =~= s.take(j) + x + s.skip(j + 1));
    assert(s.remove(j) =~= s.take(j) + s.skip(j + 1));
    Seq::filter_distributes_over_add(s.take(j) + x, s.skip(j + 1), pred);
    Seq::filter_distributes_over_add(s.take(j), x, pred);
    Seq::filter_distributes_over_add(s.take(j), s.skip(j + 1), pred);
    reveal(Seq::filter);
    assert(x.drop_last() =~= Seq::empty());
    assert(x.drop_last().filter(pred).len() == 0);
}

/// Sequences with the same elements have equally many that satisfy `pred`.
proof fn lemma_same_count(s: Seq<i64>, t: Seq<i64>, pred: spec_fn(i64) -> bool)
    requires
        s.to_multiset() == t.to_multiset(),
    ensures
        s.filter(pred).len() == t.filter(pred).len(),
    decreases s.len(),
{
    broadcast use group_to_multiset_ensures;

    if s.len() > 0 {
        let last = s.len() - 1;
        lemma_same_elements(t, s, last);
        let j = choose|j: int| 0 <= j < t.len() && t[j] == s[last];
        assert(s.remove(last).to_multiset() =~= t.remove(j).to_multiset());
        lemma_same_count(s.remove(last), t.remove(j), pred);
        lemma_count_without(s, pred, last);
        lemma_count_without(t, pred, j);
    } else {
        s.to_multiset_ensures();
        t.to_multiset_ensures();
        assert(s =~= t);
    }
}

/// The percentile 100 is the largest element, and the percentile 0 the
/// smallest.
pub proof fn law_percentile_extremes(s: Seq<i64>)
    requires
        0 < s.len() <= usize::MAX,
    ensures
        s.contains(percentile_bracket(s, 100).lower),
        s.contains(percentile_bracket(s, 0).lower),
        forall|i: int| 0 <= i < s.len() ==> #[trigger] s[i] <= percentile_bracket(s, 100).lower,
        forall|i: int| 0 <= i < s.len() ==> percentile_bracket(s, 0).lower <= #[trigger] s[i],
{
    let t = ascending(s);
    let n = s.len() as int;
    lemma_ascending(s);
    assert(percentile_index(s.len(), 100) == n - 1);
    assert(percentile_index(s.len(), 0) == 0);
    lemma_same_elements(s, t, n - 1);
    lemma_same_elements(s, t, 0);
    assert forall|i: int| 0 <= i < s.len() implies t[0] <= #[trigger] s[i] <= t[n - 1] by {
        lemma_same_elements(t, s, i);
        let j = choose|j: int| 0 <= j < t.len() && t[j] == s[i];
        assert(t[0] <= t[j] <= t[n - 1]);
    }
}

/// One more element adds itself to the sum.
pub proof fn law_total_push(s: Seq<i64>, x: i64)
    ensures
        total(Seq::<i64>::empty()) == 0,
        total(s.push(x)) == total(s) + x,
{
    assert(s.push(x).drop_last() =~= s);
}

/// The sum of two sequences behind each other is the sum of their sums.
pub proof fn law_total_append(s: Seq<i64>, t: Seq<i64>)
    ensures
        total(s + t) == total(s) + total(t),
    decreases t.len(),
{
    if t.len() == 0 {
        assert(s + t =~= s);
    } else {
        law_total_append(s, t.drop_last());
        assert((s + t).drop_last() =~= s + t.drop_last());
    }
}

/// The sum takes in every element once, in order.
pub proof fn law_total_is_sum(s: Seq<i64>)
    ensures
        total(s) == s.fold_left(0int, |sum: int, x: i64| sum + x),
    decreases s.len(),
{
    if s.len() > 0 {
        law_total_is_sum(s.drop_last());
    }
}

/// The sum does not depend on the order of the elements.
pub proof fn law_total_ignores_order(s: Seq<i64>, t: Seq<i64>)
    requires
        s.to_multiset() == t.to_multiset(),
    ensures
        total(s) == total(t),
    decreases s.len(),
{
    broadcast use group_to_multiset_ensures;

    if s.len() > 0 {
        let last = s.len() - 1;
        lemma_same_elements(t, s, last);
        let j = choose|j: int| 0 <= j < t.len() && t[j] == s[last];
        assert(s.remove(last).to_multiset() =~= t.remove(j).to_multiset());
        law_total_ignores_order(s.remove(last), t.remove(j));
        lemma_total_without(s, last);
        lemma_total_without(t, j);
    } else {
        s.to_multiset_ensures();
        t.to_multiset_ensures();
        assert(s =~= t);
    }
}

proof fn lemma_total_without(s: Seq<i64>, j: int)
    requires
        0 <= j < s.len(),
    ensures
        total(s) == total(s.remove(j)) + s[j],
{
    assert(s =~= s.take(j).push(s[j]) + s.skip(j + 1));
    assert(s.remove(j) =~= s.take(j) + s.skip(j + 1));
    law_total_append(s.take(j).push(s[j]), s.skip(j + 1));
    law_total_append(s.take(j), s.skip(j + 1));
    law_total_push(s.take(j), s[j]);
}

/// There is one latency for each message, at its place.
pub proof fn law_latencies_exact(messages: Seq<Message>)
    ensures
        latencies_of(messages).len() == messages.len(),
        forall|i: int|
            0 <= i < messages.len() ==> #[trigger] latencies_of(messages)[i]
                == messages[i].latency_us,
{
}

/// One more message adds one more latency; the others stay at their places.
pub proof fn law_latencies_push(messages: Seq<Message>, m: Message)
    ensures
        latencies_of(messages.push(m)) == latencies_of(messages).push(m.latency_us),
{
    assert(latencies_of(messages.push(m)) =~= latencies_of(messages).push(m.latency_us));
}

/// A run has one set of figures only.
pub proof fn law_stats_unique(
    a: RunStats,
    b: RunStats,
    case: TestCase,
    messages: Seq<Message>,
    done_received: bool,
)
    requires
        are_stats_of(a, case, messages, done_received),
        are_stats_of(b, case, messages, done_received),
    ensures
        a == b,
{
    let data = latencies_of(messages);
    if data.len() > 0 {
        let (m, n) = (a.latency_us_min->0, b.latency_us_min->0);
        assert(data.contains(m) && data.contains(n));
        let (m, n) = (a.latency_us_max->0, b.latency_us_max->0);
        assert(data.contains(m) && data.contains(n));
    }
}

} // verus!
