//! How long a run takes, and how many messages it is expected to bring.

use vstd::arithmetic::power2::*;
use vstd::prelude::*;

verus! {

/// The length of a burst, in seconds.
pub const TEST_DURATION_SECS: u64 = 30;

/// How long messages are still counted after a burst, in seconds.
pub const GRACE_PERIOD_SECS: u64 = 10;

/// The number of messages of a burst with a pause of `delay_ms` milliseconds
/// after each, if sending took no time.
pub open spec fn throttled_messages(delay_ms: u64) -> int
    recommends
        delay_ms > 0,
{
    TEST_DURATION_SECS * 1000 / delay_ms as int
}

/// The number of messages that a run is expected to bring. Without a delay
/// there is no such number.
pub fn expected_messages(delay_ms: u64) -> (r: Option<usize>)
    ensures
        match r {
            Some(n) => delay_ms > 0 && n == throttled_messages(delay_ms),
            None => delay_ms == 0,
        },
        r matches Some(n) ==> n * delay_ms <= 30_000 < (n + 1) * delay_ms,
{
    if delay_ms == 0 {
        None
    } else {
        proof {
            law_throttled_messages_exact(delay_ms);
        }
        let n: u64 = TEST_DURATION_SECS * 1000 / delay_ms;
        assert(n <= 30_000) by (nonlinear_arith)
            requires
                n == 30_000u64 / delay_ms,
                delay_ms > 0,
        ;
        Some(n as usize)
    }
}

/// So many pauses fit in a burst, and one more does not.
pub proof fn law_throttled_messages_exact(delay_ms: u64)
    requires
        delay_ms > 0,
    ensures
        throttled_messages(delay_ms) * delay_ms <= 30_000 < (throttled_messages(delay_ms) + 1)
            * delay_ms,
{
    let d = delay_ms as int;
    let q = 30_000int / d;
    vstd::arithmetic::div_mod::lemma_fundamental_div_mod(30_000, d);
    vstd::arithmetic::div_mod::lemma_mod_bound(30_000, d);
    assert(q * d <= 30_000 < (q + 1) * d) by (nonlinear_arith)
        requires
            d > 0,
            d * q <= 30_000 < d * q + d,
    ;
}

/// `r` is the smallest power of two that is at least `n`.
pub open spec fn is_next_power_of_two(n: int, r: int) -> bool {
    &&& exists|k: nat| r == #[trigger] pow2(k)
    &&& n <= r
    &&& forall|k: nat| n <= #[trigger] pow2(k) ==> r <= pow2(k)
}

/// The smallest power of two that is at least `n`.
fn next_power_of_two(n: usize) -> (r: usize)
    requires
        n <= 0x4000_0000,
    ensures
        is_next_power_of_two(n as int, r as int),
{
    let mut r: usize = 1;
    let ghost mut k: nat = 0;
    proof {
        lemma2_to64();
    }
    while r < n
        invariant
            r == pow2(k),
            n <= 0x4000_0000,
            k > 0 ==> pow2((k - 1) as nat) < n,
        decreases 2 * n - r,
    {
        proof {
            lemma_pow2_unfold(k + 1);
            lemma_pow2_pos(k);
            k = k + 1;
        }
        r = 2 * r;
    }
    proof {
        assert forall|j: nat| n <= #[trigger] pow2(j) implies r <= pow2(j) by {
            if j < k {
                if j < k - 1 {
                    lemma_pow2_strictly_increases(j, (k - 1) as nat);
                }
            } else if j > k {
                lemma_pow2_strictly_increases(k, j);
            }
        }
    }
    r
}

/// How many messages to make room for before a run: plenty for one without a
/// delay, and for a throttled one the expected number and some headroom,
/// rounded up to a power of two.
pub open spec fn is_initial_capacity(delay_ms: u64, capacity: int) -> bool {
    if delay_ms == 0 {
        capacity == 12_000_000
    } else {
        is_next_power_of_two(throttled_messages(delay_ms) + 64, capacity)
    }
}

/// How many messages to make room for before a run.
pub fn initial_capacity(delay_ms: u64) -> (r: usize)
    ensures
        is_initial_capacity(delay_ms, r as int),
        delay_ms == 0 ==> r == 12_000_000,
        delay_ms > 0 ==> exists|k: nat| r == #[trigger] pow2(k),
{
    match expected_messages(delay_ms) {
        None => 12_000_000,
        Some(n) => {
            assert(n <= 30_000) by {
                assert(throttled_messages(delay_ms) <= 30_000) by (nonlinear_arith)
                    requires
                        throttled_messages(delay_ms) == 30_000int / delay_ms as int,
                        delay_ms > 0,
                ;
            }
            next_power_of_two(n + 64)
        },
    }
}

/// There is room for all messages that a throttled run is expected to bring.
pub proof fn law_capacity_suffices(delay_ms: u64, capacity: int)
    requires
        delay_ms > 0,
        is_initial_capacity(delay_ms, capacity),
    ensures
        throttled_messages(delay_ms) < capacity,
{
}

/// There is one such capacity only.
pub proof fn law_capacity_unique(delay_ms: u64, a: int, b: int)
    requires
        is_initial_capacity(delay_ms, a),
        is_initial_capacity(delay_ms, b),
    ensures
        a == b,
{
}

/// Without a delay there is room for twelve million messages; with one, there
/// is room for the expected number and 64 more, in a power of two that is less
/// than twice as large.
pub proof fn law_capacity_exact(delay_ms: u64, capacity: int)
    requires
        is_initial_capacity(delay_ms, capacity),
    ensures
        delay_ms == 0 ==> capacity == 12_000_000,
        delay_ms > 0 ==> {
            &&& exists|k: nat| capacity == #[trigger] pow2(k)
            &&& throttled_messages(delay_ms) + 64 <= capacity
            &&& capacity < 2 * (throttled_messages(delay_ms) + 64)
        },
{
    if delay_ms > 0 {
        let n = throttled_messages(delay_ms) + 64;
        let d = delay_ms as int;
        assert(30_000int / d >= 0) by (nonlinear_arith)
            requires
                d > 0,
        ;
        let k = choose|k: nat| capacity == #[trigger] pow2(k);
        lemma2_to64();
        assert(k > 0);
        lemma_pow2_unfold(k);
        let half = pow2((k - 1) as nat);
        assert(half < n);
    }
}

} // verus!
