//! The combinations of settings that are tested, and the order in which.

use crate::filters;
use crate::filters::Filters;
use crate::number;
use crate::text;
use crate::timing::TEST_DURATION_SECS;
use crate::topics;
use vstd::prelude::*;
use vstd::string::*;

verus! {

/// The qualities of service on the publisher side.
pub const PUB_QOS_VALUES: [u8; 3] = [0, 1, 2];

/// The delays between messages, in milliseconds.
pub const DELAY_VALUES: [u64; 2] = [0, 100];

/// The sizes of the padding, in bytes.
pub const MSG_SIZE_VALUES: [usize; 3] = [1, 1000, 4000];

/// The qualities of service on the subscriber side.
pub const SUB_QOS_VALUES: [u8; 3] = [0, 1, 2];

/// The number of combinations.
pub const CASES: usize = 54;

/// One combination of settings.
#[derive(Clone, Copy, Debug, PartialEq, Eq, Structural)]
pub struct TestCase {
    pub pub_qos: u8,
    pub delay_ms: u64,
    pub msg_size: usize,
    pub sub_qos: u8,
}

/// The combination at position `k`: the subscriber's quality of service varies
/// fastest, then the size, then the delay, then the publisher's.
pub open spec fn case_at(k: int) -> TestCase {
    TestCase {
        pub_qos: PUB_QOS_VALUES@[k / 18],
        delay_ms: DELAY_VALUES@[k / 9 % 2],
        msg_size: MSG_SIZE_VALUES@[k / 3 % 3],
        sub_qos: SUB_QOS_VALUES@[k % 3],
    }
}

/// All combinations, in order.
pub open spec fn all_cases() -> Seq<TestCase> {
    Seq::new(CASES as nat, |k: int| case_at(k))
}

/// The filters let the combination through.
pub open spec fn case_admitted(f: filters::FiltersView, c: TestCase) -> bool {
    f.admits_case(c.pub_qos, c.sub_qos, c.delay_ms, c.msg_size)
}

/// The combinations that pass the filters, in order.
pub open spec fn matrix(f: filters::FiltersView) -> Seq<TestCase> {
    all_cases().filter(|c: TestCase| case_admitted(f, c))
}

/// The combinations that pass the filters, in order.
pub fn test_matrix(filters: &Filters) -> (r: Vec<TestCase>)
    ensures
        r@ == matrix(filters@),
        r@.len() <= CASES,
        forall|c: TestCase| #[trigger]
            r@.contains(c) <==> {
                &&& c.pub_qos <= 2 && c.sub_qos <= 2
                &&& c.delay_ms == 0 || c.delay_ms == 100
                &&& c.msg_size == 1 || c.msg_size == 1000 || c.msg_size == 4000
                &&& filters.pub_qos matches Some(v) ==> v@.contains(c.pub_qos)
                &&& filters.sub_qos matches Some(v) ==> v@.contains(c.sub_qos)
                &&& filters.delay_ms matches Some(v) ==> v@.contains(c.delay_ms)
                &&& filters.msg_size matches Some(v) ==> v@.contains(c.msg_size)
            },
{
    let mut out: Vec<TestCase> = Vec::new();
    let ghost pred = |c: TestCase| case_admitted(filters@, c);
    let ghost all = all_cases();
    let mut k: usize = 0;
    proof {
        reveal(Seq::filter);
        assert(all.take(0).filter(pred) =~= Seq::empty());
    }
    while k < CASES
        invariant
            k <= CASES,
            all == all_cases(),
            pred == (|c: TestCase| case_admitted(filters@, c)),
            out@ == all.take(k as int).filter(pred),
            out@.len() <= k,
        decreases CASES - k,
    {
        let case = TestCase {
            pub_qos: PUB_QOS_VALUES[k / 18],
            delay_ms: DELAY_VALUES[k / 9 % 2],
            msg_size: MSG_SIZE_VALUES[k / 3 % 3],
            sub_qos: SUB_QOS_VALUES[k % 3],
        };
        proof {
            reveal(Seq::filter);
            assert(all.take(k + 1).drop_last() =~= all.take(k as int));
            assert(all.take(k + 1).last() == case);
        }
        if filters.matches(case.pub_qos, case.sub_qos, case.delay_ms, case.msg_size) {
            out.push(case);
        }
        k = k + 1;
    }
    assert(all.take(k as int) =~= all);
    proof {
        law_matrix_membership(filters@);
        filters::law_filters_view_faithful(*filters);
        assert(out@ == matrix(filters@));
    }
    out
}

// ---------------------------------------------------------------------------
// Schedule
// ---------------------------------------------------------------------------

/// A combination in words.
pub open spec fn label_text(c: TestCase) -> Seq<char> {
    "pubQoS="@ + number::decimal(c.pub_qos as nat) + "  subQoS="@ + number::decimal(
        c.sub_qos as nat,
    ) + "  delay="@ + number::decimal(c.delay_ms as nat) + "ms  size="@ + number::decimal(
        c.msg_size as nat,
    ) + "B"@
}

/// What is printed when the test number `num` of `total` starts. The number is
/// padded to the width of the total.
pub open spec fn progress_text(num: nat, total: nat, c: TestCase) -> Seq<char> {
    "["@ + text::pad_left(number::decimal(num), number::decimal(total).len()) + "/"@
        + number::decimal(total) + "] "@ + label_text(c) + " … "@
}

/// What is printed before the first of `total` tests.
pub open spec fn announcement_text(total: nat) -> Seq<char> {
    "Starting "@ + number::decimal(total) + " test(s) ("@ + number::decimal(
        TEST_DURATION_SECS as nat,
    ) + "s each) …\n"@
}

impl TestCase {
    /// The combination in words.
    pub fn label(&self) -> (r: String)
        ensures
            r@ == label_text(*self),
            r@ == "pubQoS="@ + number::decimal(self.pub_qos as nat) + "  subQoS="@
                + number::decimal(self.sub_qos as nat) + "  delay="@ + number::decimal(
                self.delay_ms as nat,
            ) + "ms  size="@ + number::decimal(self.msg_size as nat) + "B"@,
    {
        let mut out = "pubQoS=".to_owned();
        number::push_decimal(&mut out, self.pub_qos as u128);
        out.append("  subQoS=");
        number::push_decimal(&mut out, self.sub_qos as u128);
        out.append("  delay=");
        number::push_decimal(&mut out, self.delay_ms as u128);
        out.append("ms  size=");
        number::push_decimal(&mut out, self.msg_size as u128);
        out.append("B");
        out
    }
}

/// What to print before the first of `total` tests.
pub fn announcement(total: usize) -> (r: String)
    ensures
        r@ == announcement_text(total as nat),
        r@ == "Starting "@ + number::decimal(total as nat) + " test(s) ("@ + number::decimal(30)
            + "s each) …\n"@,
{
    let mut out = "Starting ".to_owned();
    number::push_decimal(&mut out, total as u128);
    out.append(" test(s) (");
    number::push_decimal(&mut out, TEST_DURATION_SECS as u128);
    out.append("s each) …\n");
    out
}

/// What to print when the test number `num` of `total` starts.
pub fn progress(num: usize, total: usize, case: &TestCase) -> (r: String)
    ensures
        r@ == progress_text(num as nat, total as nat, *case),
        r@ == "["@ + text::pad_left(
            number::decimal(num as nat),
            number::decimal(total as nat).len(),
        ) + "/"@ + number::decimal(total as nat) + "] "@ + label_text(*case) + " … "@,
{
    let mut num_text = String::new();
    number::push_decimal(&mut num_text, num as u128);
    let mut total_text = String::new();
    number::push_decimal(&mut total_text, total as u128);
    assert(num_text@ =~= number::decimal(num as nat));
    assert(total_text@ =~= number::decimal(total as nat));
    let width: usize = total_text.as_str().unicode_len();
    let mut out = "[".to_owned();
    text::push_padded(&mut out, num_text.as_str(), width);
    out.append("/");
    out.append(total_text.as_str());
    out.append("] ");
    let label = case.label();
    out.append(label.as_str());
    out.append(" … ");
    out
}

/// A test at its place in the schedule.
#[derive(Debug, PartialEq, Eq)]
pub struct ScheduledTest {
    /// What to print when it starts.
    pub progress: String,
    /// The settings.
    pub case: TestCase,
    /// Another test follows, after a pause.
    pub pause_after: bool,
}

/// The pause between two tests, in seconds.
pub const PAUSE_SECS: u64 = 1;

/// The test at position `i` of a schedule.
pub open spec fn is_scheduled(t: ScheduledTest, cases: Seq<TestCase>, i: int) -> bool {
    &&& t.case == cases[i]
    &&& t.progress@ == progress_text((i + 1) as nat, cases.len(), cases[i])
    &&& t.pause_after == (i + 1 < cases.len())
}

/// The tests to run, in order. The schedule is empty where no combination
/// passes the filters.
pub fn schedule(filters: &Filters) -> (r: Vec<ScheduledTest>)
    ensures
        r@.len() == matrix(filters@).len(),
        forall|i: int|
            0 <= i < r@.len() ==> is_scheduled(#[trigger] r@[i], matrix(filters@), i),
        forall|i: int|
            0 <= i < r@.len() ==> {
                &&& (#[trigger] r@[i]).case == matrix(filters@)[i]
                &&& r@[i].progress@ == progress_text(
                    (i + 1) as nat,
                    r@.len(),
                    matrix(filters@)[i],
                )
                &&& r@[i].pause_after <==> i + 1 < r@.len()
            },
{
    let cases = test_matrix(filters);
    let total: usize = cases.len();
    let mut out: Vec<ScheduledTest> = Vec::with_capacity(total);
    let mut i: usize = 0;
    while i < total
        invariant
            i <= total,
            total == cases@.len(),
            total <= CASES,
            cases@ == matrix(filters@),
            out@.len() == i,
            forall|j: int| 0 <= j < i ==> is_scheduled(#[trigger] out@[j], cases@, j),
        decreases total - i,
    {
        let case = cases[i];
        out.push(
            ScheduledTest {
                progress: progress(i + 1, total, &case),
                case,
                pause_after: i + 1 < total,
            },
        );
        i = i + 1;
    }
    out
}

// ---------------------------------------------------------------------------
// Laws
// ---------------------------------------------------------------------------

/// Every combination of the tested values occurs among the cases, and none
/// occurs twice.
pub proof fn law_all_cases_complete()
    ensures
        all_cases().no_duplicates(),
        forall|p: int, d: int, z: int, q: int|
            0 <= p < 3 && 0 <= d < 2 && 0 <= z < 3 && 0 <= q < 3 ==> #[trigger] all_cases().contains(
                TestCase {
                    pub_qos: PUB_QOS_VALUES@[p],
                    delay_ms: DELAY_VALUES@[d],
                    msg_size: MSG_SIZE_VALUES@[z],
                    sub_qos: SUB_QOS_VALUES@[q],
                },
            ),
{
    let all = all_cases();
    assert forall|i: int, j: int| 0 <= i < CASES && 0 <= j < CASES && i != j implies all[i]
        != all[j] by {
        assert(all[i] == case_at(i) && all[j] == case_at(j));
        assert(i == 18 * (i / 18) + 9 * (i / 9 % 2) + 3 * (i / 3 % 3) + i % 3);
        assert(j == 18 * (j / 18) + 9 * (j / 9 % 2) + 3 * (j / 3 % 3) + j % 3);
    }
    assert forall|p: int, d: int, z: int, q: int|
        0 <= p < 3 && 0 <= d < 2 && 0 <= z < 3 && 0 <= q < 3 implies #[trigger] all.contains(
        TestCase {
            pub_qos: PUB_QOS_VALUES@[p],
            delay_ms: DELAY_VALUES@[d],
            msg_size: MSG_SIZE_VALUES@[z],
            sub_qos: SUB_QOS_VALUES@[q],
        },
    ) by {
        let k = 18 * p + 9 * d + 3 * z + q;
        assert(k / 18 == p && k / 9 % 2 == d && k / 3 % 3 == z && k % 3 == q);
        assert(all[k] == case_at(k));
    }
}

/// The matrix holds the combinations that pass the filters, all of them, and
/// each once.
pub proof fn law_matrix_exact(f: filters::FiltersView)
    ensures
        forall|c: TestCase| #[trigger]
            matrix(f).contains(c) <==> all_cases().contains(c) && case_admitted(f, c),
        matrix(f).no_duplicates(),
{
    broadcast use vstd::seq_lib::group_filter_ensures;

    let all = all_cases();
    let pred = |c: TestCase| case_admitted(f, c);
    law_all_cases_complete();
    assert forall|c: TestCase| #[trigger] matrix(f).contains(c) implies all.contains(c)
        && case_admitted(f, c) by {
        all.lemma_filter_contains_rev(pred, c);
        let i = choose|i: int| 0 <= i < matrix(f).len() && matrix(f)[i] == c;
        assert(pred(matrix(f)[i]));
    }
    assert forall|c: TestCase| all.contains(c) && case_admitted(f, c) implies #[trigger] matrix(
        f,
    ).contains(c) by {
        let i = choose|i: int| 0 <= i < all.len() && all[i] == c;
        assert(pred(all[i]));
    }
    lemma_filter_no_duplicates(all, pred);
}

proof fn lemma_filter_no_duplicates(s: Seq<TestCase>, pred: spec_fn(TestCase) -> bool)
    requires
        s.no_duplicates(),
    ensures
        s.filter(pred).no_duplicates(),
    decreases s.len(),
{
    reveal(Seq::filter);
    if s.len() > 0 {
        let shorter = s.drop_last();
        lemma_filter_no_duplicates(shorter, pred);
        let kept = shorter.filter(pred);
        assert forall|i: int| 0 <= i < kept.len() implies kept[i] != s.last() by {
            assert(kept.contains(kept[i]));
            shorter.lemma_filter_contains_rev(pred, kept[i]);
            let j = choose|j: int| 0 <= j < shorter.len() && shorter[j] == kept[i];
            assert(s[j] == kept[i]);
        }
    }
}

/// Without filters all combinations are run.
pub proof fn law_no_filters_run_all()
    ensures
        matrix(filters::no_filters()) == all_cases(),
{
    lemma_filter_keeps_all(all_cases(), |c: TestCase| case_admitted(filters::no_filters(), c));
}

proof fn lemma_filter_keeps_all(s: Seq<TestCase>, pred: spec_fn(TestCase) -> bool)
    requires
        forall|c: TestCase| #[trigger] pred(c),
    ensures
        s.filter(pred) == s,
    decreases s.len(),
{
    reveal(Seq::filter);
    if s.len() > 0 {
        lemma_filter_keeps_all(s.drop_last(), pred);
        assert(s.drop_last().push(s.last()) =~= s);
        assert(pred(s.last()));
    }
}

/// The cases are the combinations of the three qualities of service on either
/// side, of no delay and a delay of 100 milliseconds, and of the sizes 1, 1000
/// and 4000, and no others.
pub proof fn law_cases_exact(c: TestCase)
    ensures
        all_cases().len() == 54,
        all_cases().contains(c) <==> {
            &&& c.pub_qos <= 2 && c.sub_qos <= 2
            &&& c.delay_ms == 0 || c.delay_ms == 100
            &&& c.msg_size == 1 || c.msg_size == 1000 || c.msg_size == 4000
        },
{
    let all = all_cases();
    if all.contains(c) {
        let k = choose|k: int| 0 <= k < all.len() && all[k] == c;
        assert(c == case_at(k));
        assert(0 <= k / 18 < 3 && 0 <= k / 9 % 2 < 2 && 0 <= k / 3 % 3 < 3 && 0 <= k % 3 < 3);
    }
    if c.pub_qos <= 2 && c.sub_qos <= 2 && (c.delay_ms == 0 || c.delay_ms == 100) && (c.msg_size
        == 1 || c.msg_size == 1000 || c.msg_size == 4000) {
        let d: int = if c.delay_ms == 0 {
            0
        } else {
            1
        };
        let z: int = if c.msg_size == 1 {
            0
        } else if c.msg_size == 1000 {
            1
        } else {
            2
        };
        let k = 18 * c.pub_qos + 9 * d + 3 * z + c.sub_qos;
        assert(k / 18 == c.pub_qos && k / 9 % 2 == d && k / 3 % 3 == z && k % 3 == c.sub_qos);
        assert(all[k] == case_at(k));
        assert(case_at(k) == c);
    }
}

/// The settings of `a` come before those of `b`: the publisher's quality of
/// service counts first, then the delay, then the size, then the subscriber's
/// quality of service.
pub open spec fn precedes(a: TestCase, b: TestCase) -> bool {
    ||| a.pub_qos < b.pub_qos
    ||| a.pub_qos == b.pub_qos && a.delay_ms < b.delay_ms
    ||| a.pub_qos == b.pub_qos && a.delay_ms == b.delay_ms && a.msg_size < b.msg_size
    ||| a.pub_qos == b.pub_qos && a.delay_ms == b.delay_ms && a.msg_size == b.msg_size && a.sub_qos
        < b.sub_qos
}

proof fn lemma_cases_ordered(i: int, j: int)
    requires
        0 <= i < j < CASES,
    ensures
        precedes(all_cases()[i], all_cases()[j]),
{
    assert(all_cases()[i] == case_at(i) && all_cases()[j] == case_at(j));
    assert(i == 18 * (i / 18) + 9 * (i / 9 % 2) + 3 * (i / 3 % 3) + i % 3);
    assert(j == 18 * (j / 18) + 9 * (j / 9 % 2) + 3 * (j / 3 % 3) + j % 3);
    assert(0 <= i / 18 < 3 && 0 <= j / 18 < 3);
}

proof fn lemma_filter_ordered(s: Seq<TestCase>, pred: spec_fn(TestCase) -> bool)
    requires
        forall|i: int, j: int| 0 <= i < j < s.len() ==> precedes(#[trigger] s[i], #[trigger] s[j]),
    ensures
        forall|i: int, j: int|
            0 <= i < j < s.filter(pred).len() ==> precedes(
                #[trigger] s.filter(pred)[i],
                #[trigger] s.filter(pred)[j],
            ),
    decreases s.len(),
{
    reveal(Seq::filter);
    if s.len() > 0 {
        let shorter = s.drop_last();
        assert forall|i: int, j: int| 0 <= i < j < shorter.len() implies precedes(
            #[trigger] shorter[i],
            #[trigger] shorter[j],
        ) by {
            assert(precedes(s[i], s[j]));
        }
        lemma_filter_ordered(shorter, pred);
        let kept = shorter.filter(pred);
        assert forall|i: int| 0 <= i < kept.len() implies precedes(#[trigger] kept[i], s.last()) by {
            assert(kept.contains(kept[i]));
            shorter.lemma_filter_contains_rev(pred, kept[i]);
            let j = choose|j: int| 0 <= j < shorter.len() && shorter[j] == kept[i];
            assert(precedes(s[j], s[s.len() - 1]));
        }
    }
}

/// The tests are run in the order of their settings: the publisher's quality of
/// service counts first, then the delay, then the size, then the subscriber's
/// quality of service. So none is run twice.
pub proof fn law_matrix_ordered(f: filters::FiltersView, i: int, j: int)
    requires
        0 <= i < j < matrix(f).len(),
    ensures
        ({
            let a = matrix(f)[i];
            let b = matrix(f)[j];
            ||| a.pub_qos < b.pub_qos
            ||| a.pub_qos == b.pub_qos && a.delay_ms < b.delay_ms
            ||| a.pub_qos == b.pub_qos && a.delay_ms == b.delay_ms && a.msg_size < b.msg_size
            ||| a.pub_qos == b.pub_qos && a.delay_ms == b.delay_ms && a.msg_size == b.msg_size
                && a.sub_qos < b.sub_qos
        }),
{
    let all = all_cases();
    assert forall|i: int, j: int| 0 <= i < j < all.len() implies precedes(
        #[trigger] all[i],
        #[trigger] all[j],
    ) by {
        lemma_cases_ordered(i, j);
    }
    lemma_filter_ordered(all, |c: TestCase| case_admitted(f, c));
    assert(precedes(matrix(f)[i], matrix(f)[j]));
}

/// A combination of the tested values is run exactly if each of its four values
/// occurs in its list, wherever it stands there, or has no list.
pub proof fn law_matrix_membership(f: filters::FiltersView)
    ensures
        forall|c: TestCase| #[trigger]
            matrix(f).contains(c) <==> {
                &&& c.pub_qos <= 2 && c.sub_qos <= 2
                &&& c.delay_ms == 0 || c.delay_ms == 100
                &&& c.msg_size == 1 || c.msg_size == 1000 || c.msg_size == 4000
                &&& f.pub_qos matches Some(v) ==> v.contains(c.pub_qos)
                &&& f.sub_qos matches Some(v) ==> v.contains(c.sub_qos)
                &&& f.delay_ms matches Some(v) ==> v.contains(c.delay_ms)
                &&& f.msg_size matches Some(v) ==> v.contains(c.msg_size)
            },
{
    law_matrix_exact(f);
    assert forall|c: TestCase| #[trigger] matrix(f).contains(c) <==> {
        &&& c.pub_qos <= 2 && c.sub_qos <= 2
        &&& c.delay_ms == 0 || c.delay_ms == 100
        &&& c.msg_size == 1 || c.msg_size == 1000 || c.msg_size == 4000
        &&& f.pub_qos matches Some(v) ==> v.contains(c.pub_qos)
        &&& f.sub_qos matches Some(v) ==> v.contains(c.sub_qos)
        &&& f.delay_ms matches Some(v) ==> v.contains(c.delay_ms)
        &&& f.msg_size matches Some(v) ==> v.contains(c.msg_size)
    } by {
        law_cases_exact(c);
        filters::law_dimensions_independent(f, c.pub_qos, c.sub_qos, c.delay_ms, c.msg_size);
    }
}

/// Where all four dimensions have a list, the combination of any of their
/// values is run, as long as these are among the tested ones.
pub proof fn law_listed_values_run(
    f: filters::FiltersView,
    c: TestCase,
    p: int,
    q: int,
    d: int,
    z: int,
)
    requires
        all_cases().contains(c),
        f.pub_qos matches Some(v) && 0 <= p < v.len() && v[p] == c.pub_qos,
        f.sub_qos matches Some(v) && 0 <= q < v.len() && v[q] == c.sub_qos,
        f.delay_ms matches Some(v) && 0 <= d < v.len() && v[d] == c.delay_ms,
        f.msg_size matches Some(v) && 0 <= z < v.len() && v[z] == c.msg_size,
    ensures
        matrix(f).contains(c),
{
    law_cases_exact(c);
    law_matrix_membership(f);
}

/// The words for a combination name its four settings, each behind its name and
/// in decimal.
pub proof fn law_label_layout(c: TestCase)
    ensures
        label_text(c) == "pubQoS="@ + number::decimal(c.pub_qos as nat) + "  subQoS="@
            + number::decimal(c.sub_qos as nat) + "  delay="@ + number::decimal(c.delay_ms as nat)
            + "ms  size="@ + number::decimal(c.msg_size as nat) + "B"@,
{
}

/// What is printed when a test starts holds its number, the number of tests and
/// the words for its settings. The numbers of all tests take up equally much
/// room.
pub proof fn law_progress_layout(num: nat, total: nat, c: TestCase)
    ensures
        progress_text(num, total, c) == "["@ + text::pad_left(
            number::decimal(num),
            number::decimal(total).len(),
        ) + "/"@ + number::decimal(total) + "] "@ + label_text(c) + " … "@,
        num <= total ==> text::pad_left(
            number::decimal(num),
            number::decimal(total).len(),
        ).len() == number::decimal(total).len(),
{
    if num <= total {
        number::law_decimal_length_monotone(num, total);
        text::law_pad_left_exact(number::decimal(num), number::decimal(total).len());
    }
}

/// What is printed before the first test holds the number of tests and how many
/// seconds each takes.
pub proof fn law_announcement_layout(total: nat)
    ensures
        announcement_text(total) == "Starting "@ + number::decimal(total) + " test(s) ("@
            + number::decimal(30) + "s each) …\n"@,
{
}

/// A test in the schedule has the settings of the combination at its place, is
/// announced with its number, counted from one, and the number of tests, and is
/// followed by a pause unless it is the last.
pub proof fn law_schedule_exact(t: ScheduledTest, cases: Seq<TestCase>, i: int)
    requires
        0 <= i < cases.len(),
        is_scheduled(t, cases, i),
    ensures
        t.case == cases[i],
        t.progress@ == progress_text((i + 1) as nat, cases.len(), cases[i]),
        t.pause_after <==> i != cases.len() - 1,
{
}

/// The words for a combination without the first setting.
spec fn label_rest(c: TestCase) -> Seq<char> {
    " subQoS="@ + number::decimal(c.sub_qos as nat) + "  delay="@ + number::decimal(
        c.delay_ms as nat,
    ) + "ms  size="@ + number::decimal(c.msg_size as nat) + "B"@
}

/// The words for a combination without the two qualities of service.
spec fn label_tail(c: TestCase) -> Seq<char> {
    " delay="@ + number::decimal(c.delay_ms as nat) + "ms  size="@ + number::decimal(
        c.msg_size as nat,
    ) + "B"@
}

/// The words for the size.
spec fn label_size(c: TestCase) -> Seq<char> {
    "s  size="@ + number::decimal(c.msg_size as nat) + "B"@
}

/// Each setting can be read off the words for a combination: it ends where the
/// words go on.
proof fn lemma_label_parts(c: TestCase)
    ensures
        label_text(c).skip(7) == number::decimal(c.pub_qos as nat) + seq![' '] + label_rest(c),
        label_rest(c).skip(8) == number::decimal(c.sub_qos as nat) + seq![' '] + label_tail(c),
        label_tail(c).skip(7) == number::decimal(c.delay_ms as nat) + seq!['m'] + label_size(c),
        label_size(c).skip(8) == number::decimal(c.msg_size as nat) + seq!['B'] + Seq::empty(),
{
    reveal_strlit("pubQoS=");
    reveal_strlit("  subQoS=");
    reveal_strlit(" subQoS=");
    reveal_strlit("  delay=");
    reveal_strlit(" delay=");
    reveal_strlit("ms  size=");
    reveal_strlit("s  size=");
    reveal_strlit("B");
    assert("  subQoS="@ =~= seq![' '] + " subQoS="@);
    assert("  delay="@ =~= seq![' '] + " delay="@);
    assert("ms  size="@ =~= seq!['m'] + "s  size="@);
    assert(label_text(c).skip(7) =~= number::decimal(c.pub_qos as nat) + seq![' '] + label_rest(c));
    assert(label_rest(c).skip(8) =~= number::decimal(c.sub_qos as nat) + seq![' '] + label_tail(c));
    assert(label_tail(c).skip(7) =~= number::decimal(c.delay_ms as nat) + seq!['m'] + label_size(
        c,
    ));
    assert(label_size(c).skip(8) =~= number::decimal(c.msg_size as nat) + seq!['B']
        + Seq::empty());
}

/// Different combinations are described in different words.
pub proof fn law_label_injective(a: TestCase, b: TestCase)
    requires
        label_text(a) == label_text(b),
    ensures
        a == b,
{
    let nothing = Seq::<char>::empty();
    lemma_label_parts(a);
    lemma_label_parts(b);
    topics::lemma_head_number(a.pub_qos as nat, ' ', label_rest(a));
    topics::lemma_head_number(b.pub_qos as nat, ' ', label_rest(b));
    number::law_decimal_injective(a.pub_qos as nat, b.pub_qos as nat);
    topics::lemma_head_number(a.sub_qos as nat, ' ', label_tail(a));
    topics::lemma_head_number(b.sub_qos as nat, ' ', label_tail(b));
    number::law_decimal_injective(a.sub_qos as nat, b.sub_qos as nat);
    topics::lemma_head_number(a.delay_ms as nat, 'm', label_size(a));
    topics::lemma_head_number(b.delay_ms as nat, 'm', label_size(b));
    number::law_decimal_injective(a.delay_ms as nat, b.delay_ms as nat);
    topics::lemma_head_number(a.msg_size as nat, 'B', nothing);
    topics::lemma_head_number(b.msg_size as nat, 'B', nothing);
    number::law_decimal_injective(a.msg_size as nat, b.msg_size as nat);
}

} // verus!
