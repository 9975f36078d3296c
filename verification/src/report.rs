//! What is printed of the results.

use crate::number;
use crate::text;
use vstd::prelude::*;
use vstd::string::*;

verus! {

/// The width of the table, in characters.
pub const TABLE_WIDTH: usize = 100;

/// A line of the table. Figures with a fraction come as text.
#[derive(Debug)]
pub struct SummaryRow {
    pub pub_qos: u8,
    pub sub_qos: u8,
    pub delay_ms: u64,
    pub msg_size: usize,
    pub messages_received: usize,
    /// The messages per second, without a fraction.
    pub throughput: String,
    /// The mean latency.
    pub latency_avg: Option<String>,
    /// The 99th percentile of the latency.
    pub latency_p99: Option<String>,
    /// The smallest latency.
    pub latency_min: Option<i64>,
    /// The largest latency.
    pub latency_max: Option<i64>,
    /// Why the test failed, if it did.
    pub error: Option<String>,
}

/// A column with a number.
pub open spec fn number_column(n: nat, width: nat) -> Seq<char> {
    text::pad_left(number::decimal(n), width)
}

/// A text, or a mark that there is none.
pub open spec fn text_or_mark(s: Option<String>) -> Seq<char> {
    match s {
        Some(s) => s@,
        None => "N/A"@,
    }
}

/// A number, or a mark that there is none.
pub open spec fn number_or_mark(n: Option<i64>) -> Seq<char> {
    match n {
        Some(n) => number::signed_decimal(n as int),
        None => "N/A"@,
    }
}

/// The settings at the start of a line.
pub open spec fn settings_columns(r: SummaryRow) -> Seq<char> {
    number_column(r.pub_qos as nat, 5) + " "@ + number_column(r.sub_qos as nat, 5) + " "@
        + number_column(r.delay_ms as nat, 5) + "ms "@ + number_column(r.msg_size as nat, 4) + "B"@
}

/// The figures behind the settings.
pub open spec fn figure_columns(r: SummaryRow) -> Seq<char> {
    "  "@ + number_column(r.messages_received as nat, 7) + " "@ + text::pad_left(
        r.throughput@,
        7,
    ) + "/s "@ + text::pad_left(text_or_mark(r.latency_avg), 10) + " "@ + text::pad_left(
        text_or_mark(r.latency_p99),
        10,
    ) + " "@ + text::pad_left(number_or_mark(r.latency_min), 10) + " "@ + text::pad_left(
        number_or_mark(r.latency_max),
        10,
    )
}

/// A line of the table: the settings, and the figures or the error.
pub open spec fn row_text(r: SummaryRow) -> Seq<char> {
    settings_columns(r) + match r.error {
        Some(e) => "    ERROR: "@ + e@,
        None => figure_columns(r),
    }
}

/// The head of the table.
pub open spec fn header_text() -> Seq<char> {
    text::pad_left("pubQ"@, 5) + " "@ + text::pad_left("subQ"@, 5) + " "@ + text::pad_left(
        "delay"@,
        6,
    ) + " "@ + text::pad_left("size"@, 5) + "  "@ + text::pad_left("msgs"@, 7) + " "@
        + text::pad_left("msg/s"@, 8) + " "@ + text::pad_left("avg(µs)"@, 10) + " "@
        + text::pad_left("p99(µs)"@, 10) + " "@ + text::pad_left("min(µs)"@, 10) + " "@
        + text::pad_left("max(µs)"@, 10)
}

/// The lines of the table, each with its line end.
pub open spec fn rows_text(rows: Seq<SummaryRow>) -> Seq<char>
    decreases rows.len(),
{
    if rows.len() == 0 {
        Seq::empty()
    } else {
        rows_text(rows.drop_last()) + row_text(rows.last()) + "\n"@
    }
}

/// The whole table: an empty line, then the head and the lines between rulers.
pub open spec fn summary_text(rows: Seq<SummaryRow>) -> Seq<char> {
    "\n"@ + text::repeated('=', TABLE_WIDTH as nat) + "\n"@ + header_text() + "\n"@
        + text::repeated('-', TABLE_WIDTH as nat) + "\n"@ + rows_text(rows) + text::repeated(
        '=',
        TABLE_WIDTH as nat,
    ) + "\n"@
}

fn push_number_column(out: &mut String, n: u64, width: usize)
    ensures
        final(out)@ == old(out)@ + number_column(n as nat, width as nat),
{
    let mut s = String::new();
    number::push_decimal(&mut s, n as u128);
    assert(s@ =~= number::decimal(n as nat));
    text::push_padded(out, s.as_str(), width);
}

fn push_text_column(out: &mut String, s: &Option<String>, width: usize)
    ensures
        final(out)@ == old(out)@ + text::pad_left(text_or_mark(*s), width as nat),
{
    match s {
        Some(s) => text::push_padded(out, s.as_str(), width),
        None => text::push_padded(out, "N/A", width),
    }
}

fn push_signed_column(out: &mut String, n: Option<i64>, width: usize)
    ensures
        final(out)@ == old(out)@ + text::pad_left(number_or_mark(n), width as nat),
{
    match n {
        Some(n) => {
            let mut s = String::new();
            number::push_signed_decimal(&mut s, n);
            assert(s@ =~= number::signed_decimal(n as int));
            text::push_padded(out, s.as_str(), width);
        },
        None => text::push_padded(out, "N/A", width),
    }
}

fn header() -> (r: String)
    ensures
        r@ == header_text(),
{
    let mut out = String::new();
    text::push_padded(&mut out, "pubQ", 5);
    assert(out@ =~= text::pad_left("pubQ"@, 5));
    out.append(" ");
    text::push_padded(&mut out, "subQ", 5);
    out.append(" ");
    text::push_padded(&mut out, "delay", 6);
    out.append(" ");
    text::push_padded(&mut out, "size", 5);
    out.append("  ");
    text::push_padded(&mut out, "msgs", 7);
    out.append(" ");
    text::push_padded(&mut out, "msg/s", 8);
    out.append(" ");
    text::push_padded(&mut out, "avg(µs)", 10);
    out.append(" ");
    text::push_padded(&mut out, "p99(µs)", 10);
    out.append(" ");
    text::push_padded(&mut out, "min(µs)", 10);
    out.append(" ");
    text::push_padded(&mut out, "max(µs)", 10);
    out
}

fn push_header(out: &mut String)
    ensures
        final(out)@ == old(out)@ + header_text(),
{
    let line = header();
    out.append(line.as_str());
}

fn push_settings(out: &mut String, row: &SummaryRow)
    ensures
        final(out)@ == old(out)@ + settings_columns(*row),
{
    push_number_column(out, row.pub_qos as u64, 5);
    out.append(" ");
    push_number_column(out, row.sub_qos as u64, 5);
    out.append(" ");
    push_number_column(out, row.delay_ms, 5);
    out.append("ms ");
    push_number_column(out, row.msg_size as u64, 4);
    out.append("B");
    assert(out@ =~= old(out)@ + settings_columns(*row));
}

fn push_figures(out: &mut String, row: &SummaryRow)
    ensures
        final(out)@ == old(out)@ + figure_columns(*row),
{
    out.append("  ");
    push_number_column(out, row.messages_received as u64, 7);
    out.append(" ");
    text::push_padded(out, row.throughput.as_str(), 7);
    out.append("/s ");
    push_text_column(out, &row.latency_avg, 10);
    out.append(" ");
    push_text_column(out, &row.latency_p99, 10);
    out.append(" ");
    push_signed_column(out, row.latency_min, 10);
    out.append(" ");
    push_signed_column(out, row.latency_max, 10);
    assert(out@ =~= old(out)@ + figure_columns(*row));
}

/// A line of the table.
pub fn summary_row(row: &SummaryRow) -> (r: String)
    ensures
        r@ == row_text(*row),
        text::has_prefix(r@, settings_columns(*row)),
        row.error matches Some(e) ==> r@ == settings_columns(*row) + "    ERROR: "@ + e@,
{
    let mut out = String::new();
    push_settings(&mut out, row);
    match &row.error {
        Some(e) => {
            out.append("    ERROR: ");
            out.append(e.as_str());
        },
        None => {
            push_figures(&mut out, row);
        },
    }
    assert(out@ =~= row_text(*row));
    proof {
        law_row_layout(*row);
    }
    out
}

/// The whole table.
pub fn summary(rows: &[SummaryRow]) -> (r: String)
    ensures
        r@ == summary_text(rows@),
{
    proof {
        reveal_strlit("=");
        reveal_strlit("-");
    }
    let mut out = "\n".to_owned();
    text::push_repeated(&mut out, "=", TABLE_WIDTH);
    out.append("\n");
    push_header(&mut out);
    out.append("\n");
    text::push_repeated(&mut out, "-", TABLE_WIDTH);
    out.append("\n");
    let ghost head = out@;
    let mut i: usize = 0;
    assert(out@ =~= head + rows_text(rows@.take(0)));
    while i < rows.len()
        invariant
            i <= rows@.len(),
            out@ == head + rows_text(rows@.take(i as int)),
        decreases rows@.len() - i,
    {
        let line = summary_row(&rows[i]);
        out.append(line.as_str());
        out.append("\n");
        proof {
            assert(rows@.take(i + 1).drop_last() =~= rows@.take(i as int));
            assert(rows@.take(i + 1).last() == rows@[i as int]);
            assert(out@ =~= head + rows_text(rows@.take(i + 1)));
        }
        i = i + 1;
    }
    assert(rows@.take(i as int) =~= rows@);
    text::push_repeated(&mut out, "=", TABLE_WIDTH);
    out.append("\n");
    assert(out@ =~= summary_text(rows@));
    out
}

/// What is printed when a test is over.
pub open spec fn status_text(
    messages_received: nat,
    throughput: Seq<char>,
    latency: Option<(Seq<char>, Seq<char>)>,
) -> Seq<char> {
    let status = number::decimal(messages_received) + " msgs  "@ + throughput + "/s  "@;
    match latency {
        Some((avg, p99)) => status + "avg="@ + avg + "µs  p99="@ + p99 + "µs"@,
        None => status,
    }
}

/// What is printed when a test is over: the latencies are shown where both
/// the mean and the percentile are there.
pub fn status_line(
    messages_received: usize,
    throughput: &str,
    avg: &Option<String>,
    p99: &Option<String>,
) -> (r: String)
    ensures
        r@ == status_text(
            messages_received as nat,
            throughput@,
            if avg is Some && p99 is Some {
                Some((avg->0@, p99->0@))
            } else {
                None
            },
        ),
{
    let mut out = String::new();
    number::push_decimal(&mut out, messages_received as u128);
    assert(out@ =~= number::decimal(messages_received as nat));
    out.append(" msgs  ");
    out.append(throughput);
    out.append("/s  ");
    match (avg, p99) {
        (Some(avg), Some(p99)) => {
            out.append("avg=");
            out.append(avg.as_str());
            out.append("µs  p99=");
            out.append(p99.as_str());
            out.append("µs");
        },
        _ => {},
    }
    out
}

// ---------------------------------------------------------------------------
// Laws
// ---------------------------------------------------------------------------

/// A table with one more row has one more line, behind the others.
pub proof fn law_rows_push(rows: Seq<SummaryRow>, r: SummaryRow)
    ensures
        rows_text(Seq::empty()) == Seq::<char>::empty(),
        rows_text(rows.push(r)) == rows_text(rows) + row_text(r) + "\n"@,
{
    assert(rows.push(r).drop_last() =~= rows);
}

proof fn lemma_group(a: Seq<char>, b: Seq<char>, c: Seq<char>)
    ensures
        a + b + c == a + (b + c),
{
    assert(a + b + c =~= a + (b + c));
}

proof fn lemma_regroup(a: Seq<char>, b: Seq<char>, c: Seq<char>, d: Seq<char>)
    ensures
        a + b + c + d == a + (b + c + d),
{
    assert(a + b + c + d =~= a + (b + c + d));
}

/// The lines of two tables follow each other as their rows do.
pub proof fn law_rows_append(a: Seq<SummaryRow>, b: Seq<SummaryRow>)
    ensures
        rows_text(a + b) == rows_text(a) + rows_text(b),
    decreases b.len(),
{
    if b.len() == 0 {
        assert(a + b =~= a);
        assert(rows_text(a) + rows_text(b) =~= rows_text(a));
    } else {
        law_rows_append(a, b.drop_last());
        assert((a + b).drop_last() =~= a + b.drop_last());
        lemma_regroup(rows_text(a), rows_text(b.drop_last()), row_text(b.last()), "\n"@);
    }
}

/// Every row has its own line, between those of the rows before it and those
/// of the rows behind it.
pub proof fn law_row_has_its_line(rows: Seq<SummaryRow>, k: int)
    requires
        0 <= k < rows.len(),
    ensures
        rows_text(rows) == rows_text(rows.take(k)) + (row_text(rows[k]) + "\n"@) + rows_text(
            rows.skip(k + 1),
        ),
{
    let head = rows.take(k).push(rows[k]);
    assert(rows =~= head + rows.skip(k + 1));
    law_rows_append(head, rows.skip(k + 1));
    law_rows_push(rows.take(k), rows[k]);
    lemma_group(rows_text(rows.take(k)), row_text(rows[k]), "\n"@);
}

/// Text between the same texts is the same where the whole is.
proof fn lemma_between(before: Seq<char>, x: Seq<char>, y: Seq<char>, after: Seq<char>)
    requires
        before + x + after == before + y + after,
    ensures
        x == y,
{
    let a = before + x + after;
    let b = before + y + after;
    assert(a.len() == b.len());
    assert forall|i: int| 0 <= i < x.len() implies x[i] == y[i] by {
        assert(a[before.len() + i] == x[i]);
        assert(b[before.len() + i] == y[i]);
    }
    assert(x =~= y);
}

/// Text before the same text is the same where the whole is.
proof fn lemma_before(x: Seq<char>, y: Seq<char>, after: Seq<char>)
    requires
        x + after == y + after,
    ensures
        x == y,
{
    let nothing = Seq::<char>::empty();
    assert(nothing + x + after =~= x + after);
    assert(nothing + y + after =~= y + after);
    lemma_between(nothing, x, y, after);
}

/// Text behind the same text is the same where the whole is.
proof fn lemma_behind(before: Seq<char>, x: Seq<char>, y: Seq<char>)
    requires
        before + x == before + y,
    ensures
        x == y,
{
    let nothing = Seq::<char>::empty();
    assert(before + x + nothing =~= before + x);
    assert(before + y + nothing =~= before + y);
    lemma_between(before, x, y, nothing);
}

/// The table shows a change of any row: it stays the same only where the row's
/// line does.
pub proof fn law_changed_row_shows(rows: Seq<SummaryRow>, k: int, r: SummaryRow)
    requires
        0 <= k < rows.len(),
    ensures
        rows_text(rows.update(k, r)) == rows_text(rows) <==> row_text(r) == row_text(rows[k]),
        summary_text(rows.update(k, r)) == summary_text(rows) <==> row_text(r) == row_text(rows[k]),
{
    let changed = rows.update(k, r);
    law_row_has_its_line(rows, k);
    law_row_has_its_line(changed, k);
    assert(changed.take(k) =~= rows.take(k));
    assert(changed.skip(k + 1) =~= rows.skip(k + 1));
    let before = rows_text(rows.take(k));
    let after = rows_text(rows.skip(k + 1));
    if rows_text(changed) == rows_text(rows) {
        lemma_between(before, row_text(r) + "\n"@, row_text(rows[k]) + "\n"@, after);
        lemma_before(row_text(r), row_text(rows[k]), "\n"@);
    }
    if summary_text(changed) == summary_text(rows) {
        let head = "\n"@ + text::repeated('=', TABLE_WIDTH as nat) + "\n"@ + header_text() + "\n"@
            + text::repeated('-', TABLE_WIDTH as nat) + "\n"@;
        let ruler = text::repeated('=', TABLE_WIDTH as nat);
        lemma_before(
            head + rows_text(changed) + ruler,
            head + rows_text(rows) + ruler,
            "\n"@,
        );
        lemma_between(head, rows_text(changed), rows_text(rows), ruler);
    }
}

/// The table is an empty line, the head between two rulers, the lines of the
/// rows, and a ruler. The rulers are a hundred characters wide.
pub proof fn law_summary_layout(rows: Seq<SummaryRow>)
    ensures
        summary_text(rows) == "\n"@ + text::repeated('=', 100) + "\n"@ + header_text() + "\n"@
            + text::repeated('-', 100) + "\n"@ + rows_text(rows) + text::repeated('=', 100)
            + "\n"@,
{
}

/// A line starts with the four settings, right-aligned in columns of 5, 5, 5
/// and 4 characters. The error follows, if there is one; else the figures do,
/// in columns of 7, 7, 10, 10, 10 and 10 characters.
pub proof fn law_row_layout(r: SummaryRow)
    ensures
        settings_columns(r) == text::pad_left(number::decimal(r.pub_qos as nat), 5) + " "@
            + text::pad_left(number::decimal(r.sub_qos as nat), 5) + " "@ + text::pad_left(
            number::decimal(r.delay_ms as nat),
            5,
        ) + "ms "@ + text::pad_left(number::decimal(r.msg_size as nat), 4) + "B"@,
        text::has_prefix(row_text(r), settings_columns(r)),
        r.error matches Some(e) ==> row_text(r) == settings_columns(r) + "    ERROR: "@ + e@,
        r.error is None ==> row_text(r) == settings_columns(r) + ("  "@ + text::pad_left(
            number::decimal(r.messages_received as nat),
            7,
        ) + " "@ + text::pad_left(r.throughput@, 7) + "/s "@ + text::pad_left(
            text_or_mark(r.latency_avg),
            10,
        ) + " "@ + text::pad_left(text_or_mark(r.latency_p99), 10) + " "@ + text::pad_left(
            number_or_mark(r.latency_min),
            10,
        ) + " "@ + text::pad_left(number_or_mark(r.latency_max), 10)),
{
    assert(row_text(r).take(settings_columns(r).len() as int) =~= settings_columns(r));
    if let Some(e) = r.error {
        lemma_group(settings_columns(r), "    ERROR: "@, e@);
    }
}

/// A figure that is there is shown as it is, and one that is not as `N/A`.
pub proof fn law_marks(s: String, n: i64)
    ensures
        text_or_mark(Some(s)) == s@,
        text_or_mark(None) == "N/A"@,
        number_or_mark(Some(n)) == number::signed_decimal(n as int),
        number_or_mark(None) == "N/A"@,
{
}

/// The head names each column right-aligned above it.
pub proof fn law_header_layout()
    ensures
        header_text() == text::pad_left("pubQ"@, 5) + " "@ + text::pad_left("subQ"@, 5) + " "@
            + text::pad_left("delay"@, 6) + " "@ + text::pad_left("size"@, 5) + "  "@
            + text::pad_left("msgs"@, 7) + " "@ + text::pad_left("msg/s"@, 8) + " "@
            + text::pad_left("avg(µs)"@, 10) + " "@ + text::pad_left("p99(µs)"@, 10) + " "@
            + text::pad_left("min(µs)"@, 10) + " "@ + text::pad_left("max(µs)"@, 10),
{
}

/// The status of a test is the number of messages and the throughput, and
/// behind them the latencies, if there are any.
pub proof fn law_status_layout(
    messages_received: nat,
    throughput: Seq<char>,
    avg: Seq<char>,
    p99: Seq<char>,
)
    ensures
        status_text(messages_received, throughput, None) == number::decimal(messages_received)
            + " msgs  "@ + throughput + "/s  "@,
        status_text(messages_received, throughput, Some((avg, p99))) == status_text(
            messages_received,
            throughput,
            None,
        ) + "avg="@ + avg + "µs  p99="@ + p99 + "µs"@,
{
}

proof fn lemma_number_column(m: nat, n: nat, width: nat)
    requires
        number_column(m, width) == number_column(n, width),
    ensures
        m == n,
{
    number::law_decimal_exact(m);
    number::law_decimal_exact(n);
    assert('0' <= number::decimal(m)[0] && '0' <= number::decimal(n)[0]);
    text::law_pad_left_injective(number::decimal(m), number::decimal(n), width);
    number::law_decimal_injective(m, n);
}

/// A number or its mark does not start with a space.
proof fn lemma_mark_starts(n: Option<i64>)
    ensures
        number_or_mark(n).len() > 0,
        number_or_mark(n)[0] != ' ',
        n is None <==> number_or_mark(n)[0] == 'N',
{
    reveal_strlit("N/A");
    if let Some(n) = n {
        number::law_decimal_exact((if n < 0 {
            -n
        } else {
            n as int
        }) as nat);
        if n >= 0 {
            assert('0' <= number::decimal(n as nat)[0] <= '9');
        }
    }
}

proof fn lemma_mark_column(m: Option<i64>, n: Option<i64>, width: nat)
    requires
        text::pad_left(number_or_mark(m), width) == text::pad_left(number_or_mark(n), width),
    ensures
        m == n,
{
    lemma_mark_starts(m);
    lemma_mark_starts(n);
    text::law_pad_left_injective(number_or_mark(m), number_or_mark(n), width);
    if m is Some {
        number::law_signed_decimal_injective(m->0 as int, n->0 as int);
    }
}

/// Four columns, with what stands between them.
spec fn four_columns(a: Seq<char>, b: Seq<char>, c: Seq<char>, d: Seq<char>) -> Seq<char> {
    a + " "@ + b + " "@ + c + "ms "@ + d + "B"@
}

proof fn lemma_four_columns(
    a: Seq<char>,
    b: Seq<char>,
    c: Seq<char>,
    d: Seq<char>,
    x: Seq<char>,
)
    ensures
        four_columns(x, b, c, d) == four_columns(a, b, c, d) ==> x == a,
        four_columns(a, x, c, d) == four_columns(a, b, c, d) ==> x == b,
        four_columns(a, b, x, d) == four_columns(a, b, c, d) ==> x == c,
        four_columns(a, b, c, x) == four_columns(a, b, c, d) ==> x == d,
{
    if four_columns(x, b, c, d) == four_columns(a, b, c, d) {
        lemma_before(
            x + " "@ + b + " "@ + c + "ms "@ + d,
            a + " "@ + b + " "@ + c + "ms "@ + d,
            "B"@,
        );
        lemma_before(x + " "@ + b + " "@ + c + "ms "@, a + " "@ + b + " "@ + c + "ms "@, d);
        lemma_before(x + " "@ + b + " "@ + c, a + " "@ + b + " "@ + c, "ms "@);
        lemma_before(x + " "@ + b + " "@, a + " "@ + b + " "@, c);
        lemma_before(x + " "@ + b, a + " "@ + b, " "@);
        lemma_before(x + " "@, a + " "@, b);
        lemma_before(x, a, " "@);
    }
    if four_columns(a, x, c, d) == four_columns(a, b, c, d) {
        lemma_before(
            a + " "@ + x + " "@ + c + "ms "@ + d,
            a + " "@ + b + " "@ + c + "ms "@ + d,
            "B"@,
        );
        lemma_before(a + " "@ + x + " "@ + c + "ms "@, a + " "@ + b + " "@ + c + "ms "@, d);
        lemma_before(a + " "@ + x + " "@ + c, a + " "@ + b + " "@ + c, "ms "@);
        lemma_before(a + " "@ + x + " "@, a + " "@ + b + " "@, c);
        lemma_before(a + " "@ + x, a + " "@ + b, " "@);
        lemma_behind(a + " "@, x, b);
    }
    if four_columns(a, b, x, d) == four_columns(a, b, c, d) {
        lemma_before(
            a + " "@ + b + " "@ + x + "ms "@ + d,
            a + " "@ + b + " "@ + c + "ms "@ + d,
            "B"@,
        );
        lemma_before(a + " "@ + b + " "@ + x + "ms "@, a + " "@ + b + " "@ + c + "ms "@, d);
        lemma_before(a + " "@ + b + " "@ + x, a + " "@ + b + " "@ + c, "ms "@);
        lemma_behind(a + " "@ + b + " "@, x, c);
    }
    if four_columns(a, b, c, x) == four_columns(a, b, c, d) {
        lemma_before(
            a + " "@ + b + " "@ + c + "ms "@ + x,
            a + " "@ + b + " "@ + c + "ms "@ + d,
            "B"@,
        );
        lemma_behind(a + " "@ + b + " "@ + c + "ms "@, x, d);
    }
}

/// Six columns, with what stands between them.
spec fn six_columns(
    a: Seq<char>,
    b: Seq<char>,
    c: Seq<char>,
    d: Seq<char>,
    e: Seq<char>,
    f: Seq<char>,
) -> Seq<char> {
    "  "@ + a + " "@ + b + "/s "@ + c + " "@ + d + " "@ + e + " "@ + f
}

proof fn lemma_six_columns(
    a: Seq<char>,
    b: Seq<char>,
    c: Seq<char>,
    d: Seq<char>,
    e: Seq<char>,
    f: Seq<char>,
    x: Seq<char>,
)
    ensures
        six_columns(x, b, c, d, e, f) == six_columns(a, b, c, d, e, f) ==> x == a,
        six_columns(a, x, c, d, e, f) == six_columns(a, b, c, d, e, f) ==> x == b,
        six_columns(a, b, x, d, e, f) == six_columns(a, b, c, d, e, f) ==> x == c,
        six_columns(a, b, c, x, e, f) == six_columns(a, b, c, d, e, f) ==> x == d,
        six_columns(a, b, c, d, x, f) == six_columns(a, b, c, d, e, f) ==> x == e,
        six_columns(a, b, c, d, e, x) == six_columns(a, b, c, d, e, f) ==> x == f,
{
    if six_columns(x, b, c, d, e, f) == six_columns(a, b, c, d, e, f) {
        lemma_before(
            "  "@ + x + " "@ + b + "/s "@ + c + " "@ + d + " "@ + e + " "@,
            "  "@ + a + " "@ + b + "/s "@ + c + " "@ + d + " "@ + e + " "@,
            f,
        );
        lemma_before(
            "  "@ + x + " "@ + b + "/s "@ + c + " "@ + d + " "@ + e,
            "  "@ + a + " "@ + b + "/s "@ + c + " "@ + d + " "@ + e,
            " "@,
        );
        lemma_before(
            "  "@ + x + " "@ + b + "/s "@ + c + " "@ + d + " "@,
            "  "@ + a + " "@ + b + "/s "@ + c + " "@ + d + " "@,
            e,
        );
        lemma_before(
            "  "@ + x + " "@ + b + "/s "@ + c + " "@ + d,
            "  "@ + a + " "@ + b + "/s "@ + c + " "@ + d,
            " "@,
        );
        lemma_before(
            "  "@ + x + " "@ + b + "/s "@ + c + " "@,
            "  "@ + a + " "@ + b + "/s "@ + c + " "@,
            d,
        );
        lemma_before("  "@ + x + " "@ + b + "/s "@ + c, "  "@ + a + " "@ + b + "/s "@ + c, " "@);
        lemma_before("  "@ + x + " "@ + b + "/s "@, "  "@ + a + " "@ + b + "/s "@, c);
        lemma_before("  "@ + x + " "@ + b, "  "@ + a + " "@ + b, "/s "@);
        lemma_before("  "@ + x + " "@, "  "@ + a + " "@, b);
        lemma_before("  "@ + x, "  "@ + a, " "@);
        lemma_behind("  "@, x, a);
    }
    if six_columns(a, x, c, d, e, f) == six_columns(a, b, c, d, e, f) {
        lemma_before(
            "  "@ + a + " "@ + x + "/s "@ + c + " "@ + d + " "@ + e + " "@,
            "  "@ + a + " "@ + b + "/s "@ + c + " "@ + d + " "@ + e + " "@,
            f,
        );
        lemma_before(
            "  "@ + a + " "@ + x + "/s "@ + c + " "@ + d + " "@ + e,
            "  "@ + a + " "@ + b + "/s "@ + c + " "@ + d + " "@ + e,
            " "@,
        );
        lemma_before(
            "  "@ + a + " "@ + x + "/s "@ + c + " "@ + d + " "@,
            "  "@ + a + " "@ + b + "/s "@ + c + " "@ + d + " "@,
            e,
        );
        lemma_before(
            "  "@ + a + " "@ + x + "/s "@ + c + " "@ + d,
            "  "@ + a + " "@ + b + "/s "@ + c + " "@ + d,
            " "@,
        );
        lemma_before(
            "  "@ + a + " "@ + x + "/s "@ + c + " "@,
            "  "@ + a + " "@ + b + "/s "@ + c + " "@,
            d,
        );
        lemma_before("  "@ + a + " "@ + x + "/s "@ + c, "  "@ + a + " "@ + b + "/s "@ + c, " "@);
        lemma_before("  "@ + a + " "@ + x + "/s "@, "  "@ + a + " "@ + b + "/s "@, c);
        lemma_before("  "@ + a + " "@ + x, "  "@ + a + " "@ + b, "/s "@);
        lemma_behind("  "@ + a + " "@, x, b);
    }
    if six_columns(a, b, x, d, e, f) == six_columns(a, b, c, d, e, f) {
        lemma_before(
            "  "@ + a + " "@ + b + "/s "@ + x + " "@ + d + " "@ + e + " "@,
            "  "@ + a + " "@ + b + "/s "@ + c + " "@ + d + " "@ + e + " "@,
            f,
        );
        lemma_before(
            "  "@ + a + " "@ + b + "/s "@ + x + " "@ + d + " "@ + e,
            "  "@ + a + " "@ + b + "/s "@ + c + " "@ + d + " "@ + e,
            " "@,
        );
        lemma_before(
            "  "@ + a + " "@ + b + "/s "@ + x + " "@ + d + " "@,
            "  "@ + a + " "@ + b + "/s "@ + c + " "@ + d + " "@,
            e,
        );
        lemma_before(
            "  "@ + a + " "@ + b + "/s "@ + x + " "@ + d,
            "  "@ + a + " "@ + b + "/s "@ + c + " "@ + d,
            " "@,
        );
        lemma_before(
            "  "@ + a + " "@ + b + "/s "@ + x + " "@,
            "  "@ + a + " "@ + b + "/s "@ + c + " "@,
            d,
        );
        lemma_before("  "@ + a + " "@ + b + "/s "@ + x, "  "@ + a + " "@ + b + "/s "@ + c, " "@);
        lemma_behind("  "@ + a + " "@ + b + "/s "@, x, c);
    }
    if six_columns(a, b, c, x, e, f) == six_columns(a, b, c, d, e, f) {
        lemma_before(
            "  "@ + a + " "@ + b + "/s "@ + c + " "@ + x + " "@ + e + " "@,
            "  "@ + a + " "@ + b + "/s "@ + c + " "@ + d + " "@ + e + " "@,
            f,
        );
        lemma_before(
            "  "@ + a + " "@ + b + "/s "@ + c + " "@ + x + " "@ + e,
            "  "@ + a + " "@ + b + "/s "@ + c + " "@ + d + " "@ + e,
            " "@,
        );
        lemma_before(
            "  "@ + a + " "@ + b + "/s "@ + c + " "@ + x + " "@,
            "  "@ + a + " "@ + b + "/s "@ + c + " "@ + d + " "@,
            e,
        );
        lemma_before(
            "  "@ + a + " "@ + b + "/s "@ + c + " "@ + x,
            "  "@ + a + " "@ + b + "/s "@ + c + " "@ + d,
            " "@,
        );
        lemma_behind("  "@ + a + " "@ + b + "/s "@ + c + " "@, x, d);
    }
    if six_columns(a, b, c, d, x, f) == six_columns(a, b, c, d, e, f) {
        lemma_before(
            "  "@ + a + " "@ + b + "/s "@ + c + " "@ + d + " "@ + x + " "@,
            "  "@ + a + " "@ + b + "/s "@ + c + " "@ + d + " "@ + e + " "@,
            f,
        );
        lemma_before(
            "  "@ + a + " "@ + b + "/s "@ + c + " "@ + d + " "@ + x,
            "  "@ + a + " "@ + b + "/s "@ + c + " "@ + d + " "@ + e,
            " "@,
        );
        lemma_behind("  "@ + a + " "@ + b + "/s "@ + c + " "@ + d + " "@, x, e);
    }
    if six_columns(a, b, c, d, e, x) == six_columns(a, b, c, d, e, f) {
        lemma_behind("  "@ + a + " "@ + b + "/s "@ + c + " "@ + d + " "@ + e + " "@, x, f);
    }
}

/// Where two lines with the same figures, or the same error, are the same, so
/// are their settings.
proof fn lemma_same_settings(r: SummaryRow, q: SummaryRow)
    requires
        q.error == r.error,
        figure_columns(q) == figure_columns(r),
        row_text(q) == row_text(r),
    ensures
        settings_columns(q) == settings_columns(r),
{
    let tail = match r.error {
        Some(e) => "    ERROR: "@ + e@,
        None => figure_columns(r),
    };
    lemma_before(settings_columns(q), settings_columns(r), tail);
}

/// Where two lines without an error and with the same settings are the same,
/// so are their figures.
proof fn lemma_same_figures(r: SummaryRow, q: SummaryRow)
    requires
        r.error is None,
        q.error is None,
        settings_columns(q) == settings_columns(r),
        row_text(q) == row_text(r),
    ensures
        figure_columns(q) == figure_columns(r),
{
    lemma_behind(settings_columns(r), figure_columns(q), figure_columns(r));
}

/// A line shows each setting and each whole-number figure of its row: where one
/// of them alone is another, so is the line.
pub proof fn law_row_shows_numbers(
    r: SummaryRow,
    pub_qos: u8,
    sub_qos: u8,
    delay_ms: u64,
    msg_size: usize,
    messages_received: usize,
    latency_min: Option<i64>,
    latency_max: Option<i64>,
)
    ensures
        row_text(SummaryRow { pub_qos, ..r }) == row_text(r) ==> pub_qos == r.pub_qos,
        row_text(SummaryRow { sub_qos, ..r }) == row_text(r) ==> sub_qos == r.sub_qos,
        row_text(SummaryRow { delay_ms, ..r }) == row_text(r) ==> delay_ms == r.delay_ms,
        row_text(SummaryRow { msg_size, ..r }) == row_text(r) ==> msg_size == r.msg_size,
        r.error is None && row_text(SummaryRow { messages_received, ..r }) == row_text(r)
            ==> messages_received == r.messages_received,
        r.error is None && row_text(SummaryRow { latency_min, ..r }) == row_text(r) ==> latency_min
            == r.latency_min,
        r.error is None && row_text(SummaryRow { latency_max, ..r }) == row_text(r) ==> latency_max
            == r.latency_max,
{
    let a = number_column(r.pub_qos as nat, 5);
    let b = number_column(r.sub_qos as nat, 5);
    let c = number_column(r.delay_ms as nat, 5);
    let d = number_column(r.msg_size as nat, 4);
    let q = SummaryRow { pub_qos, ..r };
    if row_text(q) == row_text(r) {
        lemma_same_settings(r, q);
        let x = number_column(pub_qos as nat, 5);
        assert(settings_columns(r) == four_columns(a, b, c, d));
        assert(settings_columns(q) == four_columns(x, b, c, d));
        lemma_four_columns(a, b, c, d, x);
        lemma_number_column(pub_qos as nat, r.pub_qos as nat, 5);
    }
    let q = SummaryRow { sub_qos, ..r };
    if row_text(q) == row_text(r) {
        lemma_same_settings(r, q);
        let x = number_column(sub_qos as nat, 5);
        assert(settings_columns(r) == four_columns(a, b, c, d));
        assert(settings_columns(q) == four_columns(a, x, c, d));
        lemma_four_columns(a, b, c, d, x);
        lemma_number_column(sub_qos as nat, r.sub_qos as nat, 5);
    }
    let q = SummaryRow { delay_ms, ..r };
    if row_text(q) == row_text(r) {
        lemma_same_settings(r, q);
        let x = number_column(delay_ms as nat, 5);
        assert(settings_columns(r) == four_columns(a, b, c, d));
        assert(settings_columns(q) == four_columns(a, b, x, d));
        lemma_four_columns(a, b, c, d, x);
        lemma_number_column(delay_ms as nat, r.delay_ms as nat, 5);
    }
    let q = SummaryRow { msg_size, ..r };
    if row_text(q) == row_text(r) {
        lemma_same_settings(r, q);
        let x = number_column(msg_size as nat, 4);
        assert(settings_columns(r) == four_columns(a, b, c, d));
        assert(settings_columns(q) == four_columns(a, b, c, x));
        lemma_four_columns(a, b, c, d, x);
        lemma_number_column(msg_size as nat, r.msg_size as nat, 4);
    }
    if r.error is None {
        let a = number_column(r.messages_received as nat, 7);
        let b = text::pad_left(r.throughput@, 7);
        let c = text::pad_left(text_or_mark(r.latency_avg), 10);
        let d = text::pad_left(text_or_mark(r.latency_p99), 10);
        let e = text::pad_left(number_or_mark(r.latency_min), 10);
        let f = text::pad_left(number_or_mark(r.latency_max), 10);
        let q = SummaryRow { messages_received, ..r };
        if row_text(q) == row_text(r) {
            lemma_same_figures(r, q);
            let x = number_column(messages_received as nat, 7);
            assert(figure_columns(r) == six_columns(a, b, c, d, e, f));
            assert(figure_columns(q) == six_columns(x, b, c, d, e, f));
            lemma_six_columns(a, b, c, d, e, f, x);
            lemma_number_column(messages_received as nat, r.messages_received as nat, 7);
        }
        let q = SummaryRow { latency_min, ..r };
        if row_text(q) == row_text(r) {
            lemma_same_figures(r, q);
            let x = text::pad_left(number_or_mark(latency_min), 10);
            assert(figure_columns(r) == six_columns(a, b, c, d, e, f));
            assert(figure_columns(q) == six_columns(a, b, c, d, x, f));
            lemma_six_columns(a, b, c, d, e, f, x);
            lemma_mark_column(latency_min, r.latency_min, 10);
        }
        let q = SummaryRow { latency_max, ..r };
        if row_text(q) == row_text(r) {
            lemma_same_figures(r, q);
            let x = text::pad_left(number_or_mark(latency_max), 10);
            assert(figure_columns(r) == six_columns(a, b, c, d, e, f));
            assert(figure_columns(q) == six_columns(a, b, c, d, e, x));
            lemma_six_columns(a, b, c, d, e, f, x);
            lemma_mark_column(latency_max, r.latency_max, 10);
        }
    }
}

/// A line shows each figure that comes as text: where one of them alone is
/// another, so is its column, and so is the line.
pub proof fn law_row_shows_texts(
    r: SummaryRow,
    throughput: String,
    avg: Option<String>,
    p99: Option<String>,
)
    requires
        r.error is None,
    ensures
        row_text(SummaryRow { throughput, ..r }) == row_text(r) ==> text::pad_left(throughput@, 7)
            == text::pad_left(r.throughput@, 7),
        row_text(SummaryRow { latency_avg: avg, ..r }) == row_text(r) ==> text::pad_left(
            text_or_mark(avg),
            10,
        ) == text::pad_left(text_or_mark(r.latency_avg), 10),
        row_text(SummaryRow { latency_p99: p99, ..r }) == row_text(r) ==> text::pad_left(
            text_or_mark(p99),
            10,
        ) == text::pad_left(text_or_mark(r.latency_p99), 10),
{
    let a = number_column(r.messages_received as nat, 7);
    let b = text::pad_left(r.throughput@, 7);
    let c = text::pad_left(text_or_mark(r.latency_avg), 10);
    let d = text::pad_left(text_or_mark(r.latency_p99), 10);
    let e = text::pad_left(number_or_mark(r.latency_min), 10);
    let f = text::pad_left(number_or_mark(r.latency_max), 10);
    let q = SummaryRow { throughput, ..r };
    if row_text(q) == row_text(r) {
        lemma_same_figures(r, q);
        let x = text::pad_left(throughput@, 7);
        assert(figure_columns(r) == six_columns(a, b, c, d, e, f));
        assert(figure_columns(q) == six_columns(a, x, c, d, e, f));
        lemma_six_columns(a, b, c, d, e, f, x);
    }
    let q = SummaryRow { latency_avg: avg, ..r };
    if row_text(q) == row_text(r) {
        lemma_same_figures(r, q);
        let x = text::pad_left(text_or_mark(avg), 10);
        assert(figure_columns(r) == six_columns(a, b, c, d, e, f));
        assert(figure_columns(q) == six_columns(a, b, x, d, e, f));
        lemma_six_columns(a, b, c, d, e, f, x);
    }
    let q = SummaryRow { latency_p99: p99, ..r };
    if row_text(q) == row_text(r) {
        lemma_same_figures(r, q);
        let x = text::pad_left(text_or_mark(p99), 10);
        assert(figure_columns(r) == six_columns(a, b, c, d, e, f));
        assert(figure_columns(q) == six_columns(a, b, c, x, e, f));
        lemma_six_columns(a, b, c, d, e, f, x);
    }
}

} // verus!
