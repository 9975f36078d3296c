//! The command line of the analyser: which test combinations to run.

use crate::number;
use crate::text;
use vstd::laws_eq::*;
use vstd::prelude::*;
use vstd::slice::*;
use vstd::string::*;

verus! {

/// What `--help` prints.
pub const HELP: &'static str = "Usage: mqtt-analyser [OPTIONS]\n\
     \n\
     Options:\n\
     --pub-qos <0,1,2>   Publisher QoS values to test (default: all)\n\
     --sub-qos <0,1,2>   Subscriber QoS values to test (default: all)\n\
     --delay   <ms,...>  Publish delay values in ms to test (default: all)\n\
     --size    <b,...>   Message sizes in bytes to test (default: all)\n\
     -h, --help          Show this help\n\
     \n\
     Examples:\n\
     # Single test: pubQoS=0, subQoS=0, delay=100ms, size=1B\n\
     mqtt-analyser --pub-qos 0 --sub-qos 0 --delay 100 --size 1\n\
     \n\
     # All QoS combos but only delay=0 and 1B messages\n\
     mqtt-analyser --delay 0 --size 1\n";

/// The largest quality of service.
pub const MAX_QOS: u64 = 2;

// ---------------------------------------------------------------------------
// Types
// ---------------------------------------------------------------------------

/// The values to test. A dimension without a list runs all its values.
///
/// - `--pub-qos 0,1`: only QoS 0 and 1 on the publisher side
/// - `--sub-qos 2`: only QoS 2 on the subscriber side
/// - `--delay 0`: only tests without a delay
/// - `--size 1,4000`: only messages with 1 and 4000 bytes of padding
#[derive(Debug, PartialEq, Eq)]
pub struct Filters {
    pub pub_qos: Option<Vec<u8>>,
    pub sub_qos: Option<Vec<u8>>,
    pub delay_ms: Option<Vec<u64>>,
    pub msg_size: Option<Vec<usize>>,
}

/// The lists of a [`Filters`].
#[verifier::ext_equal]
pub struct FiltersView {
    pub pub_qos: Option<Seq<u8>>,
    pub sub_qos: Option<Seq<u8>>,
    pub delay_ms: Option<Seq<u64>>,
    pub msg_size: Option<Seq<usize>>,
}

/// The elements of a list, if there is one.
pub open spec fn list_view<T>(list: Option<Vec<T>>) -> Option<Seq<T>> {
    match list {
        Some(v) => Some(v@),
        None => None,
    }
}

impl View for Filters {
    type V = FiltersView;

    open spec fn view(&self) -> FiltersView {
        FiltersView {
            pub_qos: list_view(self.pub_qos),
            sub_qos: list_view(self.sub_qos),
            delay_ms: list_view(self.delay_ms),
            msg_size: list_view(self.msg_size),
        }
    }
}

/// The filters that let everything through.
pub open spec fn no_filters() -> FiltersView {
    FiltersView { pub_qos: None, sub_qos: None, delay_ms: None, msg_size: None }
}

impl Default for Filters {
    fn default() -> (r: Self)
        ensures
            r@ == no_filters(),
            r.pub_qos is None,
            r.sub_qos is None,
            r.delay_ms is None,
            r.msg_size is None,
    {
        Filters { pub_qos: None, sub_qos: None, delay_ms: None, msg_size: None }
    }
}

/// Why a command line is refused.
#[derive(Debug, PartialEq, Eq)]
pub enum ArgError {
    /// An argument that is no flag.
    UnknownArgument(String),
    /// A flag at the end of the line, where its value should follow.
    MissingValue(String),
    /// A flag whose list holds no value that the flag can take.
    NoValidValues { flag: String, raw: String },
}

/// The texts of an [`ArgError`].
pub enum ArgErrorView {
    UnknownArgument(Seq<char>),
    MissingValue(Seq<char>),
    NoValidValues { flag: Seq<char>, raw: Seq<char> },
}

impl View for ArgError {
    type V = ArgErrorView;

    open spec fn view(&self) -> ArgErrorView {
        match self {
            ArgError::UnknownArgument(s) => ArgErrorView::UnknownArgument(s@),
            ArgError::MissingValue(flag) => ArgErrorView::MissingValue(flag@),
            ArgError::NoValidValues { flag, raw } => ArgErrorView::NoValidValues {
                flag: flag@,
                raw: raw@,
            },
        }
    }
}

/// What a command line asks for.
#[derive(Debug, PartialEq, Eq)]
pub enum Invocation {
    /// Run the tests that pass the filters.
    Run(Filters),
    /// Print the help.
    Help,
    /// Nothing: the line is refused.
    Rejected(ArgError),
}

/// The content of an [`Invocation`].
#[verifier::ext_equal]
pub enum InvocationView {
    Run(FiltersView),
    Help,
    Rejected(ArgErrorView),
}

impl View for Invocation {
    type V = InvocationView;

    open spec fn view(&self) -> InvocationView {
        match self {
            Invocation::Run(f) => InvocationView::Run(f@),
            Invocation::Help => InvocationView::Help,
            Invocation::Rejected(e) => InvocationView::Rejected(e@),
        }
    }
}

// ---------------------------------------------------------------------------
// Model
// ---------------------------------------------------------------------------

/// The texts of the arguments.
pub open spec fn texts(args: Seq<String>) -> Seq<Seq<char>> {
    args.map_values(|s: String| s@)
}

/// The values of a comma-separated list that are numbers up to `max`, white
/// space around them aside. The other pieces are passed over.
pub open spec fn list_values(raw: Seq<char>, max: nat) -> Seq<nat> {
    text::split(raw, ',').filter_map(
        |piece: Seq<char>| number::unsigned_value(text::trim(piece), max),
    )
}

/// The values behind the flag at index `i`.
pub open spec fn flag_values(
    args: Seq<Seq<char>>,
    i: int,
    flag: Seq<char>,
    max: nat,
) -> Result<Seq<nat>, ArgErrorView> {
    if i + 1 >= args.len() {
        Err(ArgErrorView::MissingValue(flag))
    } else {
        let values = list_values(args[i + 1], max);
        if values.len() == 0 {
            Err(ArgErrorView::NoValidValues { flag, raw: args[i + 1] })
        } else {
            Ok(values)
        }
    }
}

/// What the arguments from index `i` on ask for, when those before have led to
/// the filters `f`. The first argument that asks for help, or is refused,
/// decides.
pub open spec fn invocation(args: Seq<Seq<char>>, i: int, f: FiltersView) -> InvocationView
    decreases args.len() - i,
{
    if i >= args.len() {
        InvocationView::Run(f)
    } else if args[i] == "--pub-qos"@ {
        match flag_values(args, i, "--pub-qos"@, MAX_QOS as nat) {
            Ok(v) => invocation(
                args,
                i + 2,
                FiltersView { pub_qos: Some(v.map_values(|x: nat| x as u8)), ..f },
            ),
            Err(e) => InvocationView::Rejected(e),
        }
    } else if args[i] == "--sub-qos"@ {
        match flag_values(args, i, "--sub-qos"@, MAX_QOS as nat) {
            Ok(v) => invocation(
                args,
                i + 2,
                FiltersView { sub_qos: Some(v.map_values(|x: nat| x as u8)), ..f },
            ),
            Err(e) => InvocationView::Rejected(e),
        }
    } else if args[i] == "--delay"@ {
        match flag_values(args, i, "--delay"@, u64::MAX as nat) {
            Ok(v) => invocation(
                args,
                i + 2,
                FiltersView { delay_ms: Some(v.map_values(|x: nat| x as u64)), ..f },
            ),
            Err(e) => InvocationView::Rejected(e),
        }
    } else if args[i] == "--size"@ {
        match flag_values(args, i, "--size"@, usize::MAX as nat) {
            Ok(v) => invocation(
                args,
                i + 2,
                FiltersView { msg_size: Some(v.map_values(|x: nat| x as usize)), ..f },
            ),
            Err(e) => InvocationView::Rejected(e),
        }
    } else if args[i] == "--help"@ || args[i] == "-h"@ {
        InvocationView::Help
    } else {
        InvocationView::Rejected(ArgErrorView::UnknownArgument(args[i]))
    }
}

/// A list lets `x` through: it holds it, or there is no list.
pub open spec fn admits<T>(list: Option<Seq<T>>, x: T) -> bool {
    list matches Some(values) ==> values.contains(x)
}

impl FiltersView {
    /// The combination passes all four filters.
    pub open spec fn admits_case(
        self,
        pub_qos: u8,
        sub_qos: u8,
        delay_ms: u64,
        msg_size: usize,
    ) -> bool {
        &&& admits(self.pub_qos, pub_qos)
        &&& admits(self.sub_qos, sub_qos)
        &&& admits(self.delay_ms, delay_ms)
        &&& admits(self.msg_size, msg_size)
    }
}

// ---------------------------------------------------------------------------
// Lists
// ---------------------------------------------------------------------------

/// The values of a comma-separated list that are numbers up to `max`.
pub fn parse_values(raw: &str, max: u64) -> (r: Vec<u64>)
    ensures
        r@.map_values(|v: u64| v as nat) == list_values(raw@, max as nat),
        forall|i: int| 0 <= i < r@.len() ==> #[trigger] r@[i] <= max,
{
    let s = text::chars_of(raw);
    let mut out: Vec<u64> = Vec::new();
    let mut start: usize = 0;
    let mut more: bool = true;
    let ghost mut done: Seq<Seq<char>> = Seq::empty();
    let ghost f = |piece: Seq<char>| number::unsigned_value(text::trim(piece), max as nat);
    assert(s@.skip(0) =~= s@);
    assert(out@.map_values(|v: u64| v as nat) =~= done.filter_map(f));
    assert(text::split(s@, ',') =~= done + text::split(s@.skip(0), ','));
    while more
        invariant
            s@ == raw@,
            start <= s@.len(),
            f == (|piece: Seq<char>| number::unsigned_value(text::trim(piece), max as nat)),
            more ==> text::split(s@, ',') == done + text::split(s@.skip(start as int), ','),
            !more ==> text::split(s@, ',') == done,
            out@.map_values(|v: u64| v as nat) == done.filter_map(f),
            forall|i: int| 0 <= i < out@.len() ==> #[trigger] out@[i] <= max,
        decreases (if more {
            s@.len() - start + 1
        } else {
            0
        }),
    {
        let end: usize = find_char(s.as_slice(), start, ',');
        let piece = slice_subrange(s.as_slice(), start, end);
        let ghost tail = s@.skip(start as int);
        let ghost k = end - start;
        assert(piece@ =~= tail.take(k));
        let ghost before = out@;
        match number::parse_unsigned(text::trim_chars(piece), max as u128) {
            Some(v) => {
                out.push(v as u64);
                assert(out@.map_values(|v: u64| v as nat) =~= before.map_values(|v: u64| v as nat)
                    + seq![v as nat]);
            },
            None => {},
        }
        proof {
            let longer = done.push(piece@);
            assert(longer.drop_last() =~= done);
            assert(longer.last() == piece@);
            if end < s@.len() {
                assert(tail.skip(k + 1) =~= s@.skip(end + 1));
                assert(text::split(s@, ',') =~= longer + text::split(s@.skip(end + 1), ','));
            } else {
                assert(tail.take(k) =~= tail);
                assert(text::split(s@, ',') =~= longer);
            }
            done = longer;
        }
        if end < s.len() {
            start = end + 1;
        } else {
            more = false;
        }
    }
    out
}

/// The index of the first `x` from `start` on, or the length where there is none.
fn find_char(s: &[char], start: usize, x: char) -> (r: usize)
    requires
        start <= s@.len(),
    ensures
        start <= r <= s@.len(),
        r - start == text::first_index(s@.skip(start as int), x),
{
    let mut i: usize = start;
    while i < s.len() && s[i] != x
        invariant
            start <= i <= s@.len(),
            forall|j: int| start <= j < i ==> s@[j] != x,
        decreases s@.len() - i,
    {
        i = i + 1;
    }
    proof {
        let tail = s@.skip(start as int);
        assert forall|j: int| 0 <= j < i - start implies tail[j] != x by {
            assert(s@[start + j] != x);
        }
        text::lemma_first_index(tail, x, i - start);
    }
    i
}

fn narrow_to_u8(values: &Vec<u64>) -> (r: Vec<u8>)
    requires
        forall|i: int| 0 <= i < values@.len() ==> #[trigger] values@[i] <= u8::MAX,
    ensures
        r@ == values@.map_values(|v: u64| v as u8),
{
    let mut out: Vec<u8> = Vec::new();
    let mut i: usize = 0;
    while i < values.len()
        invariant
            i <= values.len(),
            forall|j: int| 0 <= j < values@.len() ==> #[trigger] values@[j] <= u8::MAX,
            out@ == values@.take(i as int).map_values(|v: u64| v as u8),
        decreases values.len() - i,
    {
        let v: u64 = values[i];
        out.push(v as u8);
        i = i + 1;
        assert(out@ =~= values@.take(i as int).map_values(|v: u64| v as u8));
    }
    assert(values@.take(i as int) =~= values@);
    out
}

fn narrow_to_usize(values: &Vec<u64>) -> (r: Vec<usize>)
    requires
        forall|i: int| 0 <= i < values@.len() ==> #[trigger] values@[i] <= usize::MAX,
    ensures
        r@ == values@.map_values(|v: u64| v as usize),
{
    let mut out: Vec<usize> = Vec::new();
    let mut i: usize = 0;
    while i < values.len()
        invariant
            i <= values.len(),
            forall|j: int| 0 <= j < values@.len() ==> #[trigger] values@[j] <= usize::MAX,
            out@ == values@.take(i as int).map_values(|v: u64| v as usize),
        decreases values.len() - i,
    {
        let v: u64 = values[i];
        out.push(v as usize);
        i = i + 1;
        assert(out@ =~= values@.take(i as int).map_values(|v: u64| v as usize));
    }
    assert(values@.take(i as int) =~= values@);
    out
}

/// The list lets `x` through.
fn list_admits<T: PartialEq + Copy>(list: &Option<Vec<T>>, x: T) -> (r: bool)
    requires
        obeys_concrete_eq::<T>(),
    ensures
        r == admits(list_view(*list), x),
        list is None ==> r,
        list matches Some(values) ==> (r <==> exists|k: int|
            0 <= k < values@.len() && #[trigger] values@[k] == x),
{
    reveal(obeys_concrete_eq);
    match list {
        None => true,
        Some(values) => {
            let mut i: usize = 0;
            while i < values.len()
                invariant
                    i <= values.len(),
                    list_view(*list) == Some(values@),
                    obeys_concrete_eq::<T>(),
                    forall|j: int| 0 <= j < i ==> values@[j] != x,
                decreases values.len() - i,
            {
                reveal(obeys_concrete_eq);
                if values[i] == x {
                    assert(values@[i as int] == x);
                    return true;
                }
                i = i + 1;
            }
            false
        },
    }
}

// ---------------------------------------------------------------------------
// The command line
// ---------------------------------------------------------------------------

impl Filters {
    /// The values behind the flag at index `*i`, which moves on to their list.
    /// Where no argument follows, a value is missing.
    pub fn parse_list(args: &Vec<String>, i: &mut usize, flag: &str, max: u64) -> (r: Result<
        Vec<u64>,
        ArgError,
    >)
        requires
            *old(i) < usize::MAX,
        ensures
            *final(i) == *old(i) + 1,
            match r {
                Ok(values) => flag_values(texts(args@), *old(i) as int, flag@, max as nat) == Ok::<
                    _,
                    ArgErrorView,
                >(values@.map_values(|v: u64| v as nat)) && forall|k: int|
                    0 <= k < values@.len() ==> #[trigger] values@[k] <= max,
                Err(e) => flag_values(texts(args@), *old(i) as int, flag@, max as nat) == Err::<
                    Seq<nat>,
                    _,
                >(e@),
            },
            *old(i) + 1 >= args@.len() ==> (r matches Err(ArgError::MissingValue(s)) && s@
                == flag@),
            *old(i) + 1 < args@.len() ==> match r {
                Ok(values) => values@.len() > 0 && values@.map_values(|v: u64| v as nat)
                    == list_values(args@[*old(i) + 1]@, max as nat),
                Err(e) => list_values(args@[*old(i) + 1]@, max as nat).len() == 0
                    && (e matches ArgError::NoValidValues { flag: s, raw } && s@ == flag@ && raw@
                    == args@[*old(i) + 1]@),
            },
    {
        *i = *i + 1;
        if *i >= args.len() {
            return Err(ArgError::MissingValue(flag.to_owned()));
        }
        let raw = args[*i].as_str();
        let values = parse_values(raw, max);
        if values.len() == 0 {
            return Err(ArgError::NoValidValues { flag: flag.to_owned(), raw: raw.to_owned() });
        }
        Ok(values)
    }

    /// What the command line asks for. The first argument is the name of the
    /// program.
    pub fn from_args(args: &Vec<String>) -> (r: Invocation)
        ensures
            r@ == invocation(texts(args@), 1, no_filters()),
    {
        let mut f = Filters::default();
        let mut i: usize = 1;
        while i < args.len()
            invariant
                invocation(texts(args@), 1, no_filters()) == invocation(texts(args@), i as int, f@),
            decreases args.len() - i,
        {
            let arg = args[i].as_str();
            let ghost at = i as int;
            assert(texts(args@)[at] == arg@);
            if text::same_text(arg, "--pub-qos") {
                match Self::parse_list(args, &mut i, "--pub-qos", MAX_QOS) {
                    Ok(v) => {
                        let list = narrow_to_u8(&v);
                        assert(list@ =~= v@.map_values(|x: u64| x as nat).map_values(
                            |x: nat| x as u8,
                        ));
                        f.pub_qos = Some(list);
                    },
                    Err(e) => {
                        return Invocation::Rejected(e);
                    },
                }
            } else if text::same_text(arg, "--sub-qos") {
                match Self::parse_list(args, &mut i, "--sub-qos", MAX_QOS) {
                    Ok(v) => {
                        let list = narrow_to_u8(&v);
                        assert(list@ =~= v@.map_values(|x: u64| x as nat).map_values(
                            |x: nat| x as u8,
                        ));
                        f.sub_qos = Some(list);
                    },
                    Err(e) => {
                        return Invocation::Rejected(e);
                    },
                }
            } else if text::same_text(arg, "--delay") {
                match Self::parse_list(args, &mut i, "--delay", u64::MAX) {
                    Ok(v) => {
                        assert(v@ =~= v@.map_values(|x: u64| x as nat).map_values(
                            |x: nat| x as u64,
                        ));
                        f.delay_ms = Some(v);
                    },
                    Err(e) => {
                        return Invocation::Rejected(e);
                    },
                }
            } else if text::same_text(arg, "--size") {
                match Self::parse_list(args, &mut i, "--size", usize::MAX as u64) {
                    Ok(v) => {
                        let list = narrow_to_usize(&v);
                        assert(list@ =~= v@.map_values(|x: u64| x as nat).map_values(
                            |x: nat| x as usize,
                        ));
                        f.msg_size = Some(list);
                    },
                    Err(e) => {
                        return Invocation::Rejected(e);
                    },
                }
            } else if text::same_text(arg, "--help") || text::same_text(arg, "-h") {
                return Invocation::Help;
            } else {
                return Invocation::Rejected(ArgError::UnknownArgument(arg.to_owned()));
            }
            i = i + 1;
        }
        Invocation::Run(f)
    }

    /// The combination passes all four filters.
    pub fn matches(&self, pub_qos: u8, sub_qos: u8, delay_ms: u64, msg_size: usize) -> (r: bool)
        ensures
            r == self@.admits_case(pub_qos, sub_qos, delay_ms, msg_size),
            r <==> {
                &&& self.pub_qos matches Some(v) ==> v@.contains(pub_qos)
                &&& self.sub_qos matches Some(v) ==> v@.contains(sub_qos)
                &&& self.delay_ms matches Some(v) ==> v@.contains(delay_ms)
                &&& self.msg_size matches Some(v) ==> v@.contains(msg_size)
            },
    {
        broadcast use group_laws_eq;

        list_admits(&self.pub_qos, pub_qos) && list_admits(&self.sub_qos, sub_qos) && list_admits(
            &self.delay_ms,
            delay_ms,
        ) && list_admits(&self.msg_size, msg_size)
    }
}

impl ArgError {
    /// The error as one line of text.
    pub fn message(&self) -> (r: String)
        ensures
            r@ == (match self@ {
                ArgErrorView::UnknownArgument(arg) => "Unknown argument: "@ + arg
                    + "  (try --help)"@,
                ArgErrorView::MissingValue(flag) => "Flag "@ + flag + " requires a value"@,
                ArgErrorView::NoValidValues { flag, raw } => "Flag "@ + flag
                    + ": no valid values in '"@ + raw + "'"@,
            }),
    {
        let mut out;
        match self {
            ArgError::UnknownArgument(arg) => {
                out = "Unknown argument: ".to_owned();
                out.append(arg.as_str());
                out.append("  (try --help)");
            },
            ArgError::MissingValue(flag) => {
                out = "Flag ".to_owned();
                out.append(flag.as_str());
                out.append(" requires a value");
            },
            ArgError::NoValidValues { flag, raw } => {
                out = "Flag ".to_owned();
                out.append(flag.as_str());
                out.append(": no valid values in '");
                out.append(raw.as_str());
                out.append("'");
            },
        }
        out
    }
}

// ---------------------------------------------------------------------------
// Laws
// ---------------------------------------------------------------------------

/// Without filters every combination is run.
pub proof fn law_no_filters_admit_all(pub_qos: u8, sub_qos: u8, delay_ms: u64, msg_size: usize)
    ensures
        no_filters().admits_case(pub_qos, sub_qos, delay_ms, msg_size),
{
}

/// A list of one number holds this number.
pub proof fn law_single_value(n: nat, max: nat)
    requires
        n <= max,
    ensures
        list_values(number::decimal(n), max) == seq![n],
{
    let s = number::decimal(n);
    let f = |piece: Seq<char>| number::unsigned_value(text::trim(piece), max);
    number::lemma_decimal(n);
    assert forall|i: int| 0 <= i < s.len() implies s[i] != ',' && !text::is_white_space(s[i]) by {
        assert(number::is_digit(s[i]));
    }
    text::lemma_split_nothing(s, ',');
    text::lemma_trim_nothing(s);
    number::law_decimal_round_trip(n, max);
    let pieces = text::split(s, ',');
    assert(pieces.drop_last() =~= Seq::empty());
    assert(pieces.drop_last().filter_map(f) =~= Seq::<nat>::empty());
    assert(pieces.filter_map(f) =~= seq![n]);
}

/// Every value of a list is in range.
proof fn lemma_values_in_range(
    pieces: Seq<Seq<char>>,
    f: spec_fn(Seq<char>) -> Option<nat>,
    max: nat,
)
    requires
        forall|piece: Seq<char>| (#[trigger] f(piece)) is Some ==> f(piece)->0 <= max,
    ensures
        forall|k: int|
            0 <= k < pieces.filter_map(f).len() ==> #[trigger] pieces.filter_map(f)[k] <= max,
    decreases pieces.len(),
{
    if pieces.len() > 0 {
        lemma_values_in_range(pieces.drop_last(), f, max);
        let before = pieces.drop_last().filter_map(f);
        let values = pieces.filter_map(f);
        assert forall|k: int| 0 <= k < values.len() implies #[trigger] values[k] <= max by {
            if k < before.len() {
                assert(values[k] == before[k]);
            } else {
                assert(f(pieces.last()) is Some);
            }
        }
    }
}

/// No list is empty, and the qualities of service are real ones.
pub open spec fn well_formed(f: FiltersView) -> bool {
    &&& f.pub_qos matches Some(v) ==> v.len() > 0 && forall|k: int|
        0 <= k < v.len() ==> #[trigger] v[k] <= MAX_QOS
    &&& f.sub_qos matches Some(v) ==> v.len() > 0 && forall|k: int|
        0 <= k < v.len() ==> #[trigger] v[k] <= MAX_QOS
    &&& f.delay_ms matches Some(v) ==> v.len() > 0
    &&& f.msg_size matches Some(v) ==> v.len() > 0
}

/// Filters from a command line never hold an empty list, nor a quality of
/// service that does not exist.
pub proof fn law_filters_well_formed(args: Seq<Seq<char>>, i: int, f: FiltersView)
    requires
        well_formed(f),
    ensures
        invocation(args, i, f) matches InvocationView::Run(g) ==> well_formed(g),
    decreases args.len() - i,
{
    let parse = |piece: Seq<char>| number::unsigned_value(text::trim(piece), MAX_QOS as nat);
    if i < args.len() {
        if args[i] == "--pub-qos"@ {
            if let Ok(v) = flag_values(args, i, "--pub-qos"@, MAX_QOS as nat) {
                lemma_values_in_range(text::split(args[i + 1], ','), parse, MAX_QOS as nat);
                let g = FiltersView { pub_qos: Some(v.map_values(|x: nat| x as u8)), ..f };
                assert(well_formed(g));
                law_filters_well_formed(args, i + 2, g);
            }
        } else if args[i] == "--sub-qos"@ {
            if let Ok(v) = flag_values(args, i, "--sub-qos"@, MAX_QOS as nat) {
                lemma_values_in_range(text::split(args[i + 1], ','), parse, MAX_QOS as nat);
                let g = FiltersView { sub_qos: Some(v.map_values(|x: nat| x as u8)), ..f };
                assert(well_formed(g));
                law_filters_well_formed(args, i + 2, g);
            }
        } else if args[i] == "--delay"@ {
            if let Ok(v) = flag_values(args, i, "--delay"@, u64::MAX as nat) {
                law_filters_well_formed(
                    args,
                    i + 2,
                    FiltersView { delay_ms: Some(v.map_values(|x: nat| x as u64)), ..f },
                );
            }
        } else if args[i] == "--size"@ {
            if let Ok(v) = flag_values(args, i, "--size"@, usize::MAX as nat) {
                law_filters_well_formed(
                    args,
                    i + 2,
                    FiltersView { msg_size: Some(v.map_values(|x: nat| x as usize)), ..f },
                );
            }
        }
    }
}

/// A flag changes its own dimension only: a dimension that is filtered in the
/// end was filtered before, or its flag stands on the line.
pub proof fn law_unspecified_dimensions_untouched(args: Seq<Seq<char>>, i: int, f: FiltersView)
    requires
        0 <= i,
    ensures
        invocation(args, i, f) matches InvocationView::Run(g) ==> {
            &&& g.pub_qos == f.pub_qos || args.contains("--pub-qos"@)
            &&& g.sub_qos == f.sub_qos || args.contains("--sub-qos"@)
            &&& g.delay_ms == f.delay_ms || args.contains("--delay"@)
            &&& g.msg_size == f.msg_size || args.contains("--size"@)
        },
    decreases args.len() - i,
{
    if i < args.len() {
        assert(args.contains(args[i]));
        if args[i] == "--pub-qos"@ {
            if let Ok(v) = flag_values(args, i, "--pub-qos"@, MAX_QOS as nat) {
                law_unspecified_dimensions_untouched(
                    args,
                    i + 2,
                    FiltersView { pub_qos: Some(v.map_values(|x: nat| x as u8)), ..f },
                );
            }
        } else if args[i] == "--sub-qos"@ {
            if let Ok(v) = flag_values(args, i, "--sub-qos"@, MAX_QOS as nat) {
                law_unspecified_dimensions_untouched(
                    args,
                    i + 2,
                    FiltersView { sub_qos: Some(v.map_values(|x: nat| x as u8)), ..f },
                );
            }
        } else if args[i] == "--delay"@ {
            if let Ok(v) = flag_values(args, i, "--delay"@, u64::MAX as nat) {
                law_unspecified_dimensions_untouched(
                    args,
                    i + 2,
                    FiltersView { delay_ms: Some(v.map_values(|x: nat| x as u64)), ..f },
                );
            }
        } else if args[i] == "--size"@ {
            if let Ok(v) = flag_values(args, i, "--size"@, usize::MAX as nat) {
                law_unspecified_dimensions_untouched(
                    args,
                    i + 2,
                    FiltersView { msg_size: Some(v.map_values(|x: nat| x as usize)), ..f },
                );
            }
        }
    }
}

/// Flags combine freely: a line that is accepted can be continued, and what
/// follows starts from the filters that the first part has led to. So a flag
/// that is given twice counts with its last list.
pub proof fn law_lines_continue(
    args: Seq<Seq<char>>,
    more: Seq<Seq<char>>,
    i: int,
    f: FiltersView,
)
    requires
        0 <= i <= args.len(),
    ensures
        invocation(args, i, f) matches InvocationView::Run(g) ==> invocation(args + more, i, f)
            == invocation(args + more, args.len() as int, g),
    decreases args.len() - i,
{
    if i < args.len() && invocation(args, i, f) is Run {
        let all = args + more;
        assert(all[i] == args[i]);
        if i + 1 < args.len() {
            assert(all[i + 1] == args[i + 1]);
        }
        if args[i] == "--pub-qos"@ {
            let v = flag_values(args, i, "--pub-qos"@, MAX_QOS as nat)->Ok_0;
            law_lines_continue(
                args,
                more,
                i + 2,
                FiltersView { pub_qos: Some(v.map_values(|x: nat| x as u8)), ..f },
            );
        } else if args[i] == "--sub-qos"@ {
            let v = flag_values(args, i, "--sub-qos"@, MAX_QOS as nat)->Ok_0;
            law_lines_continue(
                args,
                more,
                i + 2,
                FiltersView { sub_qos: Some(v.map_values(|x: nat| x as u8)), ..f },
            );
        } else if args[i] == "--delay"@ {
            let v = flag_values(args, i, "--delay"@, u64::MAX as nat)->Ok_0;
            law_lines_continue(
                args,
                more,
                i + 2,
                FiltersView { delay_ms: Some(v.map_values(|x: nat| x as u64)), ..f },
            );
        } else if args[i] == "--size"@ {
            let v = flag_values(args, i, "--size"@, usize::MAX as nat)->Ok_0;
            law_lines_continue(
                args,
                more,
                i + 2,
                FiltersView { msg_size: Some(v.map_values(|x: nat| x as usize)), ..f },
            );
        }
    }
}

/// A list lets exactly its own values through, each of them wherever it stands;
/// without a list every value passes.
pub proof fn law_list_admits_members<T>(values: Seq<T>, x: T)
    ensures
        admits(None::<Seq<T>>, x),
        forall|k: int| 0 <= k < values.len() ==> admits(Some(values), #[trigger] values[k]),
        admits(Some(values), x) ==> exists|k: int|
            0 <= k < values.len() && #[trigger] values[k] == x,
{
    assert forall|k: int| 0 <= k < values.len() implies admits(Some(values), #[trigger] values[k]) by {
        assert(values.contains(values[k]));
    }
}

/// A longer list lets through what either of its parts lets through.
pub proof fn law_longer_list_admits_more<T>(values: Seq<T>, more: Seq<T>, x: T)
    ensures
        admits(Some(values + more), x) <==> admits(Some(values), x) || admits(Some(more), x),
{
    let all = values + more;
    if values.contains(x) {
        let k = choose|k: int| 0 <= k < values.len() && values[k] == x;
        assert(all[k] == x);
    }
    if more.contains(x) {
        let k = choose|k: int| 0 <= k < more.len() && more[k] == x;
        assert(all[values.len() + k] == x);
    }
    if all.contains(x) {
        let k = choose|k: int| 0 <= k < all.len() && all[k] == x;
        if k < values.len() {
            assert(values[k] == x);
        } else {
            assert(more[k - values.len()] == x);
        }
    }
}

/// A combination passes exactly if each of its four values passes on its own
/// side.
pub proof fn law_dimensions_independent(
    f: FiltersView,
    pub_qos: u8,
    sub_qos: u8,
    delay_ms: u64,
    msg_size: usize,
)
    ensures
        f.admits_case(pub_qos, sub_qos, delay_ms, msg_size) <==> {
            &&& f.pub_qos matches Some(v) ==> v.contains(pub_qos)
            &&& f.sub_qos matches Some(v) ==> v.contains(sub_qos)
            &&& f.delay_ms matches Some(v) ==> v.contains(delay_ms)
            &&& f.msg_size matches Some(v) ==> v.contains(msg_size)
        },
{
}

/// The view of filters shows each list under its own name, with all its values.
pub proof fn law_filters_view_faithful(f: Filters)
    ensures
        f@.pub_qos is Some <==> f.pub_qos is Some,
        f@.sub_qos is Some <==> f.sub_qos is Some,
        f@.delay_ms is Some <==> f.delay_ms is Some,
        f@.msg_size is Some <==> f.msg_size is Some,
        f.pub_qos matches Some(v) ==> f@.pub_qos == Some(v@),
        f.sub_qos matches Some(v) ==> f@.sub_qos == Some(v@),
        f.delay_ms matches Some(v) ==> f@.delay_ms == Some(v@),
        f.msg_size matches Some(v) ==> f@.msg_size == Some(v@),
{
}

/// The view of an answer shows which answer it is, and all that it holds.
pub proof fn law_invocation_view_faithful(r: Invocation)
    ensures
        match r {
            Invocation::Run(f) => r@ == InvocationView::Run(f@),
            Invocation::Help => r@ == InvocationView::Help,
            Invocation::Rejected(ArgError::UnknownArgument(s)) => r@ == InvocationView::Rejected(
                ArgErrorView::UnknownArgument(s@),
            ),
            Invocation::Rejected(ArgError::MissingValue(flag)) => r@ == InvocationView::Rejected(
                ArgErrorView::MissingValue(flag@),
            ),
            Invocation::Rejected(ArgError::NoValidValues { flag, raw }) => r@
                == InvocationView::Rejected(
                ArgErrorView::NoValidValues { flag: flag@, raw: raw@ },
            ),
        },
{
}

/// The texts of the arguments are those of all of them, in order.
pub proof fn law_texts_faithful(args: Seq<String>)
    ensures
        texts(args).len() == args.len(),
        forall|i: int| 0 <= i < args.len() ==> #[trigger] texts(args)[i] == args[i]@,
{
}

/// Text without a comma is a list of the number that it writes, white space
/// around it aside; where it writes none, the list is empty.
pub proof fn law_piece_value(piece: Seq<char>, max: nat)
    requires
        !piece.contains(','),
    ensures
        list_values(piece, max) == (match number::unsigned_value(text::trim(piece), max) {
            Some(n) => seq![n],
            None => Seq::empty(),
        }),
{
    let f = |piece: Seq<char>| number::unsigned_value(text::trim(piece), max);
    assert forall|i: int| 0 <= i < piece.len() implies piece[i] != ',' by {
        assert(piece.contains(piece[i]));
    }
    text::lemma_split_nothing(piece, ',');
    let pieces = text::split(piece, ',');
    assert(pieces.drop_last() =~= Seq::empty());
    assert(pieces.drop_last().filter_map(f) =~= Seq::<nat>::empty());
    assert(pieces.last() == piece);
    if let Some(n) = f(piece) {
        assert(pieces.filter_map(f) =~= seq![n]);
    }
}

proof fn lemma_filter_map_append(
    a: Seq<Seq<char>>,
    b: Seq<Seq<char>>,
    f: spec_fn(Seq<char>) -> Option<nat>,
)
    ensures
        (a + b).filter_map(f) == a.filter_map(f) + b.filter_map(f),
    decreases b.len(),
{
    if b.len() == 0 {
        assert(a + b =~= a);
        assert(b.filter_map(f) =~= Seq::<nat>::empty());
        assert(a.filter_map(f) + b.filter_map(f) =~= a.filter_map(f));
    } else {
        lemma_filter_map_append(a, b.drop_last(), f);
        assert((a + b).drop_last() =~= a + b.drop_last());
        assert((a + b).filter_map(f) =~= a.filter_map(f) + b.filter_map(f));
    }
}

/// The values of two lists with a comma between them are those of the one, then
/// those of the other.
pub proof fn law_lists_joined(a: Seq<char>, b: Seq<char>, max: nat)
    ensures
        list_values(a + seq![','] + b, max) == list_values(a, max) + list_values(b, max),
{
    let f = |piece: Seq<char>| number::unsigned_value(text::trim(piece), max);
    text::law_split_joined(a, b, ',');
    lemma_filter_map_append(text::split(a, ','), text::split(b, ','), f);
}

/// A flag and its list, behind a line that is accepted, replace the list of the
/// flag's dimension and leave the others as they are; a list without a value
/// that the flag can take is refused.
pub proof fn law_flag_sets_its_dimension(
    args: Seq<Seq<char>>,
    raw: Seq<char>,
    i: int,
    f: FiltersView,
    g: FiltersView,
)
    requires
        0 <= i <= args.len(),
        invocation(args, i, f) == InvocationView::Run(g),
    ensures
        invocation(args.push("--pub-qos"@).push(raw), i, f) == (if list_values(raw, 2).len() > 0 {
            InvocationView::Run(
                FiltersView {
                    pub_qos: Some(list_values(raw, 2).map_values(|x: nat| x as u8)),
                    ..g
                },
            )
        } else {
            InvocationView::Rejected(ArgErrorView::NoValidValues { flag: "--pub-qos"@, raw })
        }),
        invocation(args.push("--sub-qos"@).push(raw), i, f) == (if list_values(raw, 2).len() > 0 {
            InvocationView::Run(
                FiltersView {
                    sub_qos: Some(list_values(raw, 2).map_values(|x: nat| x as u8)),
                    ..g
                },
            )
        } else {
            InvocationView::Rejected(ArgErrorView::NoValidValues { flag: "--sub-qos"@, raw })
        }),
        invocation(args.push("--delay"@).push(raw), i, f) == (if list_values(
            raw,
            u64::MAX as nat,
        ).len() > 0 {
            InvocationView::Run(
                FiltersView {
                    delay_ms: Some(
                        list_values(raw, u64::MAX as nat).map_values(|x: nat| x as u64),
                    ),
                    ..g
                },
            )
        } else {
            InvocationView::Rejected(ArgErrorView::NoValidValues { flag: "--delay"@, raw })
        }),
        invocation(args.push("--size"@).push(raw), i, f) == (if list_values(
            raw,
            usize::MAX as nat,
        ).len() > 0 {
            InvocationView::Run(
                FiltersView {
                    msg_size: Some(
                        list_values(raw, usize::MAX as nat).map_values(|x: nat| x as usize),
                    ),
                    ..g
                },
            )
        } else {
            InvocationView::Rejected(ArgErrorView::NoValidValues { flag: "--size"@, raw })
        }),
{
    lemma_flags_distinct();
    lemma_one_flag(args, "--pub-qos"@, raw, i, f, g);
    lemma_one_flag(args, "--sub-qos"@, raw, i, f, g);
    lemma_one_flag(args, "--delay"@, raw, i, f, g);
    lemma_one_flag(args, "--size"@, raw, i, f, g);
    reveal_with_fuel(invocation, 2);
    assert(seq!["--pub-qos"@, raw][1] == raw);
    assert(seq!["--sub-qos"@, raw][1] == raw);
    assert(seq!["--delay"@, raw][1] == raw);
    assert(seq!["--size"@, raw][1] == raw);
}

/// A flag and its list behind an accepted line are taken on their own.
proof fn lemma_one_flag(
    args: Seq<Seq<char>>,
    flag: Seq<char>,
    raw: Seq<char>,
    i: int,
    f: FiltersView,
    g: FiltersView,
)
    requires
        0 <= i <= args.len(),
        invocation(args, i, f) == InvocationView::Run(g),
    ensures
        invocation(args.push(flag).push(raw), i, f) == invocation(seq![flag, raw], 0, g),
{
    let more = seq![flag, raw];
    law_lines_continue(args, more, i, f);
    assert(args + more =~= args.push(flag).push(raw));
    lemma_invocation_shift(args, more, 0, g);
}

/// What stands before index `i` does not matter.
proof fn lemma_invocation_shift(
    before: Seq<Seq<char>>,
    args: Seq<Seq<char>>,
    i: int,
    f: FiltersView,
)
    requires
        0 <= i,
    ensures
        invocation(before + args, before.len() + i, f) == invocation(args, i, f),
    decreases args.len() - i,
{
    let all = before + args;
    let n = before.len() as int;
    if i < args.len() {
        assert(all[n + i] == args[i]);
        if i + 1 < args.len() {
            assert(all[n + i + 1] == args[i + 1]);
        }
        if args[i] == "--pub-qos"@ {
            if let Ok(v) = flag_values(args, i, "--pub-qos"@, MAX_QOS as nat) {
                let g = FiltersView { pub_qos: Some(v.map_values(|x: nat| x as u8)), ..f };
                lemma_invocation_shift(before, args, i + 2, g);
            }
        } else if args[i] == "--sub-qos"@ {
            if let Ok(v) = flag_values(args, i, "--sub-qos"@, MAX_QOS as nat) {
                let g = FiltersView { sub_qos: Some(v.map_values(|x: nat| x as u8)), ..f };
                lemma_invocation_shift(before, args, i + 2, g);
            }
        } else if args[i] == "--delay"@ {
            if let Ok(v) = flag_values(args, i, "--delay"@, u64::MAX as nat) {
                let g = FiltersView { delay_ms: Some(v.map_values(|x: nat| x as u64)), ..f };
                lemma_invocation_shift(before, args, i + 2, g);
            }
        } else if args[i] == "--size"@ {
            if let Ok(v) = flag_values(args, i, "--size"@, usize::MAX as nat) {
                let g = FiltersView { msg_size: Some(v.map_values(|x: nat| x as usize)), ..f };
                lemma_invocation_shift(before, args, i + 2, g);
            }
        }
    }
}

proof fn lemma_flags_distinct()
    ensures
        "--pub-qos"@ != "--sub-qos"@,
        "--pub-qos"@.len() == 9,
        "--sub-qos"@.len() == 9,
        "--delay"@.len() == 7,
        "--size"@.len() == 6,
        "--help"@.len() == 6,
        "--size"@ != "--help"@,
        "-h"@.len() == 2,
{
    reveal_strlit("--pub-qos");
    reveal_strlit("--sub-qos");
    reveal_strlit("--delay");
    reveal_strlit("--size");
    reveal_strlit("--help");
    reveal_strlit("-h");
    assert("--pub-qos"@[2] != "--sub-qos"@[2]);
    assert("--size"@[2] != "--help"@[2]);
}

/// Behind a line that is accepted, `--help` and `-h` ask for the help, a flag
/// without a list is refused for want of a value, and everything else is
/// refused as unknown. No argument at all asks for a run as it stands.
pub proof fn law_last_argument(
    args: Seq<Seq<char>>,
    arg: Seq<char>,
    i: int,
    f: FiltersView,
    g: FiltersView,
)
    requires
        0 <= i <= args.len(),
        invocation(args, i, f) == InvocationView::Run(g),
    ensures
        invocation(args, args.len() as int, g) == InvocationView::Run(g),
        invocation(args.push(arg), i, f) == (if arg == "--help"@ || arg == "-h"@ {
            InvocationView::Help
        } else if arg == "--pub-qos"@ || arg == "--sub-qos"@ || arg == "--delay"@ || arg
            == "--size"@ {
            InvocationView::Rejected(ArgErrorView::MissingValue(arg))
        } else {
            InvocationView::Rejected(ArgErrorView::UnknownArgument(arg))
        }),
{
    let more = seq![arg];
    lemma_flags_distinct();
    law_lines_continue(args, more, i, f);
    assert(args + more =~= args.push(arg));
    lemma_invocation_shift(args, more, 0, g);
    assert(more[0] == arg);
}

/// A request for help, or a refusal for anything but a missing value, stands
/// whatever follows on the line.
pub proof fn law_first_decides(
    args: Seq<Seq<char>>,
    more: Seq<Seq<char>>,
    i: int,
    f: FiltersView,
)
    requires
        0 <= i,
        match invocation(args, i, f) {
            InvocationView::Run(_) => false,
            InvocationView::Help => true,
            InvocationView::Rejected(e) => !(e is MissingValue),
        },
    ensures
        invocation(args + more, i, f) == invocation(args, i, f),
    decreases args.len() - i,
{
    let all = args + more;
    if i < args.len() {
        assert(all[i] == args[i]);
        if i + 1 < args.len() {
            assert(all[i + 1] == args[i + 1]);
        }
        if args[i] == "--pub-qos"@ {
            if let Ok(v) = flag_values(args, i, "--pub-qos"@, MAX_QOS as nat) {
                let g = FiltersView { pub_qos: Some(v.map_values(|x: nat| x as u8)), ..f };
                law_first_decides(args, more, i + 2, g);
            }
        } else if args[i] == "--sub-qos"@ {
            if let Ok(v) = flag_values(args, i, "--sub-qos"@, MAX_QOS as nat) {
                let g = FiltersView { sub_qos: Some(v.map_values(|x: nat| x as u8)), ..f };
                law_first_decides(args, more, i + 2, g);
            }
        } else if args[i] == "--delay"@ {
            if let Ok(v) = flag_values(args, i, "--delay"@, u64::MAX as nat) {
                let g = FiltersView { delay_ms: Some(v.map_values(|x: nat| x as u64)), ..f };
                law_first_decides(args, more, i + 2, g);
            }
        } else if args[i] == "--size"@ {
            if let Ok(v) = flag_values(args, i, "--size"@, usize::MAX as nat) {
                let g = FiltersView { msg_size: Some(v.map_values(|x: nat| x as usize)), ..f };
                law_first_decides(args, more, i + 2, g);
            }
        }
    }
}

/// Where no argument is left, the filters stay as they are.
pub proof fn law_no_argument_left(args: Seq<Seq<char>>, i: int, f: FiltersView)
    requires
        i >= args.len(),
    ensures
        invocation(args, i, f) == InvocationView::Run(f),
{
}

} // verus!
