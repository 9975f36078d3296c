//! Text that is no number: comparing, trimming and splitting it, and padding
//! it to a column.

use vstd::prelude::*;
use vstd::slice::*;
use vstd::string::*;
use vstd::utf8::*;

verus! {

/// The index of the first `x` in `s`, or the length of `s` where there is none.
pub open spec fn first_index<T>(s: Seq<T>, x: T) -> int
    decreases s.len(),
{
    if s.len() == 0 || s[0] == x {
        0
    } else {
        1 + first_index(s.drop_first(), x)
    }
}

/// `k` is the first index of `x` exactly if no `x` stands before it, and one
/// stands at it unless it is the length.
pub proof fn lemma_first_index<T>(s: Seq<T>, x: T, k: int)
    ensures
        k == first_index(s, x) <==> {
            &&& 0 <= k <= s.len()
            &&& forall|j: int| 0 <= j < k ==> s[j] != x
            &&& k < s.len() ==> s[k] == x
        },
    decreases s.len(),
{
    if s.len() > 0 && s[0] != x {
        let rest = s.drop_first();
        lemma_first_index(rest, x, k - 1);
        if k > 0 && 0 <= k - 1 <= rest.len() && (k - 1 < rest.len() ==> rest[k - 1] == x)
            && forall|j: int| 0 <= j < k ==> s[j] != x {
            assert forall|j: int| 0 <= j < k - 1 implies rest[j] != x by {
                assert(s[j + 1] != x);
            }
        }
        if k == first_index(s, x) {
            assert forall|j: int| 0 <= j < k implies s[j] != x by {
                if j > 0 {
                    assert(rest[j - 1] != x);
                }
            }
        }
    }
}

/// The index of the first byte `x`, or the length where there is none.
pub fn find_byte(s: &[u8], x: u8) -> (r: usize)
    ensures
        r == first_index(s@, x),
        r <= s@.len(),
{
    let mut i: usize = 0;
    while i < s.len() && s[i] != x
        invariant
            i <= s.len(),
            forall|j: int| 0 <= j < i ==> s@[j] != x,
        decreases s.len() - i,
    {
        i = i + 1;
    }
    proof {
        lemma_first_index(s@, x, i as int);
    }
    i
}

/// The two texts are the same.
pub fn same_text(a: &str, b: &str) -> (r: bool)
    ensures
        r == (a@ == b@),
{
    let x = a.as_bytes();
    let y = b.as_bytes();
    proof {
        encode_utf8_decode_utf8(a@);
        encode_utf8_decode_utf8(b@);
    }
    same_bytes(x, y)
}

/// The two byte strings are the same.
pub fn same_bytes(x: &[u8], y: &[u8]) -> (r: bool)
    ensures
        r == (x@ == y@),
{
    if x.len() != y.len() {
        return false;
    }
    let mut i: usize = 0;
    while i < x.len()
        invariant
            i <= x.len(),
            x.len() == y.len(),
            forall|j: int| 0 <= j < i ==> x@[j] == y@[j],
        decreases x.len() - i,
    {
        if x[i] != y[i] {
            return false;
        }
        i = i + 1;
    }
    assert(x@ =~= y@);
    true
}

/// `s` starts with `prefix`.
pub open spec fn has_prefix(s: Seq<char>, prefix: Seq<char>) -> bool {
    prefix.len() <= s.len() && s.take(prefix.len() as int) == prefix
}

/// The characters of a text, one by one.
pub fn chars_of(s: &str) -> (r: Vec<char>)
    ensures
        r@ == s@,
{
    let mut out: Vec<char> = Vec::new();
    for c in it: s.chars()
        invariant
            out@ == it.seq().take(it.index()),
            it.seq() == s@,
    {
        out.push(c);
    }
    out
}

/// `text` starts with `prefix`.
pub fn text_has_prefix(text: &str, prefix: &str) -> (r: bool)
    ensures
        r == has_prefix(text@, prefix@),
{
    let mut rest = text.chars();
    let mut wanted = prefix.chars();
    let ghost mut k: int = 0;
    assert(text@.skip(0) =~= text@);
    assert(prefix@.skip(0) =~= prefix@);
    loop
        invariant
            0 <= k <= prefix@.len(),
            k <= text@.len(),
            vstd::std_specs::iter::IteratorSpec::remaining(&rest) == text@.skip(k),
            vstd::std_specs::iter::IteratorSpec::remaining(&wanted) == prefix@.skip(k),
            forall|j: int| 0 <= j < k ==> text@[j] == prefix@[j],
        decreases prefix@.len() - k,
    {
        match wanted.next() {
            None => {
                assert(text@.take(prefix@.len() as int) =~= prefix@);
                return true;
            },
            Some(c) => match rest.next() {
                Some(d) => {
                    if c != d {
                        proof {
                            if prefix@.len() <= text@.len() {
                                assert(text@.take(prefix@.len() as int)[k] != prefix@[k]);
                            }
                        }
                        return false;
                    }
                    proof {
                        assert(text@.skip(k).drop_first() =~= text@.skip(k + 1));
                        assert(prefix@.skip(k).drop_first() =~= prefix@.skip(k + 1));
                        k = k + 1;
                    }
                },
                None => {
                    return false;
                },
            },
        }
    }
}

// ---------------------------------------------------------------------------
// White space
// ---------------------------------------------------------------------------

/// The characters with the Unicode property White_Space.
pub open spec fn is_white_space(c: char) -> bool {
    ||| '\u{9}' <= c <= '\u{d}'
    ||| c == '\u{20}'
    ||| c == '\u{85}'
    ||| c == '\u{a0}'
    ||| c == '\u{1680}'
    ||| '\u{2000}' <= c <= '\u{200a}'
    ||| c == '\u{2028}'
    ||| c == '\u{2029}'
    ||| c == '\u{202f}'
    ||| c == '\u{205f}'
    ||| c == '\u{3000}'
}

/// `s` without the white space at its start.
pub open spec fn trim_start(s: Seq<char>) -> Seq<char>
    decreases s.len(),
{
    if s.len() > 0 && is_white_space(s[0]) {
        trim_start(s.drop_first())
    } else {
        s
    }
}

/// `s` without the white space at its end.
pub open spec fn trim_end(s: Seq<char>) -> Seq<char>
    decreases s.len(),
{
    if s.len() > 0 && is_white_space(s.last()) {
        trim_end(s.drop_last())
    } else {
        s
    }
}

/// `s` without the white space around it.
pub open spec fn trim(s: Seq<char>) -> Seq<char> {
    trim_end(trim_start(s))
}

/// `c` is white space.
pub fn white_space(c: char) -> (r: bool)
    ensures
        r == is_white_space(c),
{
    ('\u{9}' <= c && c <= '\u{d}') || c == '\u{20}' || c == '\u{85}' || c == '\u{a0}' || c
        == '\u{1680}' || ('\u{2000}' <= c && c <= '\u{200a}') || c == '\u{2028}' || c == '\u{2029}'
        || c == '\u{202f}' || c == '\u{205f}' || c == '\u{3000}'
}

/// Where the characters without the white space around them start and end.
fn trim_range(s: &[char]) -> (r: (usize, usize))
    ensures
        r.0 <= r.1 <= s@.len(),
        s@.subrange(r.0 as int, r.1 as int) == trim(s@),
{
    let mut start: usize = 0;
    assert(s@.skip(0) =~= s@);
    while start < s.len() && white_space(s[start])
        invariant
            start <= s.len(),
            trim_start(s@.skip(start as int)) == trim_start(s@),
        decreases s.len() - start,
    {
        assert(s@.skip(start as int).drop_first() =~= s@.skip(start + 1));
        start = start + 1;
    }
    let mut end: usize = s.len();
    let ghost body = trim_start(s@);
    assert(body == s@.skip(start as int));
    assert(s@.subrange(start as int, s@.len() as int) =~= body);
    while start < end && white_space(s[end - 1])
        invariant
            start <= end <= s.len(),
            trim_end(s@.subrange(start as int, end as int)) == trim_end(body),
        decreases end,
    {
        assert(s@.subrange(start as int, end as int).drop_last() =~= s@.subrange(
            start as int,
            end - 1,
        ));
        end = end - 1;
    }
    (start, end)
}

/// The characters without the white space around them.
pub fn trim_chars(s: &[char]) -> (r: &[char])
    ensures
        r@ == trim(s@),
{
    let (start, end) = trim_range(s);
    slice_subrange(s, start, end)
}

/// The text without the white space around it.
pub fn trim_text(s: &str) -> (r: &str)
    ensures
        r@ == trim(s@),
{
    let chars = chars_of(s);
    let (start, end) = trim_range(chars.as_slice());
    s.substring_char(start, end)
}

/// Text with a character that is no white space at either end is left as it is.
pub proof fn lemma_trim_nothing(s: Seq<char>)
    requires
        s.len() > 0,
        !is_white_space(s[0]),
        !is_white_space(s.last()),
    ensures
        trim(s) == s,
{
}

// ---------------------------------------------------------------------------
// Lists
// ---------------------------------------------------------------------------

/// The pieces of `s` between the separators: one more piece than there are
/// separators.
pub open spec fn split(s: Seq<char>, separator: char) -> Seq<Seq<char>>
    decreases s.len(),
{
    let k = first_index(s, separator);
    if 0 <= k < s.len() {
        seq![s.take(k)] + split(s.skip(k + 1), separator)
    } else {
        seq![s]
    }
}

/// Text without the separator is its own only piece.
pub proof fn lemma_split_nothing(s: Seq<char>, separator: char)
    requires
        forall|i: int| 0 <= i < s.len() ==> s[i] != separator,
    ensures
        split(s, separator) == seq![s],
{
    lemma_first_index(s, separator, s.len() as int);
}

// ---------------------------------------------------------------------------
// Columns
// ---------------------------------------------------------------------------

/// `n` times the character `c`.
pub open spec fn repeated(c: char, n: nat) -> Seq<char> {
    Seq::new(n, |i: int| c)
}

/// `s` pushed to the right end of a column `width` characters wide. Text that
/// is wider than the column stays as it is.
pub open spec fn pad_left(s: Seq<char>, width: nat) -> Seq<char> {
    if s.len() < width {
        repeated(' ', (width - s.len()) as nat) + s
    } else {
        s
    }
}

/// Appends the one-character text `unit`, `n` times.
pub fn push_repeated(out: &mut String, unit: &str, n: usize)
    requires
        unit@.len() == 1,
    ensures
        final(out)@ == old(out)@ + repeated(unit@[0], n as nat),
{
    let mut i: usize = 0;
    while i < n
        invariant
            i <= n,
            unit@.len() == 1,
            out@ == old(out)@ + repeated(unit@[0], i as nat),
        decreases n - i,
    {
        out.append(unit);
        assert(repeated(unit@[0], (i + 1) as nat) =~= repeated(unit@[0], i as nat) + unit@);
        i = i + 1;
    }
}

/// Appends `s`, pushed to the right end of a column `width` characters wide.
pub fn push_padded(out: &mut String, s: &str, width: usize)
    ensures
        final(out)@ == old(out)@ + pad_left(s@, width as nat),
{
    let len: usize = s.unicode_len();
    if len < width {
        proof {
            reveal_strlit(" ");
        }
        push_repeated(out, " ", width - len);
    }
    out.append(s);
    assert(out@ =~= old(out)@ + pad_left(s@, width as nat));
}

// ---------------------------------------------------------------------------
// Laws
// ---------------------------------------------------------------------------

/// A text starts with a prefix exactly if it is the prefix and something
/// behind it.
pub proof fn law_prefix_exact(s: Seq<char>, prefix: Seq<char>)
    ensures
        has_prefix(s, prefix) <==> exists|rest: Seq<char>| s == #[trigger] (prefix + rest),
{
    if has_prefix(s, prefix) {
        let n = prefix.len() as int;
        assert(s =~= s.take(n) + s.skip(n));
        assert(s == prefix + s.skip(n));
    }
    if exists|rest: Seq<char>| s == #[trigger] (prefix + rest) {
        let rest = choose|rest: Seq<char>| s == #[trigger] (prefix + rest);
        assert(s.take(prefix.len() as int) =~= prefix);
    }
}

proof fn lemma_trim_start(s: Seq<char>) -> (k: int)
    ensures
        0 <= k <= s.len(),
        trim_start(s) == s.skip(k),
        forall|j: int| 0 <= j < k ==> is_white_space(#[trigger] s[j]),
        k < s.len() ==> !is_white_space(s[k]),
    decreases s.len(),
{
    if s.len() > 0 && is_white_space(s[0]) {
        let rest = s.drop_first();
        let k = lemma_trim_start(rest);
        assert(rest.skip(k) =~= s.skip(k + 1));
        assert forall|j: int| 0 <= j < k + 1 implies is_white_space(#[trigger] s[j]) by {
            if j > 0 {
                assert(rest[j - 1] == s[j]);
            }
        }
        k + 1
    } else {
        assert(s.skip(0) =~= s);
        0
    }
}

proof fn lemma_trim_end(s: Seq<char>) -> (k: int)
    ensures
        0 <= k <= s.len(),
        trim_end(s) == s.take(k),
        forall|j: int| k <= j < s.len() ==> is_white_space(#[trigger] s[j]),
        k > 0 ==> !is_white_space(s[k - 1]),
    decreases s.len(),
{
    if s.len() > 0 && is_white_space(s.last()) {
        let rest = s.drop_last();
        let k = lemma_trim_end(rest);
        assert(rest.take(k) =~= s.take(k));
        assert forall|j: int| k <= j < s.len() implies is_white_space(#[trigger] s[j]) by {
            if j < s.len() - 1 {
                assert(rest[j] == s[j]);
            }
        }
        k
    } else {
        assert(s.take(s.len() as int) =~= s);
        s.len() as int
    }
}

/// Trimming takes white space away, at the two ends only, and all of it that
/// stands there.
pub proof fn law_trim_exact(s: Seq<char>)
    ensures
        exists|start: int, end: int|
            {
                &&& 0 <= start <= end <= s.len()
                &&& trim(s) == #[trigger] s.subrange(start, end)
                &&& forall|j: int|
                    0 <= j < start || end <= j < s.len() ==> is_white_space(#[trigger] s[j])
            },
        trim(s).len() > 0 ==> !is_white_space(trim(s)[0]) && !is_white_space(trim(s).last()),
{
    let start = lemma_trim_start(s);
    let body = trim_start(s);
    let n = lemma_trim_end(body);
    let end = start + n;
    assert(body.take(n) =~= s.subrange(start, end));
    assert forall|j: int| 0 <= j < start || end <= j < s.len() implies is_white_space(
        #[trigger] s[j],
    ) by {
        if end <= j {
            assert(body[j - start] == s[j]);
        }
    }
    if n > 0 {
        assert(body[0] == s[start]);
        assert(trim(s)[0] == body[0]);
        assert(trim(s).last() == body[n - 1]);
    }
}

/// White space around a text makes no difference to what is left of it.
pub proof fn law_trim_ignores_surroundings(before: Seq<char>, s: Seq<char>, after: Seq<char>)
    requires
        forall|j: int| 0 <= j < before.len() ==> is_white_space(#[trigger] before[j]),
        forall|j: int| 0 <= j < after.len() ==> is_white_space(#[trigger] after[j]),
    ensures
        trim(before + s + after) == trim(s),
{
    let whole = before + s + after;
    law_trim_exact(s);
    law_trim_exact(whole);
    let (a, b) = choose|a: int, b: int|
        {
            &&& 0 <= a <= b <= s.len()
            &&& trim(s) == #[trigger] s.subrange(a, b)
            &&& forall|j: int| 0 <= j < a || b <= j < s.len() ==> is_white_space(#[trigger] s[j])
        };
    let (c, d) = choose|c: int, d: int|
        {
            &&& 0 <= c <= d <= whole.len()
            &&& trim(whole) == #[trigger] whole.subrange(c, d)
            &&& forall|j: int|
                0 <= j < c || d <= j < whole.len() ==> is_white_space(#[trigger] whole[j])
        };
    let n = before.len() as int;
    assert forall|j: int| 0 <= j < n + a || n + b <= j < whole.len() implies is_white_space(
        #[trigger] whole[j],
    ) by {
        if j < n {
            assert(whole[j] == before[j]);
        } else if j < n + s.len() {
            assert(whole[j] == s[j - n]);
        } else {
            assert(whole[j] == after[j - n - s.len()]);
        }
    }
    if a < b {
        assert(!is_white_space(s[a]) && !is_white_space(s[b - 1]));
        assert(whole[n + a] == s[a] && whole[n + b - 1] == s[b - 1]);
        assert(c <= n + a && n + b <= d);
    }
    if c < d {
        assert(trim(whole)[0] == whole[c] && trim(whole).last() == whole[d - 1]);
        assert(n + a <= c && d <= n + b);
    }
    assert(trim(whole) =~= trim(s));
}

/// No piece of a text holds the separator.
pub proof fn law_pieces_hold_no_separator(s: Seq<char>, separator: char)
    ensures
        split(s, separator).len() > 0,
        forall|k: int|
            0 <= k < split(s, separator).len() ==> !(#[trigger] split(s, separator)[k]).contains(
                separator,
            ),
    decreases s.len(),
{
    let n = first_index(s, separator);
    lemma_first_index(s, separator, n);
    if n < s.len() {
        let rest = split(s.skip(n + 1), separator);
        law_pieces_hold_no_separator(s.skip(n + 1), separator);
        assert forall|k: int| 0 <= k < split(s, separator).len() implies !(#[trigger] split(
            s,
            separator,
        )[k]).contains(separator) by {
            if k > 0 {
                assert(split(s, separator)[k] == rest[k - 1]);
            }
        }
    }
}

/// The pieces of two texts with the separator between them are the pieces of
/// the one, then those of the other.
pub proof fn law_split_joined(a: Seq<char>, b: Seq<char>, separator: char)
    ensures
        split(a + seq![separator] + b, separator) == split(a, separator) + split(b, separator),
    decreases a.len(),
{
    let whole = a + seq![separator] + b;
    let k = first_index(a, separator);
    lemma_first_index(a, separator, k);
    assert forall|j: int| 0 <= j < k implies whole[j] != separator by {
        assert(whole[j] == a[j]);
    }
    lemma_first_index(whole, separator, k);
    assert(whole.take(k) =~= a.take(k));
    if k < a.len() {
        law_split_joined(a.skip(k + 1), b, separator);
        assert(whole.skip(k + 1) =~= a.skip(k + 1) + seq![separator] + b);
    } else {
        assert(whole.skip(k + 1) =~= b);
        assert(a.take(k) =~= a);
    }
    assert(split(whole, separator) =~= split(a, separator) + split(b, separator));
}

/// A repeated character is there as often as it is asked for, and nothing else
/// is.
pub proof fn law_repeated_exact(c: char, n: nat)
    ensures
        repeated(c, n).len() == n,
        forall|i: int| 0 <= i < n ==> #[trigger] repeated(c, n)[i] == c,
{
}

/// A column is as wide as asked for, or as wide as its text where that is
/// wider; the text stands at its right end, with spaces before it.
pub proof fn law_pad_left_exact(s: Seq<char>, width: nat)
    ensures
        pad_left(s, width).len() == (if s.len() < width {
            width
        } else {
            s.len()
        }),
        pad_left(s, width).skip(pad_left(s, width).len() - s.len()) == s,
        forall|i: int|
            0 <= i < pad_left(s, width).len() - s.len() ==> #[trigger] pad_left(s, width)[i] == ' ',
{
    assert(pad_left(s, width).skip(pad_left(s, width).len() - s.len()) =~= s);
}

/// Texts that do not start with a space can be told apart in a column.
pub proof fn law_pad_left_injective(s: Seq<char>, t: Seq<char>, width: nat)
    requires
        s.len() == 0 || s[0] != ' ',
        t.len() == 0 || t[0] != ' ',
        pad_left(s, width) == pad_left(t, width),
    ensures
        s == t,
{
    law_pad_left_exact(s, width);
    law_pad_left_exact(t, width);
    let n = pad_left(s, width).len() as int;
    if s.len() < t.len() {
        assert(pad_left(s, width)[n - t.len()] == ' ');
        assert(pad_left(t, width).skip(n - t.len())[0] == t[0]);
    } else if t.len() < s.len() {
        assert(pad_left(t, width)[n - s.len()] == ' ');
        assert(pad_left(s, width).skip(n - s.len())[0] == s[0]);
    }
}

} // verus!
