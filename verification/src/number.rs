//! Decimal numbers, as the command line, the topics and the payloads write them.

use vstd::prelude::*;
use vstd::string::*;
use vstd::utf8::*;

verus! {

/// The character that writes the digit `d`.
pub open spec fn digit_char(d: int) -> char {
    (d + '0' as int) as char
}

/// `c` is one of the ten decimal digits.
pub open spec fn is_digit(c: char) -> bool {
    '0' <= c <= '9'
}

/// A natural number in decimal, without leading zeros.
pub open spec fn decimal(n: nat) -> Seq<char>
    decreases n,
{
    if n < 10 {
        seq![digit_char(n as int)]
    } else {
        decimal(n / 10).push(digit_char((n % 10) as int))
    }
}

/// An integer in decimal, with a minus sign when it is negative.
pub open spec fn signed_decimal(n: int) -> Seq<char> {
    if n < 0 {
        seq!['-'] + decimal((-n) as nat)
    } else {
        decimal(n as nat)
    }
}

/// The number that a sequence of digits writes.
pub open spec fn digits_value(s: Seq<char>) -> nat
    decreases s.len(),
{
    if s.len() == 0 {
        0
    } else {
        digits_value(s.drop_last()) * 10 + (s.last() as int - '0' as int) as nat
    }
}

/// At least one character, and nothing but digits.
pub open spec fn all_digits(s: Seq<char>) -> bool {
    s.len() > 0 && forall|i: int| 0 <= i < s.len() ==> is_digit(#[trigger] s[i])
}

/// `s` without the plus sign that it may start with.
pub open spec fn strip_plus(s: Seq<char>) -> Seq<char> {
    if s.len() > 0 && s[0] == '+' {
        s.drop_first()
    } else {
        s
    }
}

/// The unsigned number that `s` writes, if it is at most `max`: an optional
/// plus sign, then decimal digits only. Leading zeros are allowed.
pub open spec fn unsigned_value(s: Seq<char>, max: nat) -> Option<nat> {
    let digits = strip_plus(s);
    if all_digits(digits) && digits_value(digits) <= max {
        Some(digits_value(digits))
    } else {
        None
    }
}

/// The characters with the same codes as the bytes.
pub open spec fn byte_chars(bytes: Seq<u8>) -> Seq<char> {
    bytes.map_values(|b: u8| b as char)
}

/// The bytes of a text in ASCII.
pub open spec fn ascii_bytes(s: Seq<char>) -> Seq<u8> {
    s.map_values(|c: char| c as u8)
}

/// The digit `d` as text.
fn digit_text(d: u8) -> (r: &'static str)
    requires
        d < 10,
    ensures
        r@ == seq![digit_char(d as int)],
{
    proof {
        reveal_strlit("0");
        reveal_strlit("1");
        reveal_strlit("2");
        reveal_strlit("3");
        reveal_strlit("4");
        reveal_strlit("5");
        reveal_strlit("6");
        reveal_strlit("7");
        reveal_strlit("8");
        reveal_strlit("9");
    }
    match d {
        0 => "0",
        1 => "1",
        2 => "2",
        3 => "3",
        4 => "4",
        5 => "5",
        6 => "6",
        7 => "7",
        8 => "8",
        _ => "9",
    }
}

/// Appends `n` in decimal.
pub fn push_decimal(out: &mut String, n: u128)
    ensures
        final(out)@ == old(out)@ + decimal(n as nat),
    decreases n,
{
    if n >= 10 {
        push_decimal(out, n / 10);
    }
    let d: u8 = (n % 10) as u8;
    out.append(digit_text(d));
}

/// Appends `n` in decimal, with a minus sign when it is negative.
pub fn push_signed_decimal(out: &mut String, n: i64)
    ensures
        final(out)@ == old(out)@ + signed_decimal(n as int),
{
    if n < 0 {
        proof {
            reveal_strlit("-");
        }
        out.append("-");
        let magnitude: i128 = -(n as i128);
        push_decimal(out, magnitude as u128);
    } else {
        push_decimal(out, n as u128);
    }
}

/// Appends the ASCII bytes of `n` in decimal.
pub fn push_decimal_bytes(out: &mut Vec<u8>, n: u128)
    ensures
        final(out)@ == old(out)@ + ascii_bytes(decimal(n as nat)),
    decreases n,
{
    if n >= 10 {
        push_decimal_bytes(out, n / 10);
    }
    let d: u8 = (n % 10) as u8;
    out.push(48 + d);
}

/// One more digit behind a number: the longer number, if `c` is a digit and
/// the number stays within `max`.
fn push_digit(value: u128, c: char, max: u128) -> (r: Option<u128>)
    ensures
        r == (if is_digit(c) && value * 10 + (c as int - '0' as int) <= max {
            Some((value * 10 + (c as int - '0' as int)) as u128)
        } else {
            None
        }),
{
    if c < '0' || c > '9' {
        return None;
    }
    let d: u128 = (c as u32 - '0' as u32) as u128;
    match value.checked_mul(10) {
        Some(tens) => match tens.checked_add(d) {
            Some(longer) => if longer <= max {
                Some(longer)
            } else {
                None
            },
            None => None,
        },
        None => None,
    }
}

/// A digit sequence that does not fit, or holds something else than a digit,
/// writes no number however it goes on.
proof fn lemma_prefix_refused(s: Seq<char>, k: int, max: nat)
    requires
        0 <= k < s.len(),
        !is_digit(s[k]) || (all_digits(s.take(k + 1)) && digits_value(s.take(k + 1)) > max),
    ensures
        !(all_digits(s) && digits_value(s) <= max),
    decreases s.len(),
{
    if all_digits(s) {
        assert(is_digit(s[k]));
        if k + 1 < s.len() {
            let shorter = s.drop_last();
            assert(shorter.take(k + 1) =~= s.take(k + 1));
            assert forall|i: int| 0 <= i < shorter.len() implies is_digit(#[trigger] shorter[i]) by {
                assert(shorter[i] == s[i]);
            }
            lemma_prefix_refused(shorter, k, max);
            assert(is_digit(s.last()));
        } else {
            assert(s.take(k + 1) =~= s);
        }
    }
}

/// Text that is at hand as characters, or as bytes that stand for the
/// characters with their codes.
enum Letters<'a> {
    Chars(&'a [char]),
    Bytes(&'a [u8]),
}

impl<'a> View for Letters<'a> {
    type V = Seq<char>;

    closed spec fn view(&self) -> Seq<char> {
        match self {
            Letters::Chars(s) => s@,
            Letters::Bytes(s) => byte_chars(s@),
        }
    }
}

impl<'a> Letters<'a> {
    fn len(&self) -> (r: usize)
        ensures
            r == self@.len(),
    {
        match self {
            Letters::Chars(s) => s.len(),
            Letters::Bytes(s) => s.len(),
        }
    }

    fn at(&self, i: usize) -> (r: char)
        requires
            i < self@.len(),
        ensures
            r == self@[i as int],
    {
        match self {
            Letters::Chars(s) => s[i],
            Letters::Bytes(s) => s[i] as char,
        }
    }
}

fn parse_letters(s: Letters<'_>, max: u128) -> (r: Option<u128>)
    ensures
        r matches Some(v) ==> unsigned_value(s@, max as nat) == Some(v as nat),
        r is None ==> unsigned_value(s@, max as nat) is None,
{
    let len: usize = s.len();
    let start: usize = if len > 0 && s.at(0) == '+' {
        1
    } else {
        0
    };
    let ghost digits = strip_plus(s@);
    assert(digits =~= s@.skip(start as int));
    if len == start {
        return None;
    }
    let mut value: u128 = 0;
    let mut i: usize = start;
    while i < len
        invariant
            len == s@.len(),
            start <= i <= len,
            start < len,
            digits == strip_plus(s@),
            digits == s@.skip(start as int),
            i > start ==> all_digits(digits.take(i - start)),
            value == digits_value(digits.take(i - start)),
            value <= max,
        decreases len - i,
    {
        let ghost k = i - start;
        let c = s.at(i);
        assert(digits.take(k + 1).drop_last() =~= digits.take(k));
        assert(digits.take(k + 1).last() == c);
        assert(digits[k] == c);
        proof {
            if is_digit(c) {
                assert forall|j: int| 0 <= j < k + 1 implies is_digit(
                    #[trigger] digits.take(k + 1)[j],
                ) by {
                    if j < k {
                        assert(digits.take(k)[j] == digits.take(k + 1)[j]);
                    }
                }
            }
        }
        match push_digit(value, c, max) {
            Some(longer) => {
                value = longer;
            },
            None => {
                proof {
                    lemma_prefix_refused(digits, k, max as nat);
                }
                return None;
            },
        }
        i = i + 1;
    }
    assert(digits.take(i - start) =~= digits);
    Some(value)
}

/// The unsigned number that the characters write, if it is at most `max`.
pub fn parse_unsigned(s: &[char], max: u128) -> (r: Option<u128>)
    ensures
        r matches Some(v) ==> unsigned_value(s@, max as nat) == Some(v as nat),
        r is None ==> unsigned_value(s@, max as nat) is None,
{
    parse_letters(Letters::Chars(s), max)
}

/// The unsigned number that the bytes write, if it is at most `max`. A byte
/// outside ASCII is neither a digit nor a sign.
pub fn parse_unsigned_bytes(s: &[u8], max: u128) -> (r: Option<u128>)
    ensures
        r matches Some(v) ==> unsigned_value(byte_chars(s@), max as nat) == Some(v as nat),
        r is None ==> unsigned_value(byte_chars(s@), max as nat) is None,
{
    parse_letters(Letters::Bytes(s), max)
}

/// A number in decimal is made of digits, and writes that number.
pub proof fn lemma_decimal(n: nat)
    ensures
        all_digits(decimal(n)),
        digits_value(decimal(n)) == n,
    decreases n,
{
    reveal_with_fuel(digits_value, 2);
    if n >= 10 {
        lemma_decimal(n / 10);
        let s = decimal(n);
        assert(s.drop_last() =~= decimal(n / 10));
        assert forall|i: int| 0 <= i < s.len() implies is_digit(#[trigger] s[i]) by {
            if i < s.len() - 1 {
                assert(s[i] == decimal(n / 10)[i]);
            }
        }
    } else {
        assert(decimal(n).drop_last() =~= Seq::<char>::empty());
    }
}

/// Reading a number back from its decimal form gives the number, in whatever
/// range it lies.
pub proof fn law_decimal_round_trip(n: nat, max: nat)
    requires
        n <= max,
    ensures
        unsigned_value(decimal(n), max) == Some(n),
{
    lemma_decimal(n);
    assert(is_digit(decimal(n)[0]));
}

/// Different numbers have different decimal forms.
pub proof fn law_decimal_injective(m: nat, n: nat)
    requires
        decimal(m) == decimal(n),
    ensures
        m == n,
{
    lemma_decimal(m);
    lemma_decimal(n);
}

/// The number that a field of UTF-8 bytes writes, if it is at most `max`.
/// Bytes that are no UTF-8 write no number.
pub open spec fn utf8_number(bytes: Seq<u8>, max: nat) -> Option<nat> {
    if valid_utf8(bytes) {
        unsigned_value(decode_utf8(bytes), max)
    } else {
        None
    }
}

/// ASCII bytes are the UTF-8 form of the characters with the same codes.
proof fn lemma_ascii_is_utf8(bytes: Seq<u8>)
    requires
        forall|i: int| 0 <= i < bytes.len() ==> #[trigger] bytes[i] < 128,
    ensures
        valid_utf8(bytes),
        decode_utf8(bytes) == byte_chars(bytes),
{
    let chars = byte_chars(bytes);
    assert forall|i: int| 0 <= i < chars.len() implies '\0' <= #[trigger] chars[i] <= '\u{7f}' by {
        assert(bytes[i] < 128);
    }
    is_ascii_chars_encode_utf8(chars);
    assert(encode_utf8(chars) =~= bytes) by {
        assert forall|i: int| 0 <= i < bytes.len() implies encode_utf8(chars)[i] == bytes[i] by {
            assert(chars[i] as u8 == bytes[i]);
        }
    }
    encode_utf8_valid_utf8(chars);
    encode_utf8_decode_utf8(chars);
}

/// A number can be read off the bytes themselves: decoding them as UTF-8 first
/// makes no difference.
pub proof fn lemma_utf8_number(bytes: Seq<u8>, max: nat)
    ensures
        utf8_number(bytes, max) == unsigned_value(byte_chars(bytes), max),
{
    if forall|i: int| 0 <= i < bytes.len() ==> #[trigger] bytes[i] < 128 {
        lemma_ascii_is_utf8(bytes);
    } else {
        let k = choose|k: int| 0 <= k < bytes.len() && #[trigger] bytes[k] >= 128;
        let chars = byte_chars(bytes);
        assert(!is_digit(chars[k]) && chars[k] != '+');
        assert(unsigned_value(chars, max) is None) by {
            let digits = strip_plus(chars);
            if all_digits(digits) {
                if chars[0] == '+' {
                    assert(digits[k - 1] == chars[k]);
                } else {
                    assert(digits[k] == chars[k]);
                }
            }
        }
        if valid_utf8(bytes) && unsigned_value(decode_utf8(bytes), max) is Some {
            let text = decode_utf8(bytes);
            let digits = strip_plus(text);
            assert forall|i: int| 0 <= i < text.len() implies '\0' <= #[trigger] text[i]
                <= '\u{7f}' by {
                if text[0] == '+' {
                    if i > 0 {
                        assert(digits[i - 1] == text[i]);
                    }
                } else {
                    assert(digits[i] == text[i]);
                }
            }
            decode_utf8_encode_utf8(bytes);
            is_ascii_chars_encode_utf8(text);
            assert(text[k] as u8 == bytes[k]);
        }
    }
}

// ---------------------------------------------------------------------------
// Laws
// ---------------------------------------------------------------------------

/// Digits are worth ten times what they are worth one place further right.
pub proof fn law_digits_positional(s: Seq<char>)
    requires
        forall|i: int| 0 <= i < s.len() ==> '0' <= #[trigger] s[i] <= '9',
    ensures
        digits_value(s) == s.fold_left(0int, |v: int, c: char| v * 10 + (c as int - 48)),
    decreases s.len(),
{
    if s.len() > 0 {
        let shorter = s.drop_last();
        assert forall|i: int| 0 <= i < shorter.len() implies '0' <= #[trigger] shorter[i]
            <= '9' by {
            assert(shorter[i] == s[i]);
        }
        law_digits_positional(shorter);
        assert('0' <= s[s.len() - 1] <= '9');
    }
}

/// The decimal form of a number is made of digits, starts with no zero unless
/// it is the only one, and its digits, weighted by their places, add up to the
/// number.
pub proof fn law_decimal_exact(n: nat)
    ensures
        decimal(n).len() > 0,
        forall|i: int| 0 <= i < decimal(n).len() ==> '0' <= #[trigger] decimal(n)[i] <= '9',
        decimal(n)[0] == '0' <==> n == 0,
        decimal(n).len() == 1 <==> n < 10,
        decimal(n).fold_left(0int, |v: int, c: char| v * 10 + (c as int - 48)) == n,
    decreases n,
{
    lemma_decimal(n);
    assert forall|i: int| 0 <= i < decimal(n).len() implies '0' <= #[trigger] decimal(n)[i]
        <= '9' by {
        assert(is_digit(decimal(n)[i]));
    }
    law_digits_positional(decimal(n));
    if n >= 10 {
        law_decimal_exact(n / 10);
        assert(decimal(n)[0] == decimal(n / 10)[0]);
    }
}

/// A number has one digit more than its tenth.
pub proof fn law_decimal_appends_digit(n: nat, d: nat)
    requires
        n > 0,
        d < 10,
    ensures
        decimal(10 * n + d).len() == decimal(n).len() + 1,
        decimal(10 * n + d).take(decimal(n).len() as int) == decimal(n),
        decimal(10 * n + d).last() as int == 48 + d,
{
    assert((10 * n + d) / 10 == n);
    assert((10 * n + d) % 10 == d);
    assert(decimal(10 * n + d).take(decimal(n).len() as int) =~= decimal(n));
}

/// A text writes a number exactly if, behind a plus sign that it may start
/// with, there is at least one digit and nothing else, and the digits weighted
/// by their places add up to the number, which is within the bound.
pub proof fn law_unsigned_value_exact(s: Seq<char>, digits: Seq<char>, max: nat, n: nat)
    requires
        digits == (if s.len() > 0 && s[0] == '+' {
            s.skip(1)
        } else {
            s
        }),
    ensures
        unsigned_value(s, max) == Some(n) <==> {
            &&& digits.len() > 0
            &&& forall|i: int| 0 <= i < digits.len() ==> '0' <= #[trigger] digits[i] <= '9'
            &&& digits.fold_left(0int, |v: int, c: char| v * 10 + (c as int - 48)) == n
            &&& n <= max
        },
{
    assert(digits =~= strip_plus(s));
    if forall|i: int| 0 <= i < digits.len() ==> '0' <= #[trigger] digits[i] <= '9' {
        law_digits_positional(digits);
        assert forall|i: int| 0 <= i < digits.len() implies is_digit(#[trigger] digits[i]) by {
            assert('0' <= digits[i] <= '9');
        }
    } else {
        let i = choose|i: int| 0 <= i < digits.len() && !('0' <= #[trigger] digits[i] <= '9');
        assert(!is_digit(digits[i]));
    }
}

/// A negative number is its opposite behind a minus sign; any other one is
/// written as it is.
pub proof fn law_signed_decimal_exact(n: nat)
    ensures
        signed_decimal(n as int) == decimal(n),
        n > 0 ==> signed_decimal(-n) == seq!['-'] + decimal(n),
{
}

/// Bytes and characters stand for each other one by one.
pub proof fn law_bytes_and_chars(bytes: Seq<u8>, s: Seq<char>)
    ensures
        byte_chars(bytes).len() == bytes.len(),
        ascii_bytes(s).len() == s.len(),
        forall|i: int|
            0 <= i < bytes.len() ==> (#[trigger] byte_chars(bytes)[i]) as int == bytes[i] as int,
        forall|i: int|
            0 <= i < s.len() && '\0' <= s[i] <= '\u{7f}' ==> #[trigger] ascii_bytes(s)[i] as int
                == s[i] as int,
{
    assert forall|i: int| 0 <= i < s.len() && '\0' <= s[i] <= '\u{7f}' implies #[trigger] ascii_bytes(
        s,
    )[i] as int == s[i] as int by {
        let c = s[i];
        assert(ascii_bytes(s)[i] == c as u8);
        assert(0 <= c as int <= 127);
    }
}

/// A field holds the number of its text, and none where it is no UTF-8.
pub proof fn law_field_number_exact(bytes: Seq<u8>, max: nat)
    ensures
        valid_utf8(bytes) ==> utf8_number(bytes, max) == unsigned_value(decode_utf8(bytes), max),
        !valid_utf8(bytes) ==> utf8_number(bytes, max) is None,
{
}

/// Different integers have different decimal forms.
pub proof fn law_signed_decimal_injective(m: int, n: int)
    requires
        signed_decimal(m) == signed_decimal(n),
    ensures
        m == n,
{
    let x = (if m < 0 {
        -m
    } else {
        m
    }) as nat;
    let y = (if n < 0 {
        -n
    } else {
        n
    }) as nat;
    law_decimal_exact(x);
    law_decimal_exact(y);
    assert('0' <= decimal(x)[0] <= '9' && '0' <= decimal(y)[0] <= '9');
    if m < 0 {
        assert(signed_decimal(m)[0] == '-');
        assert(signed_decimal(m).skip(1) =~= decimal(x));
    }
    if n < 0 {
        assert(signed_decimal(n)[0] == '-');
        assert(signed_decimal(n).skip(1) =~= decimal(y));
    }
    assert(decimal(x) == decimal(y));
    law_decimal_injective(x, y);
}

/// A larger number has no fewer digits.
pub proof fn law_decimal_length_monotone(m: nat, n: nat)
    requires
        m <= n,
    ensures
        decimal(m).len() <= decimal(n).len(),
    decreases n,
{
    law_decimal_exact(m);
    law_decimal_exact(n);
    if m >= 10 {
        law_decimal_length_monotone(m / 10, n / 10);
    }
}

} // verus!
