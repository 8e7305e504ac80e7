//! Decimal numbers as text, and the few string operations that the engine
//! needs.

use vstd::prelude::*;
use vstd::utf8::{decode_utf8, encode_utf8, is_ascii_chars, is_ascii_chars_encode_utf8, valid_utf8};
use crate::codec::copy_range;

verus! {

/// The character of the decimal digit `d`.
pub open spec fn digit_char(d: nat) -> char {
    ((48 + d) as u8) as char
}

/// The decimal numeral of `n`, without leading zeros.
pub open spec fn decimal(n: nat) -> Seq<char>
    decreases n,
{
    if n < 10 {
        seq![digit_char(n)]
    } else {
        decimal(n / 10).push(digit_char(n % 10))
    }
}

/// The decimal numeral of `i`, with a minus sign where it is negative.
pub open spec fn signed_decimal(i: int) -> Seq<char> {
    if i < 0 {
        seq!['-'] + decimal((-i) as nat)
    } else {
        decimal(i as nat)
    }
}

/// Whether every byte is an ASCII decimal digit.
pub open spec fn all_digits(bytes: Seq<u8>) -> bool {
    forall|i: int| 0 <= i < bytes.len() ==> 48 <= #[trigger] bytes[i] <= 57
}

/// The number that a string of ASCII decimal digits spells.
pub open spec fn digits_value(bytes: Seq<u8>) -> nat
    decreases bytes.len(),
{
    if bytes.len() == 0 {
        0
    } else {
        digits_value(bytes.drop_last()) * 10 + (bytes.last() - 48) as nat
    }
}

/// The integer that `bytes` spells: an optional sign, `+` or `-`, and then at
/// least one decimal digit and nothing else; `None` for anything else, and for
/// a number outside the 64-bit signed range.
pub open spec fn parse_integer(bytes: Seq<u8>) -> Option<int> {
    let signed = bytes.len() > 0 && (bytes[0] == 43 || bytes[0] == 45);
    let body = if signed {
        bytes.subrange(1, bytes.len() as int)
    } else {
        bytes
    };
    let value = if signed && bytes[0] == 45 {
        -(digits_value(body) as int)
    } else {
        digits_value(body) as int
    };
    if body.len() > 0 && all_digits(body) && i64::MIN <= value <= i64::MAX {
        Some(value)
    } else {
        None
    }
}

/// `String::from_utf8`: the string that the bytes encode, where they are
/// UTF-8, and `None` where they are not.
#[verifier::external_body]
pub(crate) fn string_from_utf8(bytes: Vec<u8>) -> (s: Option<String>)
    ensures
        s is Some <==> valid_utf8(bytes@),
        s is Some ==> s->Some_0@ == decode_utf8(bytes@),
{
    match String::from_utf8(bytes) {
        Ok(s) => Some(s),
        Err(_) => None,
    }
}

/// The text of the decimal digit `d`.
pub fn digit_text(d: u64) -> (text: &'static str)
    requires
        d < 10,
    ensures
        text@ == seq![digit_char(d as nat)],
{
    proof {
        reveal_strlit("0");
        reveal_strlit("1");
        reveal_strlit("2");
        reveal_strlit("3");
        reveal_strlit("4");
        reveal_strlit("5");
        reveal_strlit("6");
        reveal_strlit("7");
        reveal_strlit("8");
        reveal_strlit("9");
    }
    let text: &'static str = match d {
        0 => "0",
        1 => "1",
        2 => "2",
        3 => "3",
        4 => "4",
        5 => "5",
        6 => "6",
        7 => "7",
        8 => "8",
        _ => "9",
    };
    proof {
        assert(text@ =~= seq![digit_char(d as nat)]);
    }
    text
}

/// Appends the decimal numeral of `n`.
pub fn push_decimal(s: &mut String, n: u64)
    ensures
        final(s)@ == old(s)@ + decimal(n as nat),
    decreases n,
{
    if n >= 10 {
        push_decimal(s, n / 10);
    }
    s.append(digit_text(n % 10));
    proof {
        assert(s@ =~= old(s)@ + decimal(n as nat));
    }
}

/// Appends the decimal numeral of `i`.
pub fn push_signed_decimal(s: &mut String, i: i64)
    ensures
        final(s)@ == old(s)@ + signed_decimal(i as int),
{
    if i < 0 {
        proof {
            reveal_strlit("-");
        }
        s.append("-");
        let magnitude: u64 = (-(i + 1)) as u64 + 1;
        push_decimal(s, magnitude);
        proof {
            assert(s@ =~= old(s)@ + signed_decimal(i as int));
        }
    } else {
        push_decimal(s, i as u64);
    }
}

/// The bytes of characters that are all below 256.
pub open spec fn bytes_of(chars: Seq<char>) -> Seq<u8> {
    Seq::new(chars.len(), |i: int| chars[i] as u8)
}

/// A decimal numeral is made of ASCII digits, at least one, and they spell
/// the number.
pub proof fn lemma_decimal_digits(n: nat)
    ensures
        decimal(n).len() >= 1,
        is_ascii_chars(decimal(n)),
        all_digits(bytes_of(decimal(n))),
        digits_value(bytes_of(decimal(n))) == n,
    decreases n,
{
    let chars = decimal(n);
    let bytes = bytes_of(chars);
    if n < 10 {
        assert(chars[0] == digit_char(n));
        assert(bytes.drop_last() =~= Seq::<u8>::empty());
        assert(digits_value(bytes.drop_last()) == 0);
        assert(bytes.last() == 48 + n);
    } else {
        lemma_decimal_digits(n / 10);
        let front = decimal(n / 10);
        assert(chars == front.push(digit_char(n % 10)));
        assert(bytes.drop_last() =~= bytes_of(front));
        assert(bytes.last() == 48 + n % 10);
        assert forall|i: int| 0 <= i < chars.len() implies '\0' <= #[trigger] chars[i] <= '\u{7f}' by {
            if i < front.len() {
                assert(chars[i] == front[i]);
            }
        }
        assert forall|i: int| 0 <= i < bytes.len() implies 48 <= #[trigger] bytes[i] <= 57 by {
            if i < front.len() {
                assert(bytes[i] == bytes_of(front)[i]);
            }
        }
    }
}

/// The decimal numeral of a number within the 64-bit signed range reads back
/// as the number.
pub proof fn lemma_decimal_parses(n: nat)
    requires
        n <= i64::MAX,
    ensures
        parse_integer(encode_utf8(decimal(n))) == Some(n as int),
{
    lemma_decimal_digits(n);
    is_ascii_chars_encode_utf8(decimal(n));
    assert(encode_utf8(decimal(n)) =~= bytes_of(decimal(n)));
}

/// The digits of a prefix spell at most what all the digits spell.
pub proof fn lemma_digits_prefix(bytes: Seq<u8>, k: int)
    requires
        all_digits(bytes),
        0 <= k <= bytes.len(),
    ensures
        digits_value(bytes.subrange(0, k)) <= digits_value(bytes),
    decreases bytes.len() - k,
{
    if k == bytes.len() {
        assert(bytes.subrange(0, k) =~= bytes);
    } else {
        let front = bytes.drop_last();
        assert(all_digits(front)) by {
            assert forall|i: int| 0 <= i < front.len() implies 48 <= #[trigger] front[i] <= 57 by {
                assert(front[i] == bytes[i]);
            }
        }
        assert(bytes.last() >= 48);
        if k == front.len() {
            assert(bytes.subrange(0, k) =~= front);
        } else {
            lemma_digits_prefix(front, k);
            assert(front.subrange(0, k) =~= bytes.subrange(0, k));
        }
    }
}

/// Reads a decimal integer with an optional sign.
pub fn parse_i64(bytes: &[u8]) -> (parsed: Option<i64>)
    ensures
        match parse_integer(bytes@) {
            Some(v) => parsed == Some(v as i64),
            None => parsed is None,
        },
{
    let len: usize = bytes.len();
    let signed: bool = len > 0 && (bytes[0] == 43 || bytes[0] == 45);
    let negative: bool = signed && bytes[0] == 45;
    let start: usize = if signed {
        1
    } else {
        0
    };
    if start >= len {
        return None;
    }
    let limit: u64 = if negative {
        0x8000_0000_0000_0000
    } else {
        0x7fff_ffff_ffff_ffff
    };
    let ghost body = bytes@.subrange(start as int, len as int);
    assert(body == if signed {
        bytes@.subrange(1, bytes@.len() as int)
    } else {
        bytes@
    }) by {
        if !signed {
            assert(body =~= bytes@);
        }
    }
    let mut acc: u64 = 0;
    let mut i: usize = start;
    proof {
        assert(body.subrange(0, 0) =~= Seq::<u8>::empty());
    }
    while i < len
        invariant
            start <= i <= len,
            len == bytes@.len(),
            body == bytes@.subrange(start as int, len as int),
            all_digits(body.subrange(0, i - start)),
            acc == digits_value(body.subrange(0, i - start)),
            acc <= limit,
            signed == (bytes@.len() > 0 && (bytes@[0] == 43 || bytes@[0] == 45)),
            negative == (signed && bytes@[0] == 45),
            start == if signed {
                1int
            } else {
                0int
            },
            limit == if negative {
                0x8000_0000_0000_0000u64
            } else {
                0x7fff_ffff_ffff_ffffu64
            },
        decreases len - i,
    {
        let b: u8 = bytes[i];
        proof {
            if !signed {
                assert(body =~= bytes@);
            }
        }
        if b < 48 || b > 57 {
            assert(!all_digits(body)) by {
                assert(body[i - start] == b);
            }
            return None;
        }
        let d: u64 = (b - 48) as u64;
        let ghost next = body.subrange(0, i - start + 1);
        proof {
            assert(next.drop_last() =~= body.subrange(0, i - start));
            assert(next.last() == b);
            assert(all_digits(next)) by {
                assert forall|j: int| 0 <= j < next.len() implies 48 <= #[trigger] next[j] <= 57 by {
                    if j < i - start {
                        assert(next[j] == body.subrange(0, i - start)[j]);
                    }
                }
            }
        }
        if acc > (limit - d) / 10 {
            proof {
                assert(digits_value(next) > limit);
                if all_digits(body) {
                    lemma_digits_prefix(body, i - start + 1);
                }
            }
            return None;
        }
        acc = acc * 10 + d;
        i = i + 1;
    }
    proof {
        assert(body.subrange(0, i - start) =~= body);
    }
    if negative {
        if acc == 0x8000_0000_0000_0000 {
            Some(i64::MIN)
        } else {
            Some(-(acc as i64))
        }
    } else {
        Some(acc as i64)
    }
}

/// Whether the byte is the encoding of a white-space character of one byte:
/// a blank, or one of the control characters from tab to carriage return.
pub open spec fn is_blank1(a: u8) -> bool {
    a == 0x20 || 0x09 <= a <= 0x0d
}

/// Whether the bytes are the encoding of a white-space character of two
/// bytes: U+0085 or U+00A0.
pub open spec fn is_blank2(a: u8, b: u8) -> bool {
    a == 0xc2 && (b == 0x85 || b == 0xa0)
}

/// Whether the bytes are the encoding of a white-space character of three
/// bytes: U+1680, U+2000 to U+200A, U+2028, U+2029, U+202F, U+205F or U+3000.
pub open spec fn is_blank3(a: u8, b: u8, c: u8) -> bool {
    ||| a == 0xe1 && b == 0x9a && c == 0x80
    ||| a == 0xe2 && b == 0x80 && (0x80 <= c <= 0x8a || c == 0xa8 || c == 0xa9 || c == 0xaf)
    ||| a == 0xe2 && b == 0x81 && c == 0x9f
    ||| a == 0xe3 && b == 0x80 && c == 0x80
}

/// The number of bytes of the white-space character that `bytes` starts with;
/// 0 where it starts with none.
pub open spec fn blank_prefix(bytes: Seq<u8>) -> int {
    let n = bytes.len();
    if n >= 1 && is_blank1(bytes[0]) {
        1
    } else if n >= 2 && is_blank2(bytes[0], bytes[1]) {
        2
    } else if n >= 3 && is_blank3(bytes[0], bytes[1], bytes[2]) {
        3
    } else {
        0
    }
}

/// The number of bytes of the white-space character that `bytes` ends with; 0
/// where it ends with none.
pub open spec fn blank_suffix(bytes: Seq<u8>) -> int {
    let n = bytes.len();
    if n >= 1 && is_blank1(bytes[n - 1]) {
        1
    } else if n >= 2 && is_blank2(bytes[n - 2], bytes[n - 1]) {
        2
    } else if n >= 3 && is_blank3(bytes[n - 3], bytes[n - 2], bytes[n - 1]) {
        3
    } else {
        0
    }
}

/// `bytes` without the white space at its start.
pub open spec fn skip_blanks(bytes: Seq<u8>) -> Seq<u8>
    decreases bytes.len(),
{
    if blank_prefix(bytes) > 0 {
        skip_blanks(bytes.subrange(blank_prefix(bytes), bytes.len() as int))
    } else {
        bytes
    }
}

/// `bytes` without the white space at its end.
pub open spec fn drop_blanks(bytes: Seq<u8>) -> Seq<u8>
    decreases bytes.len(),
{
    if blank_suffix(bytes) > 0 {
        drop_blanks(bytes.subrange(0, bytes.len() - blank_suffix(bytes)))
    } else {
        bytes
    }
}

/// `bytes`, the encoding of a text, without the white space at its start and
/// at its end.  White space is every character that Unicode counts as such.
pub open spec fn trimmed(bytes: Seq<u8>) -> Seq<u8> {
    drop_blanks(skip_blanks(bytes))
}

fn blank1(a: u8) -> (b: bool)
    ensures
        b == is_blank1(a),
{
    a == 0x20 || (0x09 <= a && a <= 0x0d)
}

fn blank2(a: u8, b: u8) -> (r: bool)
    ensures
        r == is_blank2(a, b),
{
    a == 0xc2 && (b == 0x85 || b == 0xa0)
}

fn blank3(a: u8, b: u8, c: u8) -> (r: bool)
    ensures
        r == is_blank3(a, b, c),
{
    (a == 0xe1 && b == 0x9a && c == 0x80) || (a == 0xe2 && b == 0x80 && ((0x80 <= c && c <= 0x8a)
        || c == 0xa8 || c == 0xa9 || c == 0xaf)) || (a == 0xe2 && b == 0x81 && c == 0x9f) || (a
        == 0xe3 && b == 0x80 && c == 0x80)
}

/// The number of bytes of the white-space character at the start of the
/// bytes from `start` up to `end`.
fn blank_at_start(bytes: &[u8], start: usize, end: usize) -> (n: usize)
    requires
        start <= end <= bytes.len(),
    ensures
        n == blank_prefix(bytes@.subrange(start as int, end as int)),
        n <= end - start,
{
    let len: usize = end - start;
    if len >= 1 && blank1(bytes[start]) {
        1
    } else if len >= 2 && blank2(bytes[start], bytes[start + 1]) {
        2
    } else if len >= 3 && blank3(bytes[start], bytes[start + 1], bytes[start + 2]) {
        3
    } else {
        0
    }
}

/// The number of bytes of the white-space character at the end of the bytes
/// from `start` up to `end`.
fn blank_at_end(bytes: &[u8], start: usize, end: usize) -> (n: usize)
    requires
        start <= end <= bytes.len(),
    ensures
        n == blank_suffix(bytes@.subrange(start as int, end as int)),
        n <= end - start,
{
    let len: usize = end - start;
    if len >= 1 && blank1(bytes[end - 1]) {
        1
    } else if len >= 2 && blank2(bytes[end - 2], bytes[end - 1]) {
        2
    } else if len >= 3 && blank3(bytes[end - 3], bytes[end - 2], bytes[end - 1]) {
        3
    } else {
        0
    }
}

/// Copies `bytes` without the white space at its start and at its end.
pub fn trim(bytes: &[u8]) -> (inner: Vec<u8>)
    ensures
        inner@ == trimmed(bytes@),
{
    let len: usize = bytes.len();
    let mut start: usize = 0;
    proof {
        assert(bytes@.subrange(0, len as int) =~= bytes@);
    }
    loop
        invariant
            start <= len,
            len == bytes@.len(),
            skip_blanks(bytes@) == skip_blanks(bytes@.subrange(start as int, len as int)),
        ensures
            start <= len,
            skip_blanks(bytes@) == bytes@.subrange(start as int, len as int),
        decreases len - start,
    {
        let n: usize = blank_at_start(bytes, start, len);
        if n == 0 {
            break ;
        }
        proof {
            let rest = bytes@.subrange(start as int, len as int);
            assert(rest.subrange(n as int, rest.len() as int) =~= bytes@.subrange(
                start + n,
                len as int,
            ));
        }
        start = start + n;
    }
    let mut end: usize = len;
    loop
        invariant
            start <= end <= len,
            len == bytes@.len(),
            drop_blanks(bytes@.subrange(start as int, len as int)) == drop_blanks(
                bytes@.subrange(start as int, end as int),
            ),
        ensures
            start <= end <= len,
            drop_blanks(bytes@.subrange(start as int, len as int)) == bytes@.subrange(
                start as int,
                end as int,
            ),
        decreases end - start,
    {
        let n: usize = blank_at_end(bytes, start, end);
        if n == 0 {
            break ;
        }
        proof {
            let rest = bytes@.subrange(start as int, end as int);
            assert(rest.subrange(0, rest.len() - n) =~= bytes@.subrange(start as int, end - n));
        }
        end = end - n;
    }
    copy_range(bytes, start, end - start)
}

/// The decimal numeral of `n`.
pub fn decimal_string(n: u64) -> (s: String)
    ensures
        s@ == decimal(n as nat),
{
    let mut s = String::new();
    push_decimal(&mut s, n);
    proof {
        assert(Seq::<char>::empty() + decimal(n as nat) =~= decimal(n as nat));
    }
    s
}

} // verus!
