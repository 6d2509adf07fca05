//! Strings as the rest of the library needs them: building one character by
//! character, reading one out of bytes, and decimal numerals.

use vstd::prelude::*;
use vstd::utf8::*;

verus! {

/// `String::push` of std: the character is appended, and nothing else
/// changes.
pub assume_specification[ String::push ](s: &mut String, c: char)
    ensures
        final(s)@ == old(s)@.push(c),
;

/// `String::from_utf8` of std: it succeeds exactly on well-formed UTF-8, and
/// the string then holds the characters that the bytes encode.
#[verifier::external_body]
pub(crate) fn string_from_utf8(bytes: Vec<u8>) -> (r: Option<String>)
    ensures
        r is Some <==> valid_utf8(bytes@),
        r matches Some(s) ==> s@ == decode_utf8(bytes@),
{
    match String::from_utf8(bytes) {
        Ok(s) => Some(s),
        Err(_) => None,
    }
}

/// The bytes of a piece of ASCII text: one for each character, with the
/// character's code.
pub fn ascii_codes(s: &str) -> (codes: &[u8])
    requires
        is_ascii_chars(s@),
    ensures
        codes@.len() == s@.len(),
        forall|j: int| 0 <= j < s@.len() ==> codes@[j] == s@[j] as u8,
        forall|j: int| 0 <= j < s@.len() ==> codes@[j] as char == s@[j],
        codes@ == encode_utf8(s@),
{
    proof {
        is_ascii_chars_encode_utf8(s@);
    }
    s.as_bytes()
}

/// Whether two pieces of ASCII text are the same.
pub fn same_ascii(a: &str, b: &str) -> (r: bool)
    requires
        is_ascii_chars(a@),
        is_ascii_chars(b@),
    ensures
        r == (a@ == b@),
{
    let x = ascii_codes(a);
    let y = ascii_codes(b);
    if x.len() != y.len() {
        return false;
    }
    let n = x.len();
    let mut i: usize = 0;
    while i < n
        invariant
            i <= n,
            n == a@.len(),
            n == b@.len(),
            x@.len() == n,
            y@.len() == n,
            forall|j: int| 0 <= j < n ==> x@[j] as char == a@[j],
            forall|j: int| 0 <= j < n ==> y@[j] as char == b@[j],
            forall|j: int| 0 <= j < i ==> a@[j] == b@[j],
        decreases n - i,
    {
        if x[i] != y[i] {
            assert(a@[i as int] != b@[i as int]);
            return false;
        }
        i += 1;
    }
    assert(a@ =~= b@);
    true
}

/// The character for the decimal digit `d`.
pub open spec fn digit_char(d: nat) -> char
    recommends
        d < 10,
{
    ((48 + d) as u8) as char
}

/// An unsigned number in decimal digits, without leading zeros.
pub open spec fn decimal_text(n: nat) -> Seq<char>
    decreases n,
{
    if n < 10 {
        seq![digit_char(n)]
    } else {
        decimal_text(n / 10).push(digit_char(n % 10))
    }
}

/// A signed number in decimal digits, behind a minus sign where it is
/// negative.
pub open spec fn signed_decimal_text(n: int) -> Seq<char> {
    if n < 0 {
        seq!['-'] + decimal_text((-n) as nat)
    } else {
        decimal_text(n as nat)
    }
}

/// Appends `n` in decimal digits.
pub fn push_decimal_text(out: &mut String, n: u64)
    ensures
        final(out)@ == old(out)@ + decimal_text(n as nat),
    decreases n,
{
    let ghost before = out@;
    if n >= 10 {
        push_decimal_text(out, n / 10);
    }
    out.push((48 + (n % 10) as u8) as char);
    assert(out@ =~= before + decimal_text(n as nat));
}

/// `n` in decimal digits, as `to_string` writes an `i32`.
pub fn i32_text(n: i32) -> (s: String)
    ensures
        s@ == signed_decimal_text(n as int),
{
    let mut out = String::new();
    let wide: i64 = n as i64;
    if wide < 0 {
        out.push('-');
        push_decimal_text(&mut out, (-wide) as u64);
        assert(out@ =~= seq!['-'] + decimal_text((-n) as nat));
    } else {
        push_decimal_text(&mut out, wide as u64);
        assert(out@ =~= decimal_text(n as nat));
    }
    out
}

/// Whether every character of `s` is a decimal digit.
pub open spec fn all_digits(s: Seq<char>) -> bool {
    forall|i: int| 0 <= i < s.len() ==> '0' <= #[trigger] s[i] <= '9'
}

/// The number that the digits `s` write.
pub open spec fn digits_number(s: Seq<char>) -> nat
    decreases s.len(),
{
    if s.len() == 0 {
        0
    } else {
        digits_number(s.drop_last()) * 10 + (s.last() as u8 - 48) as nat
    }
}

/// The number that `s` writes, as `parse` reads an `i32`: digits, behind
/// one plus or minus sign or none, that write a number within the range of
/// `i32`. `None` for any other text.
pub open spec fn parsed_i32(s: Seq<char>) -> Option<int> {
    let signed = s.len() > 0 && (s[0] == '-' || s[0] == '+');
    let digits = if signed {
        s.skip(1)
    } else {
        s
    };
    let number = if s.len() > 0 && s[0] == '-' {
        -(digits_number(digits) as int)
    } else {
        digits_number(digits) as int
    };
    if digits.len() > 0 && all_digits(digits) && i32::MIN <= number <= i32::MAX {
        Some(number)
    } else {
        None
    }
}

/// The digits of a number write that number.
pub proof fn lemma_digits_of_decimal(n: nat)
    ensures
        decimal_text(n).len() > 0,
        all_digits(decimal_text(n)),
        digits_number(decimal_text(n)) == n,
    decreases n,
{
    let s = decimal_text(n);
    let last = (n % 10) as nat;
    assert(digit_char(last) as u8 == 48 + last);
    assert(s.last() == digit_char(last));
    if n >= 10 {
        lemma_digits_of_decimal(n / 10);
        assert(s.drop_last() =~= decimal_text(n / 10));
        assert forall|i: int| 0 <= i < s.len() implies '0' <= #[trigger] s[i] <= '9' by {
            if i < s.len() - 1 {
                assert(s[i] == decimal_text(n / 10)[i]);
            }
        }
    } else {
        assert(s.drop_last() =~= Seq::<char>::empty());
        assert(digits_number(s.drop_last()) == 0);
    }
}

/// A number that is written in decimal is read back as that number.
pub proof fn lemma_parse_of_decimal(n: i32)
    ensures
        parsed_i32(signed_decimal_text(n as int)) == Some(n as int),
{
    let s = signed_decimal_text(n as int);
    if n < 0 {
        lemma_digits_of_decimal((-n) as nat);
        assert(s.skip(1) =~= decimal_text((-n) as nat));
    } else {
        lemma_digits_of_decimal(n as nat);
        assert('0' <= s[0] <= '9');
    }
}

/// Reads an `i32` from `text`.
pub fn parse_i32(text: &str) -> (r: Option<i32>)
    ensures
        r matches Some(n) ==> parsed_i32(text@) == Some(n as int),
        r is None ==> parsed_i32(text@) is None,
{
    if !text.is_ascii() {
        proof {
            let s = text@;
            let signed = s.len() > 0 && (s[0] == '-' || s[0] == '+');
            let digits = if signed {
                s.skip(1)
            } else {
                s
            };
            let i = choose|i: int| 0 <= i < s.len() && !('\0' <= #[trigger] s[i] <= '\u{7f}');
            if signed {
                assert(digits[i - 1] == s[i]);
            }
        }
        return None;
    }
    let codes = ascii_codes(text);
    let n = codes.len();
    let negative = n > 0 && codes[0] == 45;
    let start: usize = if n > 0 && (codes[0] == 45 || codes[0] == 43) {
        1
    } else {
        0
    };
    let ghost digits = text@.skip(start as int);
    proof {
        if n > 0 {
            assert(codes@[0] as char == text@[0]);
            assert(codes@[0] == text@[0] as u8);
        }
        assert(negative == (text@.len() > 0 && text@[0] == '-'));
        assert((start == 1) == (text@.len() > 0 && (text@[0] == '-' || text@[0] == '+')));
        assert(text@.skip(0) =~= text@);
    }
    if start >= n {
        return None;
    }
    let mut acc: u64 = 0;
    let mut i: usize = start;
    assert(digits.subrange(0, 0) =~= Seq::<char>::empty());
    while i < n
        invariant
            start <= i <= n,
            start < n,
            n == text@.len(),
            codes@.len() == n,
            digits == text@.skip(start as int),
            digits.len() == n - start,
            start <= 1,
            (start == 1) == (text@.len() > 0 && (text@[0] == '-' || text@[0] == '+')),
            forall|j: int| 0 <= j < n ==> codes@[j] as char == text@[j],
            forall|j: int| 0 <= j < n ==> codes@[j] == text@[j] as u8,
            all_digits(digits.subrange(0, i - start)),
            acc <= 4294967296,
            acc == if digits_number(digits.subrange(0, i - start)) >= 4294967296 {
                4294967296
            } else {
                digits_number(digits.subrange(0, i - start))
            },
        decreases n - i,
    {
        let code = codes[i];
        let ghost before = digits.subrange(0, i - start);
        let ghost after = digits.subrange(0, i + 1 - start);
        proof {
            assert(after.drop_last() =~= before);
            assert(after.last() == text@[i as int]);
        }
        if !(48 <= code && code <= 57) {
            assert(digits[i - start] == text@[i as int]);
            assert(!('0' <= digits[i - start] <= '9'));
            assert(!all_digits(digits));
            return None;
        }
        let next = acc * 10 + (code - 48) as u64;
        acc = if next >= 4294967296 {
            4294967296
        } else {
            next
        };
        proof {
            assert forall|j: int| 0 <= j < after.len() implies '0' <= #[trigger] after[j]
                <= '9' by {
                if j < before.len() {
                    assert(after[j] == before[j]);
                }
            }
        }
        i += 1;
    }
    assert(digits.subrange(0, n - start) =~= digits);
    if negative {
        if acc <= 2147483648 {
            Some((-(acc as i64)) as i32)
        } else {
            None
        }
    } else {
        if acc <= 2147483647 {
            Some(acc as i32)
        } else {
            None
        }
    }
}

} // verus!
