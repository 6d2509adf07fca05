//! The pieces of JSON text that a claims payload is written in: quoted
//! strings, unsigned decimal numbers and fixed words, each with the function
//! that writes it and the function that reads it back.
//!
//! The readers work on what is left of the input: each takes the piece at the
//! front and hands back the rest.

use vstd::prelude::*;

verus! {

pub const QUOTE: u8 = 34;

pub const BACKSLASH: u8 = 92;

/// The lower-case hexadecimal digit for `v`.
pub open spec fn hex_digit(v: u8) -> u8
    recommends
        v < 16,
{
    if v < 10 {
        (48 + v) as u8
    } else {
        (87 + v) as u8
    }
}

/// The value of a hexadecimal digit, of either case.
pub open spec fn hex_value(b: u8) -> Option<u8> {
    if 48 <= b && b <= 57 {
        Some((b - 48) as u8)
    } else if 97 <= b && b <= 102 {
        Some((b - 87) as u8)
    } else if 65 <= b && b <= 70 {
        Some((b - 55) as u8)
    } else {
        None
    }
}

/// How one byte of a string stands between the quotation marks: the
/// quotation mark and the backslash behind a backslash, a control character
/// by its short name or as `\u00` and two hexadecimal digits, any other byte
/// as it is.
pub open spec fn escape(b: u8) -> Seq<u8> {
    if b == QUOTE {
        seq![BACKSLASH, QUOTE]
    } else if b == BACKSLASH {
        seq![BACKSLASH, BACKSLASH]
    } else if b == 8 {
        seq![BACKSLASH, 'b' as u8]
    } else if b == 12 {
        seq![BACKSLASH, 'f' as u8]
    } else if b == 10 {
        seq![BACKSLASH, 'n' as u8]
    } else if b == 13 {
        seq![BACKSLASH, 'r' as u8]
    } else if b == 9 {
        seq![BACKSLASH, 't' as u8]
    } else if b < 32 {
        seq![BACKSLASH, 'u' as u8, '0' as u8, '0' as u8, hex_digit(b / 16), hex_digit(b % 16)]
    } else {
        seq![b]
    }
}

/// The bytes of a string, each escaped.
pub open spec fn escaped(s: Seq<u8>) -> Seq<u8>
    decreases s.len(),
{
    if s.len() == 0 {
        Seq::empty()
    } else {
        escape(s[0]) + escaped(s.skip(1))
    }
}

/// A string as JSON writes it: escaped, between quotation marks.
pub open spec fn quoted(s: Seq<u8>) -> Seq<u8> {
    seq![QUOTE] + (escaped(s) + seq![QUOTE])
}

/// An unsigned number as JSON writes it: in decimal digits, without leading
/// zeros.
pub open spec fn decimal(n: nat) -> Seq<u8>
    decreases n,
{
    if n < 10 {
        seq![(48 + n) as u8]
    } else {
        decimal(n / 10).push((48 + n % 10) as u8)
    }
}

pub open spec fn is_digit(b: u8) -> bool {
    48 <= b && b <= 57
}

/// What is left of `s` behind the prefix `p`, if `s` begins with `p`.
pub open spec fn strip_prefix(s: Seq<u8>, p: Seq<u8>) -> Option<Seq<u8>> {
    if p.len() <= s.len() && s.subrange(0, p.len() as int) == p {
        Some(s.skip(p.len() as int))
    } else {
        None
    }
}

/// The byte that the escape at the front of `s` stands for, and the number
/// of bytes that the escape takes.
pub open spec fn unescape_first(s: Seq<u8>) -> Option<(u8, nat)>
    recommends
        s.len() > 0,
{
    if s[0] != BACKSLASH {
        if s[0] < 32 || s[0] == QUOTE {
            None
        } else {
            Some((s[0], 1nat))
        }
    } else if s.len() < 2 {
        None
    } else if s[1] == QUOTE {
        Some((QUOTE, 2nat))
    } else if s[1] == BACKSLASH {
        Some((BACKSLASH, 2nat))
    } else if s[1] == 'b' as u8 {
        Some((8u8, 2nat))
    } else if s[1] == 'f' as u8 {
        Some((12u8, 2nat))
    } else if s[1] == 'n' as u8 {
        Some((10u8, 2nat))
    } else if s[1] == 'r' as u8 {
        Some((13u8, 2nat))
    } else if s[1] == 't' as u8 {
        Some((9u8, 2nat))
    } else if s[1] == 'u' as u8 && s.len() >= 6 && s[2] == '0' as u8 && s[3] == '0' as u8 {
        match (hex_value(s[4]), hex_value(s[5])) {
            (Some(h), Some(l)) => Some(((h * 16 + l) as u8, 6nat)),
            _ => None,
        }
    } else {
        None
    }
}

/// The string whose escaped bytes stand at the front of `s`, up to the
/// closing quotation mark, and what is left behind that mark.
pub open spec fn scan_string_body(s: Seq<u8>) -> Option<(Seq<u8>, Seq<u8>)>
    decreases s.len(),
{
    if s.len() == 0 {
        None
    } else if s[0] == QUOTE {
        Some((Seq::empty(), s.skip(1)))
    } else {
        match unescape_first(s) {
            Some((b, k)) => if 1 <= k <= s.len() {
                match scan_string_body(s.skip(k as int)) {
                    Some((t, rest)) => Some((seq![b] + t, rest)),
                    None => None,
                }
            } else {
                None
            },
            None => None,
        }
    }
}

/// The quoted string at the front of `s`, and what is left behind it.
pub open spec fn scan_quoted(s: Seq<u8>) -> Option<(Seq<u8>, Seq<u8>)> {
    if s.len() > 0 && s[0] == QUOTE {
        scan_string_body(s.skip(1))
    } else {
        None
    }
}

/// The value of the digits at the front of `s`, read behind digits whose
/// value is `acc`, and what is left behind them; `None` where the value
/// passes `u64::MAX`.
pub open spec fn scan_digits(s: Seq<u8>, acc: nat) -> Option<(nat, Seq<u8>)>
    decreases s.len(),
{
    if s.len() > 0 && is_digit(s[0]) {
        let v = acc * 10 + (s[0] - 48) as nat;
        if v > u64::MAX {
            None
        } else {
            scan_digits(s.skip(1), v)
        }
    } else {
        Some((acc, s))
    }
}

/// The number at the front of `s`, and what is left behind it.
pub open spec fn scan_number(s: Seq<u8>) -> Option<(nat, Seq<u8>)> {
    if s.len() > 0 && is_digit(s[0]) {
        scan_digits(s, 0)
    } else {
        None
    }
}

/// Joining three pieces from the left is joining them from the right.
pub proof fn lemma_join(a: Seq<u8>, b: Seq<u8>, c: Seq<u8>)
    ensures
        (a + b) + c == a + (b + c),
{
    assert((a + b) + c =~= a + (b + c));
}

/// A prefix is taken off what begins with it.
pub proof fn lemma_strip_prefix(p: Seq<u8>, rest: Seq<u8>)
    ensures
        strip_prefix(p + rest, p) == Some(rest),
{
    assert((p + rest).subrange(0, p.len() as int) =~= p);
    assert((p + rest).skip(p.len() as int) =~= rest);
}

proof fn lemma_hex(b: u8)
    requires
        b < 32,
    ensures
        hex_value(hex_digit(b / 16)) == Some((b / 16) as u8),
        hex_value(hex_digit(b % 16)) == Some((b % 16) as u8),
        ((b / 16) * 16 + b % 16) as u8 == b,
{
}

/// An escaped byte is read back as the byte, and it does not begin with a
/// quotation mark.
pub proof fn lemma_unescape_escape(b: u8, rest: Seq<u8>)
    ensures
        unescape_first(escape(b) + rest) == Some((b, escape(b).len())),
        (escape(b) + rest)[0] != QUOTE,
        1 <= escape(b).len() <= 6,
{
    let s = escape(b) + rest;
    if b < 32 {
        lemma_hex(b);
    }
    assert(s[0] == escape(b)[0]);
    if escape(b).len() >= 2 {
        assert(s[1] == escape(b)[1]);
    }
    if escape(b).len() == 6 {
        assert(s[2] == escape(b)[2]);
        assert(s[3] == escape(b)[3]);
        assert(s[4] == escape(b)[4]);
        assert(s[5] == escape(b)[5]);
    }
}

/// A quoted string is read back as the string, whatever follows it.
pub proof fn lemma_scan_quoted(s: Seq<u8>, rest: Seq<u8>)
    ensures
        scan_quoted(quoted(s) + rest) == Some((s, rest)),
{
    let body = escaped(s) + (seq![QUOTE] + rest);
    assert((quoted(s) + rest).skip(1) =~= body);
    assert((quoted(s) + rest)[0] == QUOTE);
    lemma_scan_string_body(s, rest);
}

proof fn lemma_scan_string_body(s: Seq<u8>, rest: Seq<u8>)
    ensures
        scan_string_body(escaped(s) + (seq![QUOTE] + rest)) == Some((s, rest)),
    decreases s.len(),
{
    let input = escaped(s) + (seq![QUOTE] + rest);
    if s.len() == 0 {
        assert(input =~= seq![QUOTE] + rest);
        assert(input.skip(1) =~= rest);
        assert(s =~= Seq::empty());
    } else {
        let tail = escaped(s.skip(1)) + (seq![QUOTE] + rest);
        assert(input =~= escape(s[0]) + tail);
        lemma_unescape_escape(s[0], tail);
        let k = escape(s[0]).len();
        assert(input.skip(k as int) =~= tail);
        lemma_scan_string_body(s.skip(1), rest);
        assert(seq![s[0]] + s.skip(1) =~= s);
    }
}

/// A number is read back from its digits, where no digit follows them.
pub proof fn lemma_scan_number(n: nat, rest: Seq<u8>)
    requires
        n <= u64::MAX,
        rest.len() == 0 || !is_digit(rest[0]),
    ensures
        scan_number(decimal(n) + rest) == Some((n, rest)),
{
    lemma_scan_digits(n, rest);
    lemma_decimal_digits(n);
    assert((decimal(n) + rest)[0] == decimal(n)[0]);
}

/// A numeral is made of digits, and of at least one.
pub proof fn lemma_decimal_digits(n: nat)
    ensures
        decimal(n).len() >= 1,
        forall|i: int| 0 <= i < decimal(n).len() ==> is_digit(#[trigger] decimal(n)[i]),
    decreases n,
{
    if n >= 10 {
        lemma_decimal_digits(n / 10);
    }
}

proof fn lemma_scan_digits(n: nat, rest: Seq<u8>)
    requires
        n <= u64::MAX,
    ensures
        scan_digits(decimal(n) + rest, 0) == scan_digits(rest, n),
    decreases n,
{
    let input = decimal(n) + rest;
    if n < 10 {
        assert(input[0] == (48 + n) as u8);
        assert(input.skip(1) =~= rest);
    } else {
        let last = seq![(48 + n % 10) as u8] + rest;
        assert(input =~= decimal(n / 10) + last);
        lemma_scan_digits(n / 10, last);
        assert(last.skip(1) =~= rest);
        assert(last[0] == (48 + n % 10) as u8);
    }
}

fn hex_digit_of(v: u8) -> (d: u8)
    requires
        v < 16,
    ensures
        d == hex_digit(v),
{
    if v < 10 {
        48 + v
    } else {
        87 + v
    }
}

fn hex_value_of(b: u8) -> (r: Option<u8>)
    ensures
        r == hex_value(b),
        r matches Some(v) ==> v < 16,
{
    if 48 <= b && b <= 57 {
        Some(b - 48)
    } else if 97 <= b && b <= 102 {
        Some(b - 87)
    } else if 65 <= b && b <= 70 {
        Some(b - 55)
    } else {
        None
    }
}

fn push_escape(out: &mut Vec<u8>, b: u8)
    ensures
        final(out)@ == old(out)@ + escape(b),
{
    let ghost before = out@;
    if b == QUOTE || b == BACKSLASH {
        out.push(BACKSLASH);
        out.push(b);
    } else if b == 8 {
        out.push(BACKSLASH);
        out.push('b' as u8);
    } else if b == 12 {
        out.push(BACKSLASH);
        out.push('f' as u8);
    } else if b == 10 {
        out.push(BACKSLASH);
        out.push('n' as u8);
    } else if b == 13 {
        out.push(BACKSLASH);
        out.push('r' as u8);
    } else if b == 9 {
        out.push(BACKSLASH);
        out.push('t' as u8);
    } else if b < 32 {
        out.push(BACKSLASH);
        out.push('u' as u8);
        out.push('0' as u8);
        out.push('0' as u8);
        out.push(hex_digit_of(b / 16));
        out.push(hex_digit_of(b % 16));
    } else {
        out.push(b);
    }
    assert(out@ =~= before + escape(b));
}

/// Appends `s`, written as a quoted string.
pub fn push_quoted(out: &mut Vec<u8>, s: &[u8])
    ensures
        final(out)@ == old(out)@ + quoted(s@),
{
    let ghost before = out@;
    out.push(QUOTE);
    let n = s.len();
    let mut i: usize = 0;
    proof {
        assert(s@.skip(0) =~= s@);
        assert(out@ + escaped(s@) =~= before + (seq![QUOTE] + escaped(s@)));
    }
    while i < n
        invariant
            i <= n,
            n == s@.len(),
            out@ + escaped(s@.skip(i as int)) == before + (seq![QUOTE] + escaped(s@)),
        decreases n - i,
    {
        let ghost mid = out@;
        proof {
            assert(s@.skip(i as int).skip(1) =~= s@.skip(i + 1));
        }
        push_escape(out, s[i]);
        proof {
            assert(out@ + escaped(s@.skip(i + 1)) =~= mid + escaped(s@.skip(i as int)));
        }
        i += 1;
    }
    let ghost mid = out@;
    out.push(QUOTE);
    assert(out@ =~= before + quoted(s@)) by {
        assert(mid =~= mid + escaped(s@.skip(i as int)));
    }
}

/// Appends `n`, written in decimal.
pub fn push_decimal(out: &mut Vec<u8>, n: u64)
    ensures
        final(out)@ == old(out)@ + decimal(n as nat),
    decreases n,
{
    let ghost before = out@;
    if n >= 10 {
        push_decimal(out, n / 10);
    }
    out.push(48 + (n % 10) as u8);
    assert(out@ =~= before + decimal(n as nat));
}

/// Appends the bytes of `s`.
pub fn push_bytes(out: &mut Vec<u8>, s: &[u8])
    ensures
        final(out)@ == old(out)@ + s@,
{
    let ghost before = out@;
    let n = s.len();
    let mut i: usize = 0;
    while i < n
        invariant
            i <= n,
            n == s@.len(),
            out@ == before + s@.subrange(0, i as int),
        decreases n - i,
    {
        out.push(s[i]);
        assert(out@ =~= before + s@.subrange(0, i + 1));
        i += 1;
    }
    assert(s@.subrange(0, n as int) =~= s@);
}

/// Whether two byte strings are the same.
pub fn same_bytes(a: &[u8], b: &[u8]) -> (r: bool)
    ensures
        r == (a@ == b@),
{
    if a.len() != b.len() {
        return false;
    }
    let n = a.len();
    let mut i: usize = 0;
    while i < n
        invariant
            i <= n,
            n == a@.len(),
            n == b@.len(),
            forall|j: int| 0 <= j < i ==> a@[j] == b@[j],
        decreases n - i,
    {
        if a[i] != b[i] {
            return false;
        }
        i += 1;
    }
    assert(a@ =~= b@);
    true
}

/// Takes the word `word` from `input` at `start`: the place behind it, or
/// `None` where the input does not go on with that word.
pub fn take_prefix(input: &[u8], start: usize, word: &[u8]) -> (r: Option<usize>)
    requires
        start <= input@.len(),
    ensures
        r matches Some(end) ==> end == start + word@.len() && end <= input@.len() && strip_prefix(
            input@.skip(start as int),
            word@,
        ) == Some(input@.skip(end as int)),
        r is None ==> strip_prefix(input@.skip(start as int), word@) is None,
{
    let n = input.len();
    let m = word.len();
    if n - start < m {
        return None;
    }
    let ghost here = input@.skip(start as int);
    let mut i: usize = 0;
    while i < m
        invariant
            i <= m,
            m == word@.len(),
            n == input@.len(),
            start + m <= n,
            here == input@.skip(start as int),
            forall|j: int| 0 <= j < i ==> here[j] == word@[j],
        decreases m - i,
    {
        if input[start + i] != word[i] {
            assert(here.subrange(0, m as int)[i as int] != word@[i as int]);
            return None;
        }
        i += 1;
    }
    proof {
        assert(here.subrange(0, m as int) =~= word@);
        assert(here.skip(m as int) =~= input@.skip(start + m));
    }
    Some(start + m)
}

fn take_escape(input: &[u8], p: usize) -> (r: Option<(u8, usize)>)
    requires
        p < input@.len(),
    ensures
        r matches Some((b, k)) ==> unescape_first(input@.skip(p as int)) == Some((b, k as nat))
            && 1 <= k && p + k <= input@.len(),
        r is None ==> unescape_first(input@.skip(p as int)) is None,
{
    let n = input.len();
    let ghost here = input@.skip(p as int);
    let b = input[p];
    assert(here[0] == b);
    if b != BACKSLASH {
        if b < 32 || b == QUOTE {
            None
        } else {
            Some((b, 1))
        }
    } else if n - p < 2 {
        None
    } else {
        let e = input[p + 1];
        assert(here[1] == e);
        if e == QUOTE || e == BACKSLASH {
            Some((e, 2))
        } else if e == 'b' as u8 {
            Some((8, 2))
        } else if e == 'f' as u8 {
            Some((12, 2))
        } else if e == 'n' as u8 {
            Some((10, 2))
        } else if e == 'r' as u8 {
            Some((13, 2))
        } else if e == 't' as u8 {
            Some((9, 2))
        } else if e == 'u' as u8 && n - p >= 6 && input[p + 2] == '0' as u8 && input[p + 3]
            == '0' as u8 {
            assert(here[2] == input@[p + 2]);
            assert(here[3] == input@[p + 3]);
            assert(here[4] == input@[p + 4]);
            assert(here[5] == input@[p + 5]);
            match (hex_value_of(input[p + 4]), hex_value_of(input[p + 5])) {
                (Some(h), Some(l)) => Some((h * 16 + l, 6)),
                _ => None,
            }
        } else {
            proof {
                if n - p >= 6 {
                    assert(here[2] == input@[p + 2]);
                    assert(here[3] == input@[p + 3]);
                }
            }
            None
        }
    }
}

/// Takes the quoted string from `input` at `start`: the string and the place
/// behind its closing quotation mark.
pub fn take_quoted(input: &[u8], start: usize) -> (r: Option<(Vec<u8>, usize)>)
    requires
        start <= input@.len(),
    ensures
        r matches Some((s, end)) ==> start <= end <= input@.len() && scan_quoted(
            input@.skip(start as int),
        ) == Some((s@, input@.skip(end as int))),
        r is None ==> scan_quoted(input@.skip(start as int)) is None,
{
    let n = input.len();
    if start >= n || input[start] != QUOTE {
        return None;
    }
    let mut out: Vec<u8> = Vec::new();
    let mut p: usize = start + 1;
    let ghost body = input@.skip(start + 1);
    proof {
        assert(input@.skip(start as int).skip(1) =~= body);
        match scan_string_body(body) {
            Some((t, rest)) => {
                assert(out@ + t =~= t);
            },
            None => {},
        }
    }
    loop
        invariant
            start < p <= n,
            n == input@.len(),
            body == input@.skip(start + 1),
            scan_quoted(input@.skip(start as int)) == scan_string_body(body),
            scan_string_body(body) == match scan_string_body(input@.skip(p as int)) {
                Some((t, rest)) => Some((out@ + t, rest)),
                None => None,
            },
        decreases n - p,
    {
        if p >= n {
            return None;
        }
        let ghost here = input@.skip(p as int);
        if input[p] == QUOTE {
            proof {
                assert(here[0] == QUOTE);
                assert(here.skip(1) =~= input@.skip(p + 1));
                assert(out@ + Seq::<u8>::empty() =~= out@);
            }
            return Some((out, p + 1));
        }
        match take_escape(input, p) {
            None => {
                return None;
            },
            Some((b, k)) => {
                let ghost before = out@;
                out.push(b);
                proof {
                    assert(here.skip(k as int) =~= input@.skip(p + k));
                    match scan_string_body(input@.skip(p + k)) {
                        Some((t, rest)) => {
                            assert(out@ + t =~= before + (seq![b] + t));
                        },
                        None => {},
                    }
                }
                p += k;
            },
        }
    }
}

/// Takes the number from `input` at `start`: its value and the place behind
/// its last digit. `None` where no digit stands there or the value passes
/// `u64::MAX`.
pub fn take_number(input: &[u8], start: usize) -> (r: Option<(u64, usize)>)
    requires
        start <= input@.len(),
    ensures
        r matches Some((v, end)) ==> start <= end <= input@.len() && scan_number(
            input@.skip(start as int),
        ) == Some((v as nat, input@.skip(end as int))),
        r is None ==> scan_number(input@.skip(start as int)) is None,
{
    let n = input.len();
    if start >= n || !(48 <= input[start] && input[start] <= 57) {
        return None;
    }
    let mut acc: u64 = 0;
    let mut p: usize = start;
    loop
        invariant
            start <= p <= n,
            n == input@.len(),
            scan_number(input@.skip(start as int)) == scan_digits(input@.skip(p as int), acc as nat),
        decreases n - p,
    {
        if p >= n || !(48 <= input[p] && input[p] <= 57) {
            return Some((acc, p));
        }
        let d = (input[p] - 48) as u64;
        proof {
            assert(input@.skip(p as int)[0] == input@[p as int]);
            assert(input@.skip(p as int).skip(1) =~= input@.skip(p + 1));
        }
        if acc > 1844674407370955161 || acc * 10 > u64::MAX - d {
            return None;
        }
        acc = acc * 10 + d;
        p += 1;
    }
}

} // verus!
