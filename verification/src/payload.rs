//! The payload of a token: claims written as one JSON object, with the keys
//! `sub`, `email`, `name`, `is_admin`, `exp` and `iat` in this order and no
//! space between them.

use crate::claims::{Claims, ClaimsView};
use crate::json::{
    decimal, is_digit, lemma_join, lemma_scan_number, lemma_scan_quoted, lemma_strip_prefix, push_bytes,
    push_decimal, push_quoted, quoted, same_bytes, scan_number, scan_quoted, strip_prefix,
    take_number, take_prefix, take_quoted,
};
use crate::text::string_from_utf8;
use vstd::prelude::*;
use vstd::string::*;
use vstd::utf8::*;

verus! {

/// The bytes of a fixed word of the text.
pub open spec fn word(s: &str) -> Seq<u8> {
    s.spec_bytes()
}

/// The word for a truth value.
pub open spec fn flag_word(b: bool) -> Seq<u8> {
    if b {
        word("true")
    } else {
        word("false")
    }
}

/// The JSON text of claims. It is put together from its end: each line is
/// one piece in front of all that follows it.
pub open spec fn claims_json(c: ClaimsView) -> Seq<u8> {
    word("{\"sub\":") + (quoted(encode_utf8(c.sub)) + (
    word(",\"email\":") + (quoted(encode_utf8(c.email)) + (
    word(",\"name\":") + (quoted(encode_utf8(c.name)) + (
    word(",\"is_admin\":") + (flag_word(c.is_admin) + (
    word(",\"exp\":") + (decimal(c.exp as nat) + (
    word(",\"iat\":") + (decimal(c.iat as nat) + word("}"))))))))))))
}

/// Whether `json` is the JSON text of some claims.
pub open spec fn is_claims_json(json: Seq<u8>) -> bool {
    exists|c: ClaimsView| #[trigger] claims_json(c) == json
}

/// The quoted string behind the key `key` at the front of `s`, and what is
/// left behind it.
pub open spec fn scan_field(s: Seq<u8>, key: Seq<u8>) -> Option<(Seq<u8>, Seq<u8>)> {
    match strip_prefix(s, key) {
        Some(rest) => scan_quoted(rest),
        None => None,
    }
}

/// The truth value at the front of `s`, and what is left behind it.
pub open spec fn scan_flag(s: Seq<u8>) -> Option<(bool, Seq<u8>)> {
    match strip_prefix(s, word("true")) {
        Some(rest) => Some((true, rest)),
        None => match strip_prefix(s, word("false")) {
            Some(rest) => Some((false, rest)),
            None => None,
        },
    }
}

/// The number behind the key `key` at the front of `s`, and what is left
/// behind it.
pub open spec fn scan_count(s: Seq<u8>, key: Seq<u8>) -> Option<(nat, Seq<u8>)> {
    match strip_prefix(s, key) {
        Some(rest) => scan_number(rest),
        None => None,
    }
}

/// The two times and the closing brace that end the text.
pub open spec fn scan_times(s: Seq<u8>) -> Option<(nat, nat)> {
    match scan_count(s, word(",\"exp\":")) {
        Some((exp, s1)) => match scan_count(s1, word(",\"iat\":")) {
            Some((iat, s2)) => if s2 == word("}") {
                Some((exp, iat))
            } else {
                None
            },
            None => None,
        },
        None => None,
    }
}

/// The three strings that begin the text, and what is left behind them.
pub open spec fn scan_names(s: Seq<u8>) -> Option<(Seq<u8>, Seq<u8>, Seq<u8>, Seq<u8>)> {
    match scan_field(s, word("{\"sub\":")) {
        Some((sub, s1)) => match scan_field(s1, word(",\"email\":")) {
            Some((email, s2)) => match scan_field(s2, word(",\"name\":")) {
                Some((name, s3)) => Some((sub, email, name, s3)),
                None => None,
            },
            None => None,
        },
        None => None,
    }
}

/// The claims that a reading of `s` from left to right finds. It finds the
/// claims of every text that `claims_json` writes, and of some texts that
/// it does not write.
pub open spec fn scan_claims(s: Seq<u8>) -> Option<ClaimsView> {
    match scan_names(s) {
        Some((sub, email, name, s3)) => match strip_prefix(s3, word(",\"is_admin\":")) {
            Some(s4) => match scan_flag(s4) {
                Some((is_admin, s5)) => match scan_times(s5) {
                    Some((exp, iat)) => if valid_utf8(sub) && valid_utf8(email) && valid_utf8(name)
                        && exp <= usize::MAX && iat <= usize::MAX {
                        Some(
                            ClaimsView {
                                sub: decode_utf8(sub),
                                email: decode_utf8(email),
                                name: decode_utf8(name),
                                is_admin,
                                exp: exp as usize,
                                iat: iat as usize,
                            },
                        )
                    } else {
                        None
                    },
                    None => None,
                },
                None => None,
            },
            None => None,
        },
        None => None,
    }
}

proof fn lemma_word_first(s: &str)
    requires
        s@.len() > 0,
        is_ascii_chars(s@),
    ensures
        word(s).len() == s@.len(),
        word(s)[0] == s@[0] as u8,
{
    is_ascii_chars_encode_utf8(s@);
}

proof fn lemma_scan_field(key: Seq<u8>, value: Seq<u8>, rest: Seq<u8>)
    ensures
        scan_field(key + (quoted(value) + rest), key) == Some((value, rest)),
{
    lemma_strip_prefix(key, quoted(value) + rest);
    lemma_scan_quoted(value, rest);
}

proof fn lemma_scan_count(key: Seq<u8>, n: nat, rest: Seq<u8>)
    requires
        n <= u64::MAX,
        rest.len() == 0 || !is_digit(rest[0]),
    ensures
        scan_count(key + (decimal(n) + rest), key) == Some((n, rest)),
{
    lemma_strip_prefix(key, decimal(n) + rest);
    lemma_scan_number(n, rest);
}

proof fn lemma_scan_flag(b: bool, rest: Seq<u8>)
    ensures
        scan_flag(flag_word(b) + rest) == Some((b, rest)),
{
    reveal_strlit("true");
    reveal_strlit("false");
    lemma_word_first("true");
    lemma_word_first("false");
    lemma_strip_prefix(flag_word(b), rest);
    if !b {
        let s = flag_word(b) + rest;
        assert(s[0] == word("false")[0]);
        if strip_prefix(s, word("true")) is Some {
            assert(s.subrange(0, 4)[0] == word("true")[0]);
        }
    }
}

/// Reading the text of claims from left to right finds those claims.
pub proof fn lemma_scan_claims(c: ClaimsView)
    ensures
        scan_claims(claims_json(c)) == Some(c),
{
    broadcast use {encode_utf8_valid_utf8, encode_utf8_decode_utf8};

    let t12 = word("}");
    let t11 = decimal(c.iat as nat) + t12;
    let t10 = word(",\"iat\":") + t11;
    let t9 = decimal(c.exp as nat) + t10;
    let t8 = word(",\"exp\":") + t9;
    let t7 = flag_word(c.is_admin) + t8;
    let t6 = word(",\"is_admin\":") + t7;
    let t5 = quoted(encode_utf8(c.name)) + t6;
    let t4 = word(",\"name\":") + t5;
    let t3 = quoted(encode_utf8(c.email)) + t4;
    let t2 = word(",\"email\":") + t3;
    let t1 = quoted(encode_utf8(c.sub)) + t2;
    let t0 = word("{\"sub\":") + t1;
    assert(t0 == claims_json(c));
    lemma_scan_field(word("{\"sub\":"), encode_utf8(c.sub), t2);
    lemma_scan_field(word(",\"email\":"), encode_utf8(c.email), t4);
    lemma_scan_field(word(",\"name\":"), encode_utf8(c.name), t6);
    assert(scan_names(t0) == Some((encode_utf8(c.sub), encode_utf8(c.email), encode_utf8(c.name), t6)));
    lemma_strip_prefix(word(",\"is_admin\":"), t7);
    lemma_scan_flag(c.is_admin, t8);
    reveal_strlit(",\"iat\":");
    reveal_strlit("}");
    lemma_word_first(",\"iat\":");
    lemma_word_first("}");
    assert(t10[0] == word(",\"iat\":")[0]);
    lemma_scan_count(word(",\"exp\":"), c.exp as nat, t10);
    lemma_scan_count(word(",\"iat\":"), c.iat as nat, t12);
    assert(scan_times(t8) == Some((c.exp as nat, c.iat as nat)));
}

/// Two claims with the same text are the same.
pub proof fn lemma_claims_json_injective(a: ClaimsView, b: ClaimsView)
    requires
        claims_json(a) == claims_json(b),
    ensures
        a == b,
{
    lemma_scan_claims(a);
    lemma_scan_claims(b);
}

/// Writes claims as JSON text.
pub fn write_claims(c: &Claims) -> (json: Vec<u8>)
    ensures
        json@ == claims_json(c@),
{
    let ghost v = c@;
    let ghost t12 = word("}");
    let ghost t11 = decimal(v.iat as nat) + t12;
    let ghost t10 = word(",\"iat\":") + t11;
    let ghost t9 = decimal(v.exp as nat) + t10;
    let ghost t8 = word(",\"exp\":") + t9;
    let ghost t7 = flag_word(v.is_admin) + t8;
    let ghost t6 = word(",\"is_admin\":") + t7;
    let ghost t5 = quoted(encode_utf8(v.name)) + t6;
    let ghost t4 = word(",\"name\":") + t5;
    let ghost t3 = quoted(encode_utf8(v.email)) + t4;
    let ghost t2 = word(",\"email\":") + t3;
    let ghost t1 = quoted(encode_utf8(v.sub)) + t2;
    let ghost t0 = word("{\"sub\":") + t1;
    let mut out: Vec<u8> = Vec::new();
    assert(out@ + t0 =~= t0);
    push_bytes(&mut out, "{\"sub\":".as_bytes());
    proof { lemma_join(Seq::empty(), word("{\"sub\":"), t1); }
    assert(out@ + t1 == t0);
    let ghost o = out@;
    push_quoted(&mut out, c.sub.as_str().as_bytes());
    proof { lemma_join(o, quoted(encode_utf8(v.sub)), t2); }
    assert(out@ + t2 == t0);
    let ghost o = out@;
    push_bytes(&mut out, ",\"email\":".as_bytes());
    proof { lemma_join(o, word(",\"email\":"), t3); }
    assert(out@ + t3 == t0);
    let ghost o = out@;
    push_quoted(&mut out, c.email.as_str().as_bytes());
    proof { lemma_join(o, quoted(encode_utf8(v.email)), t4); }
    assert(out@ + t4 == t0);
    let ghost o = out@;
    push_bytes(&mut out, ",\"name\":".as_bytes());
    proof { lemma_join(o, word(",\"name\":"), t5); }
    assert(out@ + t5 == t0);
    let ghost o = out@;
    push_quoted(&mut out, c.name.as_str().as_bytes());
    proof { lemma_join(o, quoted(encode_utf8(v.name)), t6); }
    assert(out@ + t6 == t0);
    let ghost o = out@;
    push_bytes(&mut out, ",\"is_admin\":".as_bytes());
    proof { lemma_join(o, word(",\"is_admin\":"), t7); }
    assert(out@ + t7 == t0);
    let ghost o = out@;
    if c.is_admin {
        push_bytes(&mut out, "true".as_bytes());
    } else {
        push_bytes(&mut out, "false".as_bytes());
    }
    proof { lemma_join(o, flag_word(v.is_admin), t8); }
    assert(out@ + t8 == t0);
    let ghost o = out@;
    push_bytes(&mut out, ",\"exp\":".as_bytes());
    proof { lemma_join(o, word(",\"exp\":"), t9); }
    assert(out@ + t9 == t0);
    let ghost o = out@;
    push_decimal(&mut out, c.exp as u64);
    proof { lemma_join(o, decimal(v.exp as nat), t10); }
    assert(out@ + t10 == t0);
    let ghost o = out@;
    push_bytes(&mut out, ",\"iat\":".as_bytes());
    proof { lemma_join(o, word(",\"iat\":"), t11); }
    assert(out@ + t11 == t0);
    let ghost o = out@;
    push_decimal(&mut out, c.iat as u64);
    proof { lemma_join(o, decimal(v.iat as nat), t12); }
    assert(out@ + t12 == t0);
    push_bytes(&mut out, "}".as_bytes());
    out
}

fn take_field(input: &[u8], start: usize, key: &str) -> (r: Option<(Vec<u8>, usize)>)
    requires
        start <= input@.len(),
    ensures
        r matches Some((s, end)) ==> start <= end <= input@.len() && scan_field(
            input@.skip(start as int),
            word(key),
        ) == Some((s@, input@.skip(end as int))),
        r is None ==> scan_field(input@.skip(start as int), word(key)) is None,
{
    match take_prefix(input, start, key.as_bytes()) {
        Some(p) => take_quoted(input, p),
        None => None,
    }
}

fn take_count(input: &[u8], start: usize, key: &str) -> (r: Option<(u64, usize)>)
    requires
        start <= input@.len(),
    ensures
        r matches Some((v, end)) ==> start <= end <= input@.len() && scan_count(
            input@.skip(start as int),
            word(key),
        ) == Some((v as nat, input@.skip(end as int))),
        r is None ==> scan_count(input@.skip(start as int), word(key)) is None,
{
    match take_prefix(input, start, key.as_bytes()) {
        Some(p) => take_number(input, p),
        None => None,
    }
}

fn take_flag(input: &[u8], start: usize) -> (r: Option<(bool, usize)>)
    requires
        start <= input@.len(),
    ensures
        r matches Some((b, end)) ==> start <= end <= input@.len() && scan_flag(
            input@.skip(start as int),
        ) == Some((b, input@.skip(end as int))),
        r is None ==> scan_flag(input@.skip(start as int)) is None,
{
    match take_prefix(input, start, "true".as_bytes()) {
        Some(p) => Some((true, p)),
        None => match take_prefix(input, start, "false".as_bytes()) {
            Some(p) => Some((false, p)),
            None => None,
        },
    }
}

fn take_times(input: &[u8], start: usize) -> (r: Option<(u64, u64)>)
    requires
        start <= input@.len(),
    ensures
        r matches Some((exp, iat)) ==> scan_times(input@.skip(start as int)) == Some(
            (exp as nat, iat as nat),
        ),
        r is None ==> scan_times(input@.skip(start as int)) is None,
{
    let (exp, after_exp) = match take_count(input, start, ",\"exp\":") {
        Some(found) => found,
        None => { return None; },
    };
    let (iat, after_iat) = match take_count(input, after_exp, ",\"iat\":") {
        Some(found) => found,
        None => { return None; },
    };
    let brace = "}".as_bytes();
    match take_prefix(input, after_iat, brace) {
        Some(end) => {
            proof {
                let left = input@.skip(after_iat as int);
                if end == input@.len() {
                    assert(left =~= left.subrange(0, brace@.len() as int));
                }
            }
            if end == input.len() {
                Some((exp, iat))
            } else {
                None
            }
        },
        None => {
            proof {
                let left = input@.skip(after_iat as int);
                if left == word("}") {
                    assert(left.subrange(0, left.len() as int) =~= left);
                }
            }
            None
        },
    }
}

fn take_names(input: &[u8]) -> (r: Option<(Vec<u8>, Vec<u8>, Vec<u8>, usize)>)
    ensures
        r matches Some((sub, email, name, end)) ==> end <= input@.len() && scan_names(input@)
            == Some((sub@, email@, name@, input@.skip(end as int))),
        r is None ==> scan_names(input@) is None,
{
    assert(input@.skip(0) =~= input@);
    let (sub, after_sub) = match take_field(input, 0, "{\"sub\":") {
        Some(found) => found,
        None => { return None; },
    };
    let (email, after_email) = match take_field(input, after_sub, ",\"email\":") {
        Some(found) => found,
        None => { return None; },
    };
    let (name, after_name) = match take_field(input, after_email, ",\"name\":") {
        Some(found) => found,
        None => { return None; },
    };
    Some((sub, email, name, after_name))
}

/// Reads `input` from left to right.
fn take_claims(input: &[u8]) -> (r: Option<Claims>)
    ensures
        r matches Some(c) ==> scan_claims(input@) == Some(c@),
        r is None ==> scan_claims(input@) is None,
{
    let (sub, email, name, after_name) = match take_names(input) {
        Some(found) => found,
        None => { return None; },
    };
    let at_flag = match take_prefix(input, after_name, ",\"is_admin\":".as_bytes()) {
        Some(p) => p,
        None => { return None; },
    };
    let (is_admin, after_flag) = match take_flag(input, at_flag) {
        Some(found) => found,
        None => { return None; },
    };
    let (exp, iat) = match take_times(input, after_flag) {
        Some(found) => found,
        None => { return None; },
    };
    let ghost sub_bytes = sub@;
    let ghost email_bytes = email@;
    let ghost name_bytes = name@;
    let sub = match string_from_utf8(sub) {
        Some(s) => s,
        None => { return None; },
    };
    let email = match string_from_utf8(email) {
        Some(s) => s,
        None => { return None; },
    };
    let name = match string_from_utf8(name) {
        Some(s) => s,
        None => { return None; },
    };
    if exp > usize::MAX as u64 || iat > usize::MAX as u64 {
        return None;
    }
    Some(Claims { sub, email, name, is_admin, exp: exp as usize, iat: iat as usize })
}

/// Reads claims from their JSON text: `Some` of the claims whose text
/// `json` is, `None` where it is the text of no claims.
pub fn read_claims(json: &[u8]) -> (r: Option<Claims>)
    ensures
        r matches Some(c) ==> claims_json(c@) == json@,
        r is None ==> !is_claims_json(json@),
{
    match take_claims(json) {
        None => {
            proof {
                assert forall|c: ClaimsView| #[trigger] claims_json(c) != json@ by {
                    lemma_scan_claims(c);
                }
            }
            None
        },
        Some(found) => {
            let again = write_claims(&found);
            if same_bytes(again.as_slice(), json) {
                Some(found)
            } else {
                proof {
                    assert forall|c: ClaimsView| #[trigger] claims_json(c) != json@ by {
                        lemma_scan_claims(c);
                    }
                }
                None
            }
        },
    }
}

} // verus!
