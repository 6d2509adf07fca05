//! Session tokens: claims, signed with HMAC over SHA-256.
//!
//! A token is ASCII text in three segments with a full stop between them:
//! the header, the payload and the signature. The header and the payload
//! are base64url text; the signature is made over the first two segments
//! and the full stop between them.

use crate::base64url::{decode_text, encode, encode_text, lemma_encode_alphabet, lemma_encode_injective};
use crate::claims::{Claims, ClaimsView};
use crate::clock::unix_now;
use crate::payload::{claims_json, lemma_claims_json_injective, read_claims, word, write_claims};
use crate::text::{ascii_codes, same_ascii};
use jsonwebtoken::{Algorithm, DecodingKey, EncodingKey};
use vstd::prelude::*;
use vstd::string::*;
use vstd::utf8::*;

verus! {

/// Why a token could not be made or was not accepted.
#[derive(Debug, Clone, Copy, PartialEq, Eq, Structural)]
pub enum TokenError {
    /// The text is not a token: it is not ASCII, has fewer than three
    /// segments, another header than this library writes, or a payload that
    /// is not the text of claims.
    MalformedToken,
    /// The signature is not the one that the key gives for the token.
    InvalidSignature,
    /// The token has expired, or expires no later than it was issued.
    ExpiredToken,
    /// The token could not be signed.
    SigningFailure,
    /// The system clock could not be read.
    ClockUnavailable,
}

#[verifier::external_type_specification]
#[verifier::external_body]
pub struct ExSignatureError(jsonwebtoken::errors::Error);

/// The signature text that HMAC over SHA-256 gives for `message` under
/// `key`.
pub uninterp spec fn hs256_signature(message: Seq<u8>, key: Seq<u8>) -> Seq<char>;

/// `jsonwebtoken::crypto::sign` with the algorithm HS256 and `key` as the
/// secret. For this algorithm it always succeeds; its result depends on the
/// message and the key alone, and is base64url text, so ASCII.
#[verifier::external_body]
fn sign_hs256(message: &[u8], key: &[u8]) -> (r: Result<String, jsonwebtoken::errors::Error>)
    ensures
        r is Ok,
        r matches Ok(s) ==> s@ == hs256_signature(message@, key@) && is_ascii_chars(s@),
{
    jsonwebtoken::crypto::sign(message, &EncodingKey::from_secret(key), Algorithm::HS256)
}

/// `jsonwebtoken::crypto::verify` with the algorithm HS256 and `key` as the
/// secret. For this algorithm it signs the message again and compares the
/// two signature texts in constant time: it always succeeds, and gives
/// whether they are the same.
#[verifier::external_body]
fn verify_hs256(signature: &str, message: &[u8], key: &[u8]) -> (r: Result<
    bool,
    jsonwebtoken::errors::Error,
>)
    ensures
        r is Ok,
        r matches Ok(same) ==> same == (signature@ == hs256_signature(message@, key@)),
{
    jsonwebtoken::crypto::verify(signature, message, &DecodingKey::from_secret(key), Algorithm::HS256)
}

/// The header of every token, before it is encoded.
pub open spec fn header_json() -> Seq<u8> {
    word("{\"typ\":\"JWT\",\"alg\":\"HS256\"}")
}

/// The first segment of every token.
pub open spec fn header_text() -> Seq<char> {
    encode(header_json())
}

/// The second segment of the token for `c`.
pub open spec fn payload_text(c: ClaimsView) -> Seq<char> {
    encode(claims_json(c))
}

/// Two segments with the full stop between them.
pub open spec fn joined(first: Seq<char>, second: Seq<char>) -> Seq<char> {
    first + (seq!['.'] + second)
}

/// The part of a token that is signed.
pub open spec fn signed_text(c: ClaimsView) -> Seq<char> {
    joined(header_text(), payload_text(c))
}

/// The token for `c` under `key`.
pub open spec fn token_text(c: ClaimsView, key: Seq<u8>) -> Seq<char> {
    joined(signed_text(c), hs256_signature(encode_utf8(signed_text(c)), key))
}

/// The place of the first full stop in `s`, or the length of `s` where it
/// holds none.
pub open spec fn first_stop(s: Seq<char>) -> int
    decreases s.len(),
{
    if s.len() == 0 || s[0] == '.' {
        0
    } else {
        1 + first_stop(s.skip(1))
    }
}

/// The three segments of `token`: the header before the first full stop,
/// the payload between the first and the second, and the signature, which is
/// all that follows the second. `None` where it has fewer than two full
/// stops.
pub open spec fn segments(token: Seq<char>) -> Option<(Seq<char>, Seq<char>, Seq<char>)> {
    let a = first_stop(token);
    let rest = token.skip(a + 1);
    let b = first_stop(rest);
    if a < token.len() && b < rest.len() {
        Some((token.subrange(0, a), rest.subrange(0, b), rest.skip(b + 1)))
    } else {
        None
    }
}

/// Whether `p` is the payload of some claims.
pub open spec fn is_payload(p: Seq<char>) -> bool {
    exists|c: ClaimsView| #[trigger] payload_text(c) == p
}

/// The claims whose payload `p` is.
pub open spec fn payload_claims(p: Seq<char>) -> ClaimsView
    recommends
        is_payload(p),
{
    choose|c: ClaimsView| #[trigger] payload_text(c) == p
}

/// What decoding `token` under `key` at the second `now` gives.
pub open spec fn decode_outcome(token: Seq<char>, key: Seq<u8>, now: u64) -> Result<
    ClaimsView,
    TokenError,
> {
    if !is_ascii_chars(token) {
        Err(TokenError::MalformedToken)
    } else {
        match segments(token) {
            None => Err(TokenError::MalformedToken),
            Some((header, payload, signature)) => {
                if header != header_text() {
                    Err(TokenError::MalformedToken)
                } else if signature != hs256_signature(encode_utf8(joined(header, payload)), key) {
                    Err(TokenError::InvalidSignature)
                } else if !is_payload(payload) {
                    Err(TokenError::MalformedToken)
                } else if !payload_claims(payload).live_at(now) {
                    Err(TokenError::ExpiredToken)
                } else {
                    Ok(payload_claims(payload))
                }
            },
        }
    }
}

/// Two claims with the same payload are the same.
pub proof fn lemma_payload_injective(a: ClaimsView, b: ClaimsView)
    requires
        payload_text(a) == payload_text(b),
    ensures
        a == b,
{
    lemma_encode_injective(claims_json(a), claims_json(b));
    lemma_claims_json_injective(a, b);
}

/// The claims of the payload of `c` are `c`.
pub proof fn lemma_payload_claims(c: ClaimsView)
    ensures
        is_payload(payload_text(c)),
        payload_claims(payload_text(c)) == c,
{
    lemma_payload_injective(payload_claims(payload_text(c)), c);
}

/// Where `s` holds no full stop before `k`, and one at `k` or ends there,
/// its first full stop is at `k`.
pub proof fn lemma_first_stop(s: Seq<char>, k: int)
    requires
        0 <= k <= s.len(),
        forall|j: int| 0 <= j < k ==> s[j] != '.',
        k == s.len() || s[k] == '.',
    ensures
        first_stop(s) == k,
    decreases k,
{
    if k > 0 {
        lemma_first_stop(s.skip(1), k - 1);
    }
}

/// The first full stop of `s` is within `s` or at its end, and no full stop
/// stands before it.
pub proof fn lemma_first_stop_is_first(s: Seq<char>)
    ensures
        0 <= first_stop(s) <= s.len(),
        forall|j: int| 0 <= j < first_stop(s) ==> s[j] != '.',
        first_stop(s) < s.len() ==> s[first_stop(s)] == '.',
    decreases s.len(),
{
    if s.len() == 0 || s[0] == '.' {
    } else {
        lemma_first_stop_is_first(s.skip(1));
        assert forall|j: int| 0 <= j < first_stop(s) implies s[j] != '.' by {
            if j > 0 {
                assert(s.skip(1)[j - 1] == s[j]);
            }
        }
    }
}

/// Three pieces joined by full stops are the segments of the whole, where
/// the first two hold no full stop.
pub proof fn lemma_segments_of_joined(h: Seq<char>, p: Seq<char>, s: Seq<char>)
    requires
        forall|j: int| 0 <= j < h.len() ==> h[j] != '.',
        forall|j: int| 0 <= j < p.len() ==> p[j] != '.',
    ensures
        segments(joined(joined(h, p), s)) == Some((h, p, s)),
{
    let token = joined(joined(h, p), s);
    lemma_first_stop(token, h.len() as int);
    let rest = token.skip(h.len() as int + 1);
    assert(rest =~= p + (seq!['.'] + s));
    lemma_first_stop(rest, p.len() as int);
    assert(token.subrange(0, h.len() as int) =~= h);
    assert(rest.subrange(0, p.len() as int) =~= p);
    assert(rest.skip(p.len() as int + 1) =~= s);
}

/// A token that was made for `c` under `key` decodes under `key` to `c` as
/// long as `c` is live, and to `ExpiredToken` from then on. This holds where
/// the signature is ASCII text, as every signature in a token that
/// `create_jwt` makes is.
pub proof fn lemma_round_trip(c: ClaimsView, key: Seq<u8>, now: u64)
    requires
        is_ascii_chars(hs256_signature(encode_utf8(signed_text(c)), key)),
    ensures
        decode_outcome(token_text(c, key), key, now) == if c.live_at(now) {
            Ok::<ClaimsView, TokenError>(c)
        } else {
            Err::<ClaimsView, TokenError>(TokenError::ExpiredToken)
        },
{
    let h = header_text();
    let p = payload_text(c);
    let s = hs256_signature(encode_utf8(signed_text(c)), key);
    let token = token_text(c, key);
    lemma_encode_alphabet(header_json());
    lemma_encode_alphabet(claims_json(c));
    lemma_segments_of_joined(h, p, s);
    lemma_payload_claims(c);
    assert(is_ascii_chars(token)) by {
        assert forall|i: int| 0 <= i < token.len() implies '\0' <= #[trigger] token[i]
            <= '\u{7f}' by {
            if i < h.len() {
                assert(token[i] == h[i]);
            } else if i == h.len() {
                assert(token[i] == '.');
            } else if i < h.len() + 1 + p.len() {
                assert(token[i] == p[i - h.len() - 1]);
            } else if i == h.len() + 1 + p.len() {
                assert(token[i] == '.');
            } else {
                assert(token[i] == s[i - h.len() - p.len() - 2]);
            }
        }
    }
}

/// A token whose signature segment differs in one character from that of a
/// token that decodes is refused with `InvalidSignature`, whatever the
/// character is changed to.
pub proof fn lemma_flipped_signature(token: Seq<char>, i: int, c: char, key: Seq<u8>, now: u64)
    requires
        decode_outcome(token, key, now) is Ok,
        segments(token) matches Some((header, payload, signature)) && header.len()
            + payload.len() + 2 <= i < token.len(),
        c != token[i],
        '\0' <= c <= '\u{7f}',
    ensures
        decode_outcome(token.update(i, c), key, now) == Err::<ClaimsView, TokenError>(
            TokenError::InvalidSignature,
        ),
{
    let changed = token.update(i, c);
    let a = first_stop(token);
    let rest = token.skip(a + 1);
    let b = first_stop(rest);
    lemma_first_stop_is_first(token);
    lemma_first_stop_is_first(rest);
    lemma_first_stop(changed, a);
    let changed_rest = changed.skip(a + 1);
    assert forall|j: int| 0 <= j < b implies changed_rest[j] != '.' by {
        assert(changed_rest[j] == rest[j]);
    }
    assert(changed_rest[b] == rest[b]);
    lemma_first_stop(changed_rest, b);
    assert(changed.subrange(0, a) =~= token.subrange(0, a));
    assert(changed_rest.subrange(0, b) =~= rest.subrange(0, b));
    let k = i - a - b - 2;
    assert(changed_rest.skip(b + 1)[k] == c);
    assert(rest.skip(b + 1)[k] == token[i]);
}

/// Time does nothing to a token but expire it: a token that decodes at one
/// second is refused as expired from the second of its expiry on, and a
/// token that is refused for another reason is refused for it at any time.
pub proof fn lemma_expiry(token: Seq<char>, key: Seq<u8>, now: u64, other: u64)
    ensures
        decode_outcome(token, key, now) matches Ok(c) ==> decode_outcome(token, key, other) == (
        if other < c.exp {
            Ok::<ClaimsView, TokenError>(c)
        } else {
            Err::<ClaimsView, TokenError>(TokenError::ExpiredToken)
        }),
        decode_outcome(token, key, now) matches Err(e) ==> e == TokenError::ExpiredToken
            || decode_outcome(token, key, other) == Err::<ClaimsView, TokenError>(e),
        decode_outcome(token, key, now) matches Ok(c) ==> c.live_at(now),
{
}

/// The place of the first full stop of `text` at or behind `from`, or the
/// length of `text` where none stands there.
fn find_stop(text: &str, from: usize) -> (r: usize)
    requires
        is_ascii_chars(text@),
        from <= text@.len(),
    ensures
        from <= r <= text@.len(),
        r == from + first_stop(text@.skip(from as int)),
        r < text@.len() ==> text@[r as int] == '.',
{
    let codes = ascii_codes(text);
    let n = codes.len();
    let mut i: usize = from;
    while i < n && codes[i] != 46
        invariant
            from <= i <= n,
            n == text@.len(),
            codes@.len() == n,
            forall|j: int| 0 <= j < n ==> codes@[j] as char == text@[j],
            forall|j: int| from <= j < i ==> text@[j] != '.',
        decreases n - i,
    {
        i += 1;
    }
    proof {
        lemma_first_stop(text@.skip(from as int), i - from);
    }
    i
}

/// Makes the token for `claims` under `key`.
///
/// The token decodes under `key` to `claims` for as long as they are live,
/// and to `ExpiredToken` from then on.
pub fn create_jwt(claims: &Claims, key: &[u8]) -> (r: Result<String, TokenError>)
    ensures
        r is Ok,
        r matches Ok(t) ==> t@ == token_text(claims@, key@),
        r matches Ok(t) ==> forall|now: u64|
            #[trigger] decode_outcome(t@, key@, now) == if claims@.live_at(now) {
                Ok::<ClaimsView, TokenError>(claims@)
            } else {
                Err::<ClaimsView, TokenError>(TokenError::ExpiredToken)
            },
{
    let json = write_claims(claims);
    let payload = encode_text(json.as_slice());
    let mut signed = encode_text("{\"typ\":\"JWT\",\"alg\":\"HS256\"}".as_bytes());
    let ghost h = signed@;
    signed.push('.');
    signed.append(payload.as_str());
    assert(signed@ =~= signed_text(claims@));
    match sign_hs256(signed.as_str().as_bytes(), key) {
        Ok(signature) => {
            let mut token = signed;
            token.push('.');
            token.append(signature.as_str());
            proof {
                assert(token@ =~= token_text(claims@, key@));
                assert forall|now: u64|
                    #[trigger] decode_outcome(token@, key@, now) == if claims@.live_at(now) {
                        Ok::<ClaimsView, TokenError>(claims@)
                    } else {
                        Err::<ClaimsView, TokenError>(TokenError::ExpiredToken)
                    } by {
                    lemma_round_trip(claims@, key@, now);
                }
            }
            Ok(token)
        },
        Err(_) => Err(TokenError::SigningFailure),
    }
}

/// The parts of a token, as pieces of its text.
pub struct Parts<'a> {
    pub header: &'a str,
    pub payload: &'a str,
    pub signature: &'a str,
    /// The header, the full stop and the payload: what is signed.
    pub signed: &'a str,
}

/// Splits `token` at its first two full stops. `None` where it is not ASCII
/// text or has fewer than two.
pub fn split_token<'a>(token: &'a str) -> (r: Option<Parts<'a>>)
    ensures
        r matches Some(parts) ==> is_ascii_chars(token@) && segments(token@) == Some(
            (parts.header@, parts.payload@, parts.signature@),
        ) && parts.signed@ == joined(parts.header@, parts.payload@) && is_ascii_chars(
            parts.header@,
        ),
        r is None ==> !is_ascii_chars(token@) || segments(token@) is None,
{
    if !token.is_ascii() {
        return None;
    }
    let n = token.unicode_len();
    let a = find_stop(token, 0);
    assert(token@.skip(0) =~= token@);
    if a >= n {
        return None;
    }
    let b = find_stop(token, a + 1);
    if b >= n {
        return None;
    }
    let header = token.substring_ascii(0, a);
    let payload = token.substring_ascii(a + 1, b);
    let signed = token.substring_ascii(0, b);
    let signature = token.substring_ascii(b + 1, n);
    proof {
        let rest = token@.skip(a + 1);
        assert(payload@ =~= rest.subrange(0, b - a - 1));
        assert(signature@ =~= rest.skip(b - a));
        assert(signed@ =~= joined(header@, payload@));
    }
    Some(Parts { header, payload, signature, signed })
}

/// Reads the claims out of a payload segment: `Some` of the claims whose
/// payload it is, `None` where it is the payload of no claims.
pub fn read_payload(payload: &str) -> (r: Option<Claims>)
    ensures
        r matches Some(c) ==> payload_text(c@) == payload@ && is_payload(payload@)
            && payload_claims(payload@) == c@,
        r is None ==> !is_payload(payload@),
{
    let json = match decode_text(payload) {
        Some(bytes) => bytes,
        None => {
            return None;
        },
    };
    match read_claims(json.as_slice()) {
        Some(c) => {
            proof {
                lemma_payload_claims(c@);
            }
            Some(c)
        },
        None => {
            proof {
                assert forall|c: ClaimsView| #[trigger] payload_text(c) != payload@ by {
                    if payload_text(c) == payload@ {
                        lemma_encode_injective(claims_json(c), json@);
                    }
                }
            }
            None
        },
    }
}

/// Whether `header` is the header of every token.
fn is_header(header: &str) -> (r: bool)
    requires
        is_ascii_chars(header@),
    ensures
        r == (header@ == header_text()),
{
    let expected = encode_text("{\"typ\":\"JWT\",\"alg\":\"HS256\"}".as_bytes());
    proof {
        lemma_encode_alphabet(header_json());
    }
    same_ascii(header, expected.as_str())
}

/// Decodes `token` under `key` at the second `now`: the claims of a token
/// that is well formed, signed under `key` and live at `now`, or else the
/// reason why it is refused.
pub fn decode_jwt_at(token: &str, key: &[u8], now: u64) -> (r: Result<Claims, TokenError>)
    ensures
        r matches Ok(c) ==> decode_outcome(token@, key@, now) == Ok::<ClaimsView, TokenError>(c@)
            && c@.live_at(now),
        r matches Err(e) ==> decode_outcome(token@, key@, now) == Err::<ClaimsView, TokenError>(e),
{
    let parts = match split_token(token) {
        Some(parts) => parts,
        None => {
            return Err(TokenError::MalformedToken);
        },
    };
    if !is_header(parts.header) {
        return Err(TokenError::MalformedToken);
    }
    match verify_hs256(parts.signature, parts.signed.as_bytes(), key) {
        Ok(true) => {},
        _ => {
            return Err(TokenError::InvalidSignature);
        },
    }
    let claims = match read_payload(parts.payload) {
        Some(c) => c,
        None => {
            return Err(TokenError::MalformedToken);
        },
    };
    if claims.iat < claims.exp && now < claims.exp as u64 {
        Ok(claims)
    } else {
        Err(TokenError::ExpiredToken)
    }
}

/// Decodes `token` under `key` at the second that the system clock gives.
pub fn decode_jwt(token: &str, key: &[u8]) -> (r: Result<Claims, TokenError>)
    ensures
        r matches Ok(c) ==> exists|now: u64| #[trigger]
            decode_outcome(token@, key@, now) == Ok::<ClaimsView, TokenError>(c@),
        r matches Err(e) ==> e == TokenError::ClockUnavailable || exists|now: u64| #[trigger]
            decode_outcome(token@, key@, now) == Err::<ClaimsView, TokenError>(e),
{
    match unix_now() {
        Some(now) => decode_jwt_at(token, key, now),
        None => Err(TokenError::ClockUnavailable),
    }
}

} // verus!
