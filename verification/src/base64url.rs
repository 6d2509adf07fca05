//! Base64 with the URL-safe alphabet and without padding, as the three
//! segments of a token are written.

use vstd::prelude::*;
use vstd::utf8::*;
use crate::text::{ascii_codes, same_ascii};

verus! {

/// The character that stands for the six-bit value `v`.
pub open spec fn symbol(v: u8) -> char
    recommends
        v < 64,
{
    if v < 26 {
        ((65 + v) as u8) as char
    } else if v < 52 {
        ((71 + v) as u8) as char
    } else if v < 62 {
        ((v - 4) as u8) as char
    } else if v == 62 {
        '-'
    } else {
        '_'
    }
}

/// The six-bit value that `c` stands for, if `c` is in the alphabet.
pub open spec fn sextet(c: char) -> Option<u8> {
    if 'A' <= c && c <= 'Z' {
        Some((c as u8 - 65) as u8)
    } else if 'a' <= c && c <= 'z' {
        Some((c as u8 - 71) as u8)
    } else if '0' <= c && c <= '9' {
        Some((c as u8 + 4) as u8)
    } else if c == '-' {
        Some(62u8)
    } else if c == '_' {
        Some(63u8)
    } else {
        None
    }
}

/// The text that encodes `data`: four characters for each three bytes, and
/// two or three characters for a last group of one or two bytes.
pub open spec fn encode(data: Seq<u8>) -> Seq<char>
    decreases data.len(),
{
    if data.len() == 0 {
        Seq::empty()
    } else if data.len() == 1 {
        seq![symbol(data[0] >> 2), symbol((data[0] & 3) << 4)]
    } else if data.len() == 2 {
        seq![
            symbol(data[0] >> 2),
            symbol(((data[0] & 3) << 4) | (data[1] >> 4)),
            symbol((data[1] & 15) << 2),
        ]
    } else {
        seq![
            symbol(data[0] >> 2),
            symbol(((data[0] & 3) << 4) | (data[1] >> 4)),
            symbol(((data[1] & 15) << 2) | (data[2] >> 6)),
            symbol(data[2] & 63),
        ] + encode(data.skip(3))
    }
}

/// Whether `text` is the encoding of some bytes.
pub open spec fn is_encoding(text: Seq<char>) -> bool {
    exists|data: Seq<u8>| #[trigger] encode(data) == text
}

proof fn lemma_sextet_of_symbol(v: u8)
    requires
        v < 64,
    ensures
        sextet(symbol(v)) == Some(v),
        symbol(v) != '.',
        symbol(v) != '"',
        '\0' <= symbol(v) <= '\u{7f}',
{
}

fn symbol_of(v: u8) -> (c: char)
    requires
        v < 64,
    ensures
        c == symbol(v),
{
    if v < 26 {
        (65 + v) as char
    } else if v < 52 {
        (71 + v) as char
    } else if v < 62 {
        (v - 4) as char
    } else if v == 62 {
        '-'
    } else {
        '_'
    }
}

fn sextet_of(code: u8) -> (r: Option<u8>)
    ensures
        r == sextet(code as char),
        r matches Some(v) ==> v < 64,
{
    if 65 <= code && code <= 90 {
        Some(code - 65)
    } else if 97 <= code && code <= 122 {
        Some(code - 71)
    } else if 48 <= code && code <= 57 {
        Some(code + 4)
    } else if code == 45 {
        Some(62)
    } else if code == 95 {
        Some(63)
    } else {
        None
    }
}

/// What the characters of `text` stand for, read group by group, whether or
/// not the last group is written in the one way that `encode` writes it.
pub open spec fn raw_decode(text: Seq<char>) -> Option<Seq<u8>>
    decreases text.len(),
{
    if text.len() == 0 {
        Some(Seq::empty())
    } else if text.len() == 1 {
        None
    } else if text.len() == 2 {
        match (sextet(text[0]), sextet(text[1])) {
            (Some(a), Some(b)) => Some(seq![(a << 2) | (b >> 4)]),
            _ => None,
        }
    } else if text.len() == 3 {
        match (sextet(text[0]), sextet(text[1]), sextet(text[2])) {
            (Some(a), Some(b), Some(c)) => Some(
                seq![(a << 2) | (b >> 4), ((b & 15) << 4) | (c >> 2)],
            ),
            _ => None,
        }
    } else {
        match (sextet(text[0]), sextet(text[1]), sextet(text[2]), sextet(text[3])) {
            (Some(a), Some(b), Some(c), Some(d)) => match raw_decode(text.skip(4)) {
                Some(rest) => Some(
                    seq![(a << 2) | (b >> 4), ((b & 15) << 4) | (c >> 2), ((c & 3) << 6) | d] + rest,
                ),
                None => None,
            },
            _ => None,
        }
    }
}

proof fn lemma_group(x: u8, y: u8, z: u8)
    by (bit_vector)
    ensures
        x >> 2 < 64,
        (x & 3) << 4 < 64,
        ((x & 3) << 4) | (y >> 4) < 64,
        (y & 15) << 2 < 64,
        ((y & 15) << 2) | (z >> 6) < 64,
        z & 63 < 64,
        ((x >> 2) << 2) | (((x & 3) << 4) >> 4) == x,
        ((x >> 2) << 2) | ((((x & 3) << 4) | (y >> 4)) >> 4) == x,
        (((((x & 3) << 4) | (y >> 4)) & 15) << 4) | (((y & 15) << 2) >> 2) == y,
        (((((x & 3) << 4) | (y >> 4)) & 15) << 4) | ((((y & 15) << 2) | (z >> 6)) >> 2) == y,
        (((((y & 15) << 2) | (z >> 6)) & 3) << 6) | (z & 63) == z,
{
}

/// Every character of an encoding is an ASCII character of the alphabet; a
/// full stop or a quotation mark is none.
pub proof fn lemma_encode_alphabet(data: Seq<u8>)
    ensures
        is_ascii_chars(encode(data)),
        forall|i: int| 0 <= i < encode(data).len() ==> sextet(#[trigger] encode(data)[i]) is Some,
        forall|i: int| 0 <= i < encode(data).len() ==> #[trigger] encode(data)[i] != '.',
    decreases data.len(),
{
    if data.len() == 0 {
    } else if data.len() == 1 {
        lemma_group(data[0], 0, 0);
        lemma_sextet_of_symbol(data[0] >> 2);
        lemma_sextet_of_symbol((data[0] & 3) << 4);
    } else if data.len() == 2 {
        lemma_group(data[0], data[1], 0);
        lemma_sextet_of_symbol(data[0] >> 2);
        lemma_sextet_of_symbol(((data[0] & 3) << 4) | (data[1] >> 4));
        lemma_sextet_of_symbol((data[1] & 15) << 2);
    } else {
        lemma_group(data[0], data[1], data[2]);
        lemma_sextet_of_symbol(data[0] >> 2);
        lemma_sextet_of_symbol(((data[0] & 3) << 4) | (data[1] >> 4));
        lemma_sextet_of_symbol(((data[1] & 15) << 2) | (data[2] >> 6));
        lemma_sextet_of_symbol(data[2] & 63);
        lemma_encode_alphabet(data.skip(3));
    }
}

/// Reading an encoding gives back the bytes that were encoded.
pub proof fn lemma_raw_decode_encode(data: Seq<u8>)
    ensures
        raw_decode(encode(data)) == Some(data),
    decreases data.len(),
{
    let text = encode(data);
    if data.len() == 0 {
        assert(data =~= Seq::empty());
    } else if data.len() == 1 {
        lemma_group(data[0], 0, 0);
        lemma_sextet_of_symbol(data[0] >> 2);
        lemma_sextet_of_symbol((data[0] & 3) << 4);
        assert(data =~= seq![data[0]]);
    } else if data.len() == 2 {
        lemma_group(data[0], data[1], 0);
        lemma_sextet_of_symbol(data[0] >> 2);
        lemma_sextet_of_symbol(((data[0] & 3) << 4) | (data[1] >> 4));
        lemma_sextet_of_symbol((data[1] & 15) << 2);
        assert(data =~= seq![data[0], data[1]]);
    } else {
        lemma_group(data[0], data[1], data[2]);
        lemma_sextet_of_symbol(data[0] >> 2);
        lemma_sextet_of_symbol(((data[0] & 3) << 4) | (data[1] >> 4));
        lemma_sextet_of_symbol(((data[1] & 15) << 2) | (data[2] >> 6));
        lemma_sextet_of_symbol(data[2] & 63);
        lemma_raw_decode_encode(data.skip(3));
        assert(text.skip(4) =~= encode(data.skip(3)));
        assert(data =~= seq![data[0], data[1], data[2]] + data.skip(3));
    }
}

/// Two byte strings with the same encoding are the same.
pub proof fn lemma_encode_injective(a: Seq<u8>, b: Seq<u8>)
    requires
        encode(a) == encode(b),
    ensures
        a == b,
{
    lemma_raw_decode_encode(a);
    lemma_raw_decode_encode(b);
}

/// Encodes `data`.
pub fn encode_text(data: &[u8]) -> (text: String)
    ensures
        text@ == encode(data@),
{
    let mut out = String::new();
    let n = data.len();
    let mut i: usize = 0;
    proof {
        assert(data@.skip(0) =~= data@);
        assert(out@ + encode(data@) =~= encode(data@));
    }
    while n - i >= 3
        invariant
            i <= n,
            n == data@.len(),
            out@ + encode(data@.skip(i as int)) == encode(data@),
        decreases n - i,
    {
        let x = data[i];
        let y = data[i + 1];
        let z = data[i + 2];
        proof {
            lemma_group(x, y, z);
            assert(data@.skip(i as int).skip(3) =~= data@.skip(i + 3));
        }
        let ghost before = out@;
        out.push(symbol_of(x >> 2));
        out.push(symbol_of(((x & 3) << 4) | (y >> 4)));
        out.push(symbol_of(((y & 15) << 2) | (z >> 6)));
        out.push(symbol_of(z & 63));
        proof {
            let four = seq![
                symbol(x >> 2),
                symbol(((x & 3) << 4) | (y >> 4)),
                symbol(((y & 15) << 2) | (z >> 6)),
                symbol(z & 63),
            ];
            assert(out@ =~= before + four);
            assert(encode(data@.skip(i as int)) == four + encode(data@.skip(i + 3)));
            assert(out@ + encode(data@.skip(i + 3)) =~= before + encode(data@.skip(i as int)));
        }
        i += 3;
    }
    let ghost before = out@;
    if n - i == 1 {
        let x = data[i];
        proof {
            lemma_group(x, 0, 0);
        }
        out.push(symbol_of(x >> 2));
        out.push(symbol_of((x & 3) << 4));
        proof {
            assert(out@ =~= before + encode(data@.skip(i as int)));
        }
    } else if n - i == 2 {
        let x = data[i];
        let y = data[i + 1];
        proof {
            lemma_group(x, y, 0);
        }
        out.push(symbol_of(x >> 2));
        out.push(symbol_of(((x & 3) << 4) | (y >> 4)));
        out.push(symbol_of((y & 15) << 2));
        proof {
            assert(out@ =~= before + encode(data@.skip(i as int)));
        }
    } else {
        proof {
            assert(out@ =~= before + encode(data@.skip(i as int)));
        }
    }
    out
}

/// Reads `text` group by group.
fn raw_decode_text(text: &str) -> (r: Option<Vec<u8>>)
    requires
        is_ascii_chars(text@),
    ensures
        r matches Some(data) ==> raw_decode(text@) == Some(data@),
        r is None ==> raw_decode(text@) is None,
{
    let codes = ascii_codes(text);
    let n = codes.len();
    let mut out: Vec<u8> = Vec::new();
    let mut i: usize = 0;
    proof {
        assert(text@.skip(0) =~= text@);
        match raw_decode(text@) {
            Some(rest) => {
                assert(out@ + rest =~= rest);
            },
            None => {},
        }
    }
    while n - i >= 4
        invariant
            i <= n,
            n == text@.len(),
            codes@.len() == n,
            forall|j: int| 0 <= j < n ==> codes@[j] as char == text@[j],
            raw_decode(text@) == match raw_decode(text@.skip(i as int)) {
                Some(rest) => Some(out@ + rest),
                None => None,
            },
        decreases n - i,
    {
        let ghost here = text@.skip(i as int);
        proof {
            assert(here.skip(4) =~= text@.skip(i + 4));
            assert(here[0] == text@[i as int]);
            assert(here[1] == text@[i + 1]);
            assert(here[2] == text@[i + 2]);
            assert(here[3] == text@[i + 3]);
        }
        let a = match sextet_of(codes[i]) {
            Some(v) => v,
            None => { return None; },
        };
        let b = match sextet_of(codes[i + 1]) {
            Some(v) => v,
            None => { return None; },
        };
        let c = match sextet_of(codes[i + 2]) {
            Some(v) => v,
            None => { return None; },
        };
        let d = match sextet_of(codes[i + 3]) {
            Some(v) => v,
            None => { return None; },
        };
        let ghost before = out@;
        out.push((a << 2) | (b >> 4));
        out.push(((b & 15) << 4) | (c >> 2));
        out.push(((c & 3) << 6) | d);
        proof {
            let three = seq![(a << 2) | (b >> 4), ((b & 15) << 4) | (c >> 2), ((c & 3) << 6) | d];
            assert(out@ =~= before + three);
            match raw_decode(text@.skip(i + 4)) {
                Some(rest) => {
                    assert(out@ + rest =~= before + (three + rest));
                },
                None => {},
            }
        }
        i += 4;
    }
    let ghost here = text@.skip(i as int);
    let ghost before = out@;
    if n - i == 0 {
        proof {
            assert(out@ + Seq::<u8>::empty() =~= out@);
        }
        Some(out)
    } else if n - i == 1 {
        None
    } else if n - i == 2 {
        proof {
            assert(here[0] == text@[i as int]);
            assert(here[1] == text@[i + 1]);
        }
        let a = match sextet_of(codes[i]) {
            Some(v) => v,
            None => { return None; },
        };
        let b = match sextet_of(codes[i + 1]) {
            Some(v) => v,
            None => { return None; },
        };
        out.push((a << 2) | (b >> 4));
        proof {
            assert(out@ =~= before + seq![(a << 2) | (b >> 4)]);
        }
        Some(out)
    } else {
        proof {
            assert(here[0] == text@[i as int]);
            assert(here[1] == text@[i + 1]);
            assert(here[2] == text@[i + 2]);
        }
        let a = match sextet_of(codes[i]) {
            Some(v) => v,
            None => { return None; },
        };
        let b = match sextet_of(codes[i + 1]) {
            Some(v) => v,
            None => { return None; },
        };
        let c = match sextet_of(codes[i + 2]) {
            Some(v) => v,
            None => { return None; },
        };
        out.push((a << 2) | (b >> 4));
        out.push(((b & 15) << 4) | (c >> 2));
        proof {
            assert(out@ =~= before + seq![(a << 2) | (b >> 4), ((b & 15) << 4) | (c >> 2)]);
        }
        Some(out)
    }
}

/// Decodes `text`: the bytes whose encoding it is, or `None` where it is the
/// encoding of no bytes (a character outside the alphabet, a length that no
/// encoding has, or spare bits that are not zero).
pub fn decode_text(text: &str) -> (r: Option<Vec<u8>>)
    ensures
        r matches Some(data) ==> encode(data@) == text@,
        r is None ==> !is_encoding(text@),
{
    if !text.is_ascii() {
        proof {
            assert forall|data: Seq<u8>| #[trigger] encode(data) != text@ by {
                lemma_encode_alphabet(data);
            }
        }
        return None;
    }
    match raw_decode_text(text) {
        None => {
            proof {
                assert forall|data: Seq<u8>| #[trigger] encode(data) != text@ by {
                    lemma_raw_decode_encode(data);
                }
            }
            None
        },
        Some(data) => {
            let again = encode_text(data.as_slice());
            proof {
                lemma_encode_alphabet(data@);
            }
            if same_ascii(again.as_str(), text) {
                Some(data)
            } else {
                proof {
                    assert forall|other: Seq<u8>| #[trigger] encode(other) != text@ by {
                        lemma_raw_decode_encode(other);
                    }
                }
                None
            }
        },
    }
}

} // verus!
