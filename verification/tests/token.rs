use jsonwebtoken::{Algorithm, DecodingKey, EncodingKey, Header, Validation};
use serde::ser::SerializeStruct;
use session_auth::claims::{Claims, DEFAULT_LIFETIME};
use session_auth::token::{
    create_jwt, decode_jwt, decode_jwt_at, read_payload, split_token, TokenError,
};

const KEY: &[u8] = b"a key that is kept out of the source in production";
const NOW: u64 = 1_700_000_000;

struct Wire {
    sub: String,
    email: String,
    name: String,
    is_admin: bool,
    exp: usize,
    iat: usize,
}

impl serde::Serialize for Wire {
    fn serialize<S: serde::Serializer>(&self, serializer: S) -> Result<S::Ok, S::Error> {
        let mut s = serializer.serialize_struct("Claims", 6)?;
        s.serialize_field("sub", &self.sub)?;
        s.serialize_field("email", &self.email)?;
        s.serialize_field("name", &self.name)?;
        s.serialize_field("is_admin", &self.is_admin)?;
        s.serialize_field("exp", &self.exp)?;
        s.serialize_field("iat", &self.iat)?;
        s.end()
    }
}

fn wire(c: &Claims) -> Wire {
    Wire {
        sub: c.sub.clone(),
        email: c.email.clone(),
        name: c.name.clone(),
        is_admin: c.is_admin,
        exp: c.exp,
        iat: c.iat,
    }
}

fn alice() -> Claims {
    Claims::issued_at(42, "alice@example.com".to_string(), "Alice".to_string(), false, NOW as usize, DEFAULT_LIFETIME)
}

fn same(a: &Claims, b: &Claims) -> bool {
    a.sub == b.sub
        && a.email == b.email
        && a.name == b.name
        && a.is_admin == b.is_admin
        && a.exp == b.exp
        && a.iat == b.iat
}

#[test]
fn a_token_has_three_segments_and_the_usual_header() {
    let token = create_jwt(&alice(), KEY).unwrap();
    let parts: Vec<&str> = token.split('.').collect();
    assert_eq!(parts.len(), 3);
    assert_eq!(parts[0], "eyJ0eXAiOiJKV1QiLCJhbGciOiJIUzI1NiJ9");
    assert_eq!(parts[2].len(), 43);
    let split = split_token(&token).unwrap();
    assert_eq!(split.header, parts[0]);
    assert_eq!(split.payload, parts[1]);
    assert_eq!(split.signature, parts[2]);
    assert_eq!(split.signed, format!("{}.{}", parts[0], parts[1]));
    assert!(same(&read_payload(parts[1]).unwrap(), &alice()));
}

#[test]
fn a_token_is_the_one_that_jsonwebtoken_makes() {
    let all = [
        alice(),
        Claims::issued_at(-7, "q\"uote@example.com".to_string(), "Zo\u{eb} \\ \n\u{1}".to_string(), true, 5, 900),
        Claims { sub: String::new(), email: String::new(), name: String::new(), is_admin: true, exp: 0, iat: 0 },
    ];
    for c in all.iter() {
        let ours = create_jwt(c, KEY).unwrap();
        let theirs = jsonwebtoken::encode(
            &Header::new(Algorithm::HS256),
            &wire(c),
            &EncodingKey::from_secret(KEY),
        )
        .unwrap();
        assert_eq!(ours, theirs);
    }
}

#[test]
fn jsonwebtoken_accepts_a_token() {
    let c = Claims::issued_at(42, "alice@example.com".to_string(), "Alice".to_string(), true, 1, usize::MAX - 1);
    let token = create_jwt(&c, KEY).unwrap();
    let data = jsonwebtoken::decode::<serde_json::Value>(
        &token,
        &DecodingKey::from_secret(KEY),
        &Validation::new(Algorithm::HS256),
    )
    .unwrap();
    assert_eq!(data.claims["sub"].as_str(), Some("42"));
    assert_eq!(data.claims["email"].as_str(), Some("alice@example.com"));
    assert_eq!(data.claims["name"].as_str(), Some("Alice"));
    assert_eq!(data.claims["is_admin"].as_bool(), Some(true));
    assert_eq!(data.claims["iat"].as_u64(), Some(1));
    assert!(jsonwebtoken::decode::<serde_json::Value>(
        &token,
        &DecodingKey::from_secret(b"another key"),
        &Validation::new(Algorithm::HS256),
    )
    .is_err());
}

#[test]
fn decoding_gives_back_the_claims() {
    let all = [
        alice(),
        Claims::issued_at(i32::MIN, "".to_string(), "\u{1f600}\"\\".to_string(), true, 0, 1),
        Claims::issued_at(0, "a b".to_string(), "\t".to_string(), false, NOW as usize - 10, 11),
    ];
    for c in all.iter() {
        let token = create_jwt(c, KEY).unwrap();
        let back = decode_jwt_at(&token, KEY, c.iat as u64).unwrap();
        assert!(same(&back, c));
        let back = decode_jwt_at(&token, KEY, c.exp as u64 - 1).unwrap();
        assert!(same(&back, c));
    }
}

#[test]
fn a_token_made_now_decodes_now() {
    let c = Claims::new(42, "alice@example.com".to_string(), "Alice".to_string(), false).unwrap();
    assert_eq!(c.exp, c.iat + 86400);
    let token = create_jwt(&c, KEY).unwrap();
    let back = decode_jwt(&token, KEY).unwrap();
    assert!(same(&back, &c));
    assert_eq!(back.sub, "42");
}

#[test]
fn an_expired_token_is_refused_as_expired() {
    let c = alice();
    let token = create_jwt(&c, KEY).unwrap();
    assert!(decode_jwt_at(&token, KEY, c.exp as u64 - 1).is_ok());
    assert_eq!(decode_jwt_at(&token, KEY, c.exp as u64).err(), Some(TokenError::ExpiredToken));
    assert_eq!(decode_jwt_at(&token, KEY, c.exp as u64 + 1).err(), Some(TokenError::ExpiredToken));
    assert_eq!(decode_jwt_at(&token, KEY, u64::MAX).err(), Some(TokenError::ExpiredToken));
    let long_ago = Claims {
        sub: "42".to_string(),
        email: "alice@example.com".to_string(),
        name: "Alice".to_string(),
        is_admin: false,
        iat: 1000,
        exp: 1000,
    };
    let token = create_jwt(&long_ago, KEY).unwrap();
    assert_eq!(decode_jwt_at(&token, KEY, 1000).err(), Some(TokenError::ExpiredToken));
    assert_eq!(decode_jwt_at(&token, KEY, 999).err(), Some(TokenError::ExpiredToken));
    assert_eq!(decode_jwt(&token, KEY).err(), Some(TokenError::ExpiredToken));
}

#[test]
fn a_token_that_expires_before_it_is_issued_never_decodes() {
    let c = Claims {
        sub: "42".to_string(),
        email: "alice@example.com".to_string(),
        name: "Alice".to_string(),
        is_admin: false,
        iat: NOW as usize,
        exp: NOW as usize - 1,
    };
    let token = create_jwt(&c, KEY).unwrap();
    for now in [0, 1, NOW - 2, NOW - 1, NOW, NOW + 1, u64::MAX] {
        assert_eq!(decode_jwt_at(&token, KEY, now).err(), Some(TokenError::ExpiredToken));
    }
    let mut forged = token.clone();
    forged.pop();
    forged.push('A');
    if forged != token {
        for now in [0, NOW - 2, NOW, u64::MAX] {
            assert!(decode_jwt_at(&forged, KEY, now).is_err());
        }
    }
}

#[test]
fn a_changed_signature_is_refused_as_invalid() {
    let token = create_jwt(&alice(), KEY).unwrap();
    let start = token.rfind('.').unwrap() + 1;
    for i in start..token.len() {
        for replacement in [b'A', b'b', b'0', b'-', b'_', b'=', b' ', b'.', b'~'] {
            let mut bytes = token.clone().into_bytes();
            if bytes[i] == replacement {
                continue;
            }
            bytes[i] = replacement;
            let changed = String::from_utf8(bytes).unwrap();
            assert_eq!(
                decode_jwt_at(&changed, KEY, NOW).err(),
                Some(TokenError::InvalidSignature),
                "{}",
                changed
            );
        }
    }
    assert_eq!(decode_jwt_at(&token[..token.len() - 1], KEY, NOW).err(), Some(TokenError::InvalidSignature));
    assert_eq!(decode_jwt_at(&token[..start], KEY, NOW).err(), Some(TokenError::InvalidSignature));
    assert_eq!(decode_jwt_at(&format!("{}A", token), KEY, NOW).err(), Some(TokenError::InvalidSignature));
    assert_eq!(decode_jwt_at(&format!("{}.", token), KEY, NOW).err(), Some(TokenError::InvalidSignature));
}

#[test]
fn another_key_or_another_payload_is_refused_as_invalid() {
    let token = create_jwt(&alice(), KEY).unwrap();
    assert_eq!(decode_jwt_at(&token, b"another key", NOW).err(), Some(TokenError::InvalidSignature));
    assert_eq!(decode_jwt_at(&token, b"", NOW).err(), Some(TokenError::InvalidSignature));
    let admin = Claims::issued_at(42, "alice@example.com".to_string(), "Alice".to_string(), true, NOW as usize, DEFAULT_LIFETIME);
    let other = create_jwt(&admin, KEY).unwrap();
    let ours: Vec<&str> = token.split('.').collect();
    let theirs: Vec<&str> = other.split('.').collect();
    let spliced = format!("{}.{}.{}", ours[0], theirs[1], ours[2]);
    assert_eq!(decode_jwt_at(&spliced, KEY, NOW).err(), Some(TokenError::InvalidSignature));
    let unsigned = format!("{}.{}.", ours[0], theirs[1]);
    assert_eq!(decode_jwt_at(&unsigned, KEY, NOW).err(), Some(TokenError::InvalidSignature));
}

#[test]
fn what_is_no_token_is_refused_as_malformed() {
    let token = create_jwt(&alice(), KEY).unwrap();
    let parts: Vec<&str> = token.split('.').collect();
    for text in [
        "".to_string(),
        "abc".to_string(),
        ".".to_string(),
        "a.b".to_string(),
        format!("{}.{}", parts[0], parts[1]),
        format!("{}{}.{}", parts[0], parts[1], parts[2]),
        format!(".{}.{}", parts[1], parts[2]),
        format!("x{}", token),
        format!(" {}", token),
        format!("{}\u{e9}", token),
        format!("\u{e9}{}", token),
    ] {
        assert_eq!(decode_jwt_at(&text, KEY, NOW).err(), Some(TokenError::MalformedToken), "{}", text);
    }
    assert!(split_token("a.b").is_none());
    assert!(split_token("a.b.c").is_some());
    assert!(split_token("a.b.\u{e9}").is_none());
    assert!(read_payload("e30").is_none());
}

#[test]
fn a_signed_payload_that_holds_no_claims_is_refused_as_malformed() {
    let header = "eyJ0eXAiOiJKV1QiLCJhbGciOiJIUzI1NiJ9";
    for payload in ["e30", "", "!!!", "eyJzdWIiOjF9"] {
        let signed = format!("{}.{}", header, payload);
        let signature = jsonwebtoken::crypto::sign(
            signed.as_bytes(),
            &EncodingKey::from_secret(KEY),
            Algorithm::HS256,
        )
        .unwrap();
        let token = format!("{}.{}", signed, signature);
        assert_eq!(decode_jwt_at(&token, KEY, NOW).err(), Some(TokenError::MalformedToken));
    }
}

#[test]
fn another_header_is_refused_as_malformed() {
    let mut header = Header::new(Algorithm::HS256);
    header.kid = Some("k1".to_string());
    let token = jsonwebtoken::encode(&header, &wire(&alice()), &EncodingKey::from_secret(KEY)).unwrap();
    assert_eq!(decode_jwt_at(&token, KEY, NOW).err(), Some(TokenError::MalformedToken));
    let token = jsonwebtoken::encode(
        &Header::new(Algorithm::HS384),
        &wire(&alice()),
        &EncodingKey::from_secret(KEY),
    )
    .unwrap();
    assert_eq!(decode_jwt_at(&token, KEY, NOW).err(), Some(TokenError::MalformedToken));
}

#[test]
fn a_token_of_jsonwebtoken_is_decoded() {
    let c = alice();
    let token = jsonwebtoken::encode(
        &Header::new(Algorithm::HS256),
        &wire(&c),
        &EncodingKey::from_secret(KEY),
    )
    .unwrap();
    let back = decode_jwt_at(&token, KEY, NOW + 5).unwrap();
    assert!(same(&back, &c));
}
