use session_auth::claims::Claims;
use session_auth::login::{
    attempt_login, decide_login, form_response, json_response, login_form, login_json, logout,
    password_matches, session_cookie, LoginError, LoginForm, LoginJson, LoginResponse, Lookup,
    Refusal, SameSite, UserRecord,
};
use session_auth::token::{decode_jwt, decode_jwt_at};

const KEY: &[u8] = b"a key that is kept out of the source in production";

fn alice(is_admin: Option<bool>) -> UserRecord {
    UserRecord {
        id: 17,
        email: "alice@example.com".to_string(),
        name: "Alice".to_string(),
        password_hash: bcrypt::hash("correct horse", 4).unwrap(),
        is_admin,
    }
}

fn json(password: &str) -> LoginJson {
    LoginJson { email: "alice@example.com".to_string(), password: password.to_string() }
}

fn form(password: &str) -> LoginForm {
    LoginForm { email: "alice@example.com".to_string(), password: password.to_string() }
}

#[test]
fn a_password_is_checked_against_its_hash() {
    let hash = bcrypt::hash("correct horse", 4).unwrap();
    assert!(password_matches("correct horse", &hash));
    assert!(!password_matches("correct horsf", &hash));
    assert!(!password_matches("", &hash));
    assert!(!password_matches(&hash, &hash));
    assert!(password_matches("password", "$2a$04$5DCebwootqWMCp59ISrMJ.l4WvgHIVg17ZawDIrDM2IjlE64GDNQS") == bcrypt::verify("password", "$2a$04$5DCebwootqWMCp59ISrMJ.l4WvgHIVg17ZawDIrDM2IjlE64GDNQS").unwrap_or(false));
}

#[test]
fn a_hash_that_cannot_be_read_matches_no_password() {
    assert!(!password_matches("correct horse", ""));
    assert!(!password_matches("correct horse", "correct horse"));
    assert!(!password_matches("correct horse", "$2b$04$tooshort"));
    assert!(!password_matches("", ""));
}

#[test]
fn json_login_with_the_right_password_succeeds() {
    let r = login_json(&json("correct horse"), Lookup::Found(alice(Some(false))), KEY);
    assert!(r.success);
    assert_eq!(r.message, "Login exitoso");
    let user = r.user.unwrap();
    assert_eq!(user.id, "17");
    assert_eq!(user.name, "Alice");
    assert_eq!(user.email, "alice@example.com");
    assert!(!user.is_admin);
    let claims = decode_jwt(&r.token.unwrap(), KEY).unwrap();
    assert_eq!(claims.sub, "17");
    assert_eq!(claims.email, "alice@example.com");
    assert_eq!(claims.name, "Alice");
    assert!(!claims.is_admin);
    assert_eq!(claims.exp, claims.iat + 86400);
}

#[test]
fn json_login_with_a_wrong_password_fails() {
    let r = login_json(&json("wrong"), Lookup::Found(alice(Some(false))), KEY);
    assert!(!r.success);
    assert_eq!(r.message, "Contrase\u{f1}a incorrecta");
    assert!(r.token.is_none());
    assert!(r.user.is_none());
}

#[test]
fn json_login_of_an_unknown_user_fails() {
    let r = login_json(&json("correct horse"), Lookup::Missing, KEY);
    assert!(!r.success);
    assert_eq!(r.message, "Usuario no encontrado");
    assert!(r.token.is_none());
    assert!(r.user.is_none());
}

#[test]
fn json_login_says_when_the_store_failed() {
    let r = login_json(&json("correct horse"), Lookup::Failed, KEY);
    assert!(!r.success);
    assert_eq!(r.message, "Error del servidor");
    assert!(r.token.is_none());
    assert!(r.user.is_none());
}

#[test]
fn the_role_comes_from_the_record() {
    let r = login_json(&json("correct horse"), Lookup::Found(alice(Some(true))), KEY);
    assert!(r.user.unwrap().is_admin);
    assert!(decode_jwt(&r.token.unwrap(), KEY).unwrap().is_admin);
    let r = login_json(&json("correct horse"), Lookup::Found(alice(None)), KEY);
    assert!(!r.user.unwrap().is_admin);
    assert!(!decode_jwt(&r.token.unwrap(), KEY).unwrap().is_admin);
}

#[test]
fn form_login_sets_the_cookie_and_redirects() {
    let accepted = login_form(&form("correct horse"), Lookup::Found(alice(Some(false))), KEY, false).unwrap();
    assert_eq!(accepted.redirect, "/balance");
    assert_eq!(accepted.cookie.name, "jwt_token");
    assert!(accepted.cookie.http_only);
    assert_eq!(accepted.cookie.same_site, SameSite::Lax);
    assert_eq!(accepted.cookie.path, "/");
    assert_eq!(accepted.cookie.max_age, 86400);
    assert_eq!(accepted.cookie.max_age, 24 * 60 * 60);
    assert!(!accepted.cookie.secure);
    assert_eq!(decode_jwt(&accepted.cookie.value, KEY).unwrap().sub, "17");
    let secure = login_form(&form("correct horse"), Lookup::Found(alice(Some(false))), KEY, true).unwrap();
    assert!(secure.cookie.secure);
}

#[test]
fn form_login_does_not_say_what_was_wrong() {
    let wrong = login_form(&form("wrong"), Lookup::Found(alice(Some(false))), KEY, false).err().unwrap();
    let unknown = login_form(&form("correct horse"), Lookup::Missing, KEY, false).err().unwrap();
    assert_eq!(wrong, Refusal::Unauthorized);
    assert_eq!(unknown, Refusal::Unauthorized);
    assert_eq!(wrong.status(), 401);
    let failed = login_form(&form("correct horse"), Lookup::Failed, KEY, false).err().unwrap();
    assert_eq!(failed, Refusal::InternalServerError);
    assert_eq!(failed.status(), 500);
}

#[test]
fn a_login_is_decided_from_what_came_back() {
    let session = decide_login(Lookup::Found(alice(Some(true))), true, Some(1000), KEY).unwrap();
    assert_eq!(session.claims.sub, "17");
    assert_eq!(session.claims.iat, 1000);
    assert_eq!(session.claims.exp, 87400);
    assert!(session.claims.is_admin);
    let back = decode_jwt_at(&session.token, KEY, 1000).unwrap();
    assert_eq!(back.sub, "17");
    assert_eq!(back.exp, 87400);
    assert_eq!(decide_login(Lookup::Found(alice(None)), false, Some(1000), KEY).err(), Some(LoginError::IncorrectPassword));
    assert_eq!(decide_login(Lookup::Missing, true, Some(1000), KEY).err(), Some(LoginError::UserNotFound));
    assert_eq!(decide_login(Lookup::Failed, true, Some(1000), KEY).err(), Some(LoginError::StoreUnavailable));
    assert_eq!(decide_login(Lookup::Found(alice(None)), true, None, KEY).err(), Some(LoginError::SigningFailure));
    assert_eq!(decide_login(Lookup::Found(alice(None)), true, Some(u64::MAX), KEY).err(), Some(LoginError::SigningFailure));
    assert_eq!(decide_login(Lookup::Failed, false, None, KEY).err(), Some(LoginError::StoreUnavailable));
    assert_eq!(decide_login(Lookup::Missing, false, None, KEY).err(), Some(LoginError::UserNotFound));
}

#[test]
fn an_attempt_checks_the_password() {
    assert!(attempt_login(Lookup::Found(alice(None)), "correct horse", KEY).is_ok());
    assert_eq!(attempt_login(Lookup::Found(alice(None)), "Correct horse", KEY).err(), Some(LoginError::IncorrectPassword));
    let mut broken = alice(None);
    broken.password_hash = "not a hash".to_string();
    assert_eq!(attempt_login(Lookup::Found(broken), "correct horse", KEY).err(), Some(LoginError::IncorrectPassword));
    assert_eq!(attempt_login(Lookup::Missing, "correct horse", KEY).err(), Some(LoginError::UserNotFound));
    assert_eq!(attempt_login(Lookup::Failed, "correct horse", KEY).err(), Some(LoginError::StoreUnavailable));
}

#[test]
fn each_failure_has_its_message_and_its_refusal() {
    assert_eq!(LoginError::UserNotFound.message(), "Usuario no encontrado");
    assert_eq!(LoginError::IncorrectPassword.message(), "Contrase\u{f1}a incorrecta");
    assert_eq!(LoginError::StoreUnavailable.message(), "Error del servidor");
    assert_eq!(LoginError::SigningFailure.message(), "Error al generar el token");
    assert_eq!(LoginError::UserNotFound.refusal(), Refusal::Unauthorized);
    assert_eq!(LoginError::IncorrectPassword.refusal(), Refusal::Unauthorized);
    assert_eq!(LoginError::StoreUnavailable.refusal(), Refusal::InternalServerError);
    assert_eq!(LoginError::SigningFailure.refusal(), Refusal::InternalServerError);
    assert_eq!(Refusal::Unauthorized.status(), 401);
    assert_eq!(Refusal::InternalServerError.status(), 500);
    let r = json_response(Err(LoginError::SigningFailure));
    assert!(!r.success);
    assert_eq!(r.message, "Error al generar el token");
    assert_eq!(form_response(Err(LoginError::SigningFailure), true).err(), Some(Refusal::InternalServerError));
}

#[test]
fn the_bodies_are_built_from_their_parts() {
    let claims = Claims::issued_at(9, "n@example.com".to_string(), "Nine".to_string(), true, 1, 2);
    let r = LoginResponse::success("the token".to_string(), &claims);
    assert!(r.success);
    assert_eq!(r.message, "Login exitoso");
    assert_eq!(r.token, Some("the token".to_string()));
    let user = r.user.unwrap();
    assert_eq!(user.id, "9");
    assert_eq!(user.name, "Nine");
    assert_eq!(user.email, "n@example.com");
    assert!(user.is_admin);
    let e = LoginResponse::error("no".to_string());
    assert!(!e.success);
    assert_eq!(e.message, "no");
    assert!(e.token.is_none());
    assert!(e.user.is_none());
    let cookie = session_cookie("t".to_string(), true);
    assert_eq!(cookie.value, "t");
    assert_eq!(cookie.name, "jwt_token");
    assert!(cookie.secure && cookie.http_only);
}

#[test]
fn logging_out_removes_the_cookie_and_leads_to_the_login_page() {
    let r = logout();
    assert_eq!(r.cookie, "jwt_token");
    assert_eq!(r.redirect, "/login");
}
