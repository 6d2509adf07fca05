use session_auth::claims::Claims;
use session_auth::guard::{AdminUser, AuthenticatedUser};
use session_auth::handlers::{
    create_long_lived_token, create_post, create_short_lived_token, delete_user, flexible_content,
    get_post, list_users, logout, public_route, refresh_token, refresh_token_at,
    token_issued_by_clock, update_user, user_profile, validate_token_manually, CreatePost, LogoutRequest, RefreshRequest, Rejection,
    UpdateUser, LONG_LIFETIME, SHORT_LIFETIME,
};
use session_auth::token::{create_jwt, decode_jwt, decode_jwt_at};

const KEY: &[u8] = b"a key that is kept out of the source in production";

fn claims(id: i32, is_admin: bool) -> Claims {
    Claims::issued_at(id, "carol@example.com".to_string(), "Carol".to_string(), is_admin, 1000, 100)
}

#[test]
fn a_short_lived_token_lasts_fifteen_minutes() {
    assert_eq!(SHORT_LIFETIME, 15 * 60);
    let token = create_short_lived_token(3, "carol@example.com".to_string(), "Carol".to_string(), true, KEY).unwrap();
    let c = decode_jwt(&token, KEY).unwrap();
    assert_eq!(c.exp - c.iat, 900);
    assert_eq!(c.sub, "3");
    assert_eq!(c.email, "carol@example.com");
    assert_eq!(c.name, "Carol");
    assert!(c.is_admin);
}

#[test]
fn a_long_lived_token_lasts_seven_days() {
    assert_eq!(LONG_LIFETIME, 7 * 24 * 60 * 60);
    let token = create_long_lived_token(3, "carol@example.com".to_string(), "Carol".to_string(), false, KEY).unwrap();
    let c = decode_jwt(&token, KEY).unwrap();
    assert_eq!(c.exp - c.iat, 604800);
    assert_eq!(c.sub, "3");
    assert!(!c.is_admin);
}

#[test]
fn a_token_is_validated_by_hand() {
    let c = Claims::new(3, "carol@example.com".to_string(), "Carol".to_string(), false).unwrap();
    let token = create_jwt(&c, KEY).unwrap();
    assert_eq!(validate_token_manually(&token, KEY).unwrap().sub, "3");
    assert_eq!(validate_token_manually("garbage", KEY).err(), Some("Token inv\u{e1}lido o expirado"));
    assert_eq!(validate_token_manually(&token, b"another key").err(), Some("Token inv\u{e1}lido o expirado"));
    let old = create_jwt(&claims(3, false), KEY).unwrap();
    assert_eq!(validate_token_manually(&old, KEY).err(), Some("Token inv\u{e1}lido o expirado"));
}

#[test]
fn a_profile_names_the_role() {
    let p = user_profile(&AuthenticatedUser(claims(3, true)));
    assert_eq!(p.name, "Carol");
    assert_eq!(p.email, "carol@example.com");
    assert_eq!(p.role, "admin");
    let p = user_profile(&AuthenticatedUser(claims(3, false)));
    assert_eq!(p.role, "user");
}

#[test]
fn the_fixed_answers_are_as_written() {
    assert_eq!(public_route(), "Esta ruta es p\u{fa}blica");
    assert_eq!(list_users(&AdminUser(claims(1, true))), "Lista de usuarios - solo admin");
    assert_eq!(
        logout(&AuthenticatedUser(claims(1, false)), &LogoutRequest { token: "t".to_string() }),
        "Sesi\u{f3}n cerrada exitosamente"
    );
}

#[test]
fn a_post_is_created_in_the_name_of_the_user() {
    let r = create_post(
        &AuthenticatedUser(claims(3, false)),
        &CreatePost { title: "t".to_string(), content: "c".to_string() },
    );
    assert!(r.success);
    assert_eq!(r.message, "Post creado por Carol");
    assert_eq!(r.post_id, Some(123));
}

#[test]
fn only_an_administrator_updates_a_user() {
    let change = UpdateUser { name: Some("D".to_string()), email: None };
    assert_eq!(update_user(&AdminUser(claims(1, true)), 2, &change), Ok("Usuario actualizado"));
    let e = update_user(&AdminUser(claims(1, false)), 2, &change).err().unwrap();
    assert_eq!(e, Rejection::Forbidden);
    assert_eq!(e.status(), 403);
}

#[test]
fn an_administrator_cannot_delete_their_own_account() {
    assert_eq!(delete_user(&AdminUser(claims(1, true)), 2), Ok("Usuario eliminado"));
    let e = delete_user(&AdminUser(claims(1, true)), 1).err().unwrap();
    assert_eq!(e, Rejection::BadRequest);
    assert_eq!(e.status(), 400);
    assert_eq!(delete_user(&AdminUser(claims(-5, true)), -5), Err(Rejection::BadRequest));
    assert_eq!(delete_user(&AdminUser(claims(-5, true)), 5), Ok("Usuario eliminado"));
    assert_eq!(delete_user(&AdminUser(claims(1, false)), 2), Err(Rejection::Forbidden));
    assert_eq!(delete_user(&AdminUser(claims(1, false)), 1), Err(Rejection::Forbidden));
}

#[test]
fn content_depends_on_who_asks() {
    let user = AuthenticatedUser(claims(3, false));
    let r = flexible_content(Some(&user));
    assert_eq!(r.message, "Bienvenido, Carol");
    assert_eq!(r.content, "Contenido personalizado");
    assert!(r.is_authenticated);
    let r = flexible_content(None);
    assert_eq!(r.message, "Bienvenido, invitado");
    assert_eq!(r.content, "Contenido p\u{fa}blico");
    assert!(!r.is_authenticated);
}

#[test]
fn a_post_is_given_to_an_authenticated_user() {
    let post = get_post(AuthenticatedUser(claims(3, false)), 77).unwrap();
    assert_eq!(post.id, 77);
    assert_eq!(post.title, "Ejemplo");
    assert_eq!(post.author, "Carol");
}

#[test]
fn a_token_is_renewed_for_the_same_user() {
    let old = create_jwt(&claims(-3, true), KEY).unwrap();
    let r = refresh_token_at(&RefreshRequest { token: old.clone() }, KEY, 1050);
    assert!(r.success);
    assert_eq!(r.message, "Token renovado exitosamente");
    let new_token = r.new_token.unwrap();
    assert!(new_token != old);
    let c = decode_jwt_at(&new_token, KEY, 1050).unwrap();
    assert_eq!(c.sub, "-3");
    assert_eq!(c.email, "carol@example.com");
    assert_eq!(c.name, "Carol");
    assert!(c.is_admin);
    assert_eq!(c.iat, 1050);
    assert_eq!(c.exp, 1050 + 86400);
}

#[test]
fn a_subject_that_is_no_number_is_renewed_as_user_zero() {
    let mut c = claims(3, false);
    c.sub = "carol".to_string();
    let old = create_jwt(&c, KEY).unwrap();
    let r = refresh_token_at(&RefreshRequest { token: old }, KEY, 1050);
    assert_eq!(decode_jwt_at(&r.new_token.unwrap(), KEY, 1050).unwrap().sub, "0");
    c.sub = "+0042".to_string();
    let old = create_jwt(&c, KEY).unwrap();
    let r = refresh_token_at(&RefreshRequest { token: old }, KEY, 1050);
    assert_eq!(decode_jwt_at(&r.new_token.unwrap(), KEY, 1050).unwrap().sub, "42");
}

#[test]
fn a_token_that_is_refused_is_not_renewed() {
    let old = create_jwt(&claims(3, false), KEY).unwrap();
    let r = refresh_token_at(&RefreshRequest { token: old.clone() }, KEY, 1100);
    assert!(!r.success);
    assert!(r.new_token.is_none());
    assert_eq!(r.message, "Token inv\u{e1}lido o expirado");
    let r = refresh_token_at(&RefreshRequest { token: "garbage".to_string() }, KEY, 1050);
    assert!(!r.success);
    assert!(r.new_token.is_none());
    assert_eq!(r.message, "Token inv\u{e1}lido o expirado");
    let r = refresh_token(&RefreshRequest { token: old }, KEY);
    assert!(!r.success);
    assert_eq!(r.message, "Token inv\u{e1}lido o expirado");
}

#[test]
fn a_token_is_renewed_by_the_clock() {
    let c = Claims::new(3, "carol@example.com".to_string(), "Carol".to_string(), false).unwrap();
    let r = refresh_token(&RefreshRequest { token: create_jwt(&c, KEY).unwrap() }, KEY);
    assert!(r.success);
    let back = decode_jwt(&r.new_token.unwrap(), KEY).unwrap();
    assert_eq!(back.sub, "3");
    assert_eq!(back.exp, back.iat + 86400);
}

#[test]
fn a_token_is_issued_at_the_second_that_the_clock_gave() {
    let token = token_issued_by_clock(3, "carol@example.com".to_string(), "Carol".to_string(), true, Some(1000), 900, KEY).unwrap();
    let c = decode_jwt_at(&token, KEY, 1000).unwrap();
    assert_eq!(c.sub, "3");
    assert_eq!(c.email, "carol@example.com");
    assert_eq!(c.name, "Carol");
    assert!(c.is_admin);
    assert_eq!(c.iat, 1000);
    assert_eq!(c.exp, 1900);
    let expected = create_jwt(
        &Claims::issued_at(3, "carol@example.com".to_string(), "Carol".to_string(), true, 1000, 900),
        KEY,
    )
    .unwrap();
    assert_eq!(token, expected);
    assert!(token_issued_by_clock(3, String::new(), String::new(), true, None, 900, KEY).is_none());
    assert!(token_issued_by_clock(3, String::new(), String::new(), true, Some(u64::MAX), 900, KEY).is_none());
    assert!(token_issued_by_clock(3, String::new(), String::new(), true, Some(5), usize::MAX - 4, KEY).is_none());
    assert!(token_issued_by_clock(3, String::new(), String::new(), true, Some(5), usize::MAX - 5, KEY).is_some());
}
