//! What the protected operations answer, once the guards have resolved who
//! is asking: profiles and posts for users, user management for
//! administrators, and tokens of other lifetimes.

use crate::claims::{issued, Claims, ClaimsView, DEFAULT_LIFETIME};
use crate::clock::unix_now;
use crate::guard::{text_of, AdminUser, AuthenticatedUser};
use crate::text::{i32_text, lemma_parse_of_decimal, parse_i32, parsed_i32, signed_decimal_text};
use crate::token::{create_jwt, decode_jwt, decode_jwt_at, decode_outcome, token_text, TokenError};
use vstd::prelude::*;
use vstd::string::*;

verus! {

/// The lifetime of a token for a sensitive operation: 15 minutes.
pub const SHORT_LIFETIME: usize = 900;

/// The lifetime of a token that remembers the user: 7 days.
pub const LONG_LIFETIME: usize = 604800;

/// What a user sees of themselves.
#[derive(Debug, Clone)]
pub struct UserProfile {
    pub name: String,
    pub email: String,
    /// `admin` or `user`.
    pub role: String,
}

/// A post to create.
#[derive(Debug, Clone)]
pub struct CreatePost {
    pub title: String,
    pub content: String,
}

/// The answer to the creation of a post.
#[derive(Debug, Clone)]
pub struct PostResponse {
    pub success: bool,
    pub message: String,
    pub post_id: Option<i32>,
}

/// What to change of a user.
#[derive(Debug, Clone)]
pub struct UpdateUser {
    pub name: Option<String>,
    pub email: Option<String>,
}

/// Content for a visitor who may or may not be authenticated.
#[derive(Debug, Clone)]
pub struct ContentResponse {
    pub message: String,
    pub content: String,
    pub is_authenticated: bool,
}

/// A post.
#[derive(Debug, Clone)]
pub struct Post {
    pub id: i32,
    pub title: String,
    pub author: String,
}

/// A token to renew.
#[derive(Debug, Clone)]
pub struct RefreshRequest {
    pub token: String,
}

/// The answer to a renewal.
#[derive(Debug, Clone)]
pub struct RefreshResponse {
    pub success: bool,
    pub new_token: Option<String>,
    pub message: String,
}

/// A token to give up.
#[derive(Debug, Clone)]
pub struct LogoutRequest {
    pub token: String,
}

/// Why an operation on a user is not carried out.
#[derive(Debug, Clone, Copy, PartialEq, Eq, Structural)]
pub enum Rejection {
    /// The one who asks is no administrator.
    Forbidden,
    /// An administrator asks to delete their own account.
    BadRequest,
}

impl Rejection {
    /// The HTTP status of the rejection.
    pub fn status(&self) -> (code: u16)
        ensures
            code == (if *self == Rejection::Forbidden {
                403u16
            } else {
                400u16
            }),
    {
        match self {
            Rejection::Forbidden => 403,
            Rejection::BadRequest => 400,
        }
    }
}

pub struct RefreshResponseView {
    pub success: bool,
    pub new_token: Option<Seq<char>>,
    pub message: Seq<char>,
}

impl View for RefreshResponse {
    type V = RefreshResponseView;

    open spec fn view(&self) -> RefreshResponseView {
        RefreshResponseView {
            success: self.success,
            new_token: match self.new_token {
                Some(t) => Some(t@),
                None => None,
            },
            message: self.message@,
        }
    }
}

/// What everyone may read.
pub fn public_route() -> (r: &'static str)
    ensures
        r@ == "Esta ruta es pública"@,
{
    "Esta ruta es pública"
}

/// The profile of an authenticated user.
pub fn user_profile(user: &AuthenticatedUser) -> (r: UserProfile)
    ensures
        r.name@ == user.0.name@,
        r.email@ == user.0.email@,
        r.role@ == (if user.0.is_admin {
            "admin"@
        } else {
            "user"@
        }),
{
    UserProfile {
        name: user.0.name.clone(),
        email: user.0.email.clone(),
        role: if user.0.is_admin {
            "admin".to_owned()
        } else {
            "user".to_owned()
        },
    }
}

/// The list of users, which only an administrator is given.
pub fn list_users(admin: &AdminUser) -> (r: &'static str)
    ensures
        r@ == "Lista de usuarios - solo admin"@,
{
    "Lista de usuarios - solo admin"
}

/// The token for the user that is issued at the second that the clock gave
/// and lives for `lifetime` seconds: none where the clock gave no second or
/// the expiry is past the representable seconds.
pub open spec fn lifetime_token(
    user_id: i32,
    email: Seq<char>,
    name: Seq<char>,
    is_admin: bool,
    now: Option<u64>,
    lifetime: usize,
    key: Seq<u8>,
) -> Option<Seq<char>> {
    match now {
        Some(t) => if t + lifetime <= usize::MAX {
            Some(token_text(issued(user_id, email, name, is_admin, t as usize, lifetime), key))
        } else {
            None
        },
        None => None,
    }
}

/// Makes the token for the user that is issued at the second `now` that the
/// clock gave and lives for `lifetime` seconds.
pub fn token_issued_by_clock(
    user_id: i32,
    email: String,
    name: String,
    is_admin: bool,
    now: Option<u64>,
    lifetime: usize,
    key: &[u8],
) -> (r: Option<String>)
    requires
        lifetime > 0,
    ensures
        text_of(r) == lifetime_token(user_id, email@, name@, is_admin, now, lifetime, key@),
{
    let claims = match Claims::issued_by_clock(user_id, email, name, is_admin, now, lifetime) {
        Some(claims) => claims,
        None => {
            return None;
        },
    };
    match create_jwt(&claims, key) {
        Ok(token) => Some(token),
        Err(_) => None,
    }
}

/// A token for the user that is issued now and lives for `lifetime`
/// seconds. `None` where the clock cannot be read or the expiry is past the
/// representable seconds.
fn token_with_lifetime(
    user_id: i32,
    email: String,
    name: String,
    is_admin: bool,
    lifetime: usize,
    key: &[u8],
) -> (r: Option<String>)
    requires
        lifetime > 0,
    ensures
        r matches Some(t) ==> exists|now: usize|
            now + lifetime <= usize::MAX && t@ == #[trigger] token_text(
                issued(user_id, email@, name@, is_admin, now, lifetime),
                key@,
            ),
{
    let now = unix_now();
    let r = token_issued_by_clock(user_id, email, name, is_admin, now, lifetime, key);
    proof {
        if r is Some {
            let second = now->0 as usize;
            assert(second + lifetime <= usize::MAX);
            assert(r->0@ == token_text(
                issued(user_id, email@, name@, is_admin, second, lifetime),
                key@,
            ));
        }
    }
    r
}

/// A token for a sensitive operation: issued now, for 15 minutes.
pub fn create_short_lived_token(
    user_id: i32,
    email: String,
    name: String,
    is_admin: bool,
    key: &[u8],
) -> (r: Option<String>)
    ensures
        r matches Some(t) ==> exists|now: usize|
            now + SHORT_LIFETIME <= usize::MAX && t@ == #[trigger] token_text(
                issued(user_id, email@, name@, is_admin, now, SHORT_LIFETIME),
                key@,
            ),
{
    token_with_lifetime(user_id, email, name, is_admin, SHORT_LIFETIME, key)
}

/// A token that remembers the user: issued now, for 7 days.
pub fn create_long_lived_token(
    user_id: i32,
    email: String,
    name: String,
    is_admin: bool,
    key: &[u8],
) -> (r: Option<String>)
    ensures
        r matches Some(t) ==> exists|now: usize|
            now + LONG_LIFETIME <= usize::MAX && t@ == #[trigger] token_text(
                issued(user_id, email@, name@, is_admin, now, LONG_LIFETIME),
                key@,
            ),
{
    token_with_lifetime(user_id, email, name, is_admin, LONG_LIFETIME, key)
}

/// Decodes a token outside of a guard: the claims, or one message for
/// every reason of refusal.
pub fn validate_token_manually(token: &str, key: &[u8]) -> (r: Result<Claims, &'static str>)
    ensures
        r matches Ok(c) ==> exists|now: u64| #[trigger]
            decode_outcome(token@, key@, now) == Ok::<ClaimsView, TokenError>(c@),
        r matches Err(message) ==> message@ == "Token inválido o expirado"@,
{
    match decode_jwt(token, key) {
        Ok(claims) => Ok(claims),
        Err(_) => Err("Token inválido o expirado"),
    }
}

/// Creates a post for an authenticated user.
pub fn create_post(user: &AuthenticatedUser, post_data: &CreatePost) -> (r: PostResponse)
    ensures
        r.success,
        r.message@ == "Post creado por "@ + user.0.name@,
        r.post_id == Some(123i32),
{
    let mut message = "Post creado por ".to_owned();
    message.append(user.0.name.as_str());
    PostResponse { success: true, message, post_id: Some(123) }
}

/// Updates a user, which only an administrator may do.
pub fn update_user(admin: &AdminUser, user_id: i32, update_data: &UpdateUser) -> (r: Result<
    &'static str,
    Rejection,
>)
    ensures
        r is Ok <==> admin.0.is_admin,
        r matches Ok(message) ==> message@ == "Usuario actualizado"@,
        r matches Err(e) ==> e == Rejection::Forbidden,
{
    if !admin.0.is_admin {
        return Err(Rejection::Forbidden);
    }
    Ok("Usuario actualizado")
}

/// Deletes a user, which only an administrator may do, and not to their own
/// account.
pub fn delete_user(admin: &AdminUser, user_id: i32) -> (r: Result<&'static str, Rejection>)
    ensures
        !admin.0.is_admin ==> r == Err::<&'static str, Rejection>(Rejection::Forbidden),
        admin.0.is_admin && admin.0.sub@ == signed_decimal_text(user_id as int) ==> r == Err::<
            &'static str,
            Rejection,
        >(Rejection::BadRequest),
        admin.0.is_admin && admin.0.sub@ != signed_decimal_text(user_id as int) ==> (r matches Ok(
            message,
        ) && message@ == "Usuario eliminado"@),
{
    if !admin.0.is_admin {
        return Err(Rejection::Forbidden);
    }
    let own = i32_text(user_id);
    if admin.0.sub == own {
        return Err(Rejection::BadRequest);
    }
    Ok("Usuario eliminado")
}

/// Content for whoever asks: a greeting by name for an authenticated user,
/// the public content for a guest.
pub fn flexible_content(user: Option<&AuthenticatedUser>) -> (r: ContentResponse)
    ensures
        r.is_authenticated == user is Some,
        user matches Some(known) ==> r.message@ == "Bienvenido, "@ + known.0.name@ && r.content@
            == "Contenido personalizado"@,
        user is None ==> r.message@ == "Bienvenido, invitado"@ && r.content@
            == "Contenido público"@,
{
    match user {
        Some(known) => {
            let mut message = "Bienvenido, ".to_owned();
            message.append(known.0.name.as_str());
            ContentResponse {
                message,
                content: "Contenido personalizado".to_owned(),
                is_authenticated: true,
            }
        },
        None => ContentResponse {
            message: "Bienvenido, invitado".to_owned(),
            content: "Contenido público".to_owned(),
            is_authenticated: false,
        },
    }
}

/// The post `post_id`, for an authenticated user.
pub fn get_post(user: AuthenticatedUser, post_id: i32) -> (r: Result<Post, Rejection>)
    ensures
        r matches Ok(post) && post.id == post_id && post.title@ == "Ejemplo"@ && post.author@
            == user.0.name@,
{
    Ok(Post { id: post_id, title: "Ejemplo".to_owned(), author: user.0.name })
}

/// The claims of the token that renews one with the claims `old`: the same
/// user, issued at the second `now` for 24 hours. A subject that is no
/// number becomes the user 0.
pub open spec fn renewed_claims(old: ClaimsView, now: usize) -> ClaimsView {
    issued(
        match parsed_i32(old.sub) {
            Some(n) => n as i32,
            None => 0i32,
        },
        old.email,
        old.name,
        old.is_admin,
        now,
        DEFAULT_LIFETIME,
    )
}

/// Renewal keeps the claims of a user whose subject is their id in decimal,
/// as it is in every token that a login issues, and moves the times.
pub proof fn lemma_renewal_keeps_the_user(
    user_id: i32,
    email: Seq<char>,
    name: Seq<char>,
    is_admin: bool,
    issued_at: usize,
    lifetime: usize,
    now: usize,
)
    ensures
        renewed_claims(issued(user_id, email, name, is_admin, issued_at, lifetime), now) == issued(
            user_id,
            email,
            name,
            is_admin,
            now,
            DEFAULT_LIFETIME,
        ),
{
    lemma_parse_of_decimal(user_id);
}

/// The answer to the renewal of `token` at the second `now`.
pub open spec fn renewal(token: Seq<char>, key: Seq<u8>, now: u64) -> RefreshResponseView {
    match decode_outcome(token, key, now) {
        Ok(old) => if now + DEFAULT_LIFETIME <= usize::MAX {
            RefreshResponseView {
                success: true,
                new_token: Some(token_text(renewed_claims(old, now as usize), key)),
                message: "Token renovado exitosamente"@,
            }
        } else {
            RefreshResponseView {
                success: false,
                new_token: None,
                message: "Error al crear nuevo token"@,
            }
        },
        Err(_) => RefreshResponseView {
            success: false,
            new_token: None,
            message: "Token inválido o expirado"@,
        },
    }
}

/// Renews a token at the second `now`: a token that is accepted is answered
/// with a new one for the same user.
pub fn refresh_token_at(refresh: &RefreshRequest, key: &[u8], now: u64) -> (r: RefreshResponse)
    ensures
        r@ == renewal(refresh.token@, key@, now),
{
    let old = match decode_jwt_at(refresh.token.as_str(), key, now) {
        Ok(claims) => claims,
        Err(_) => {
            return RefreshResponse {
                success: false,
                new_token: None,
                message: "Token inválido o expirado".to_owned(),
            };
        },
    };
    let user_id = match parse_i32(old.sub.as_str()) {
        Some(n) => n,
        None => 0,
    };
    let claims = match Claims::issued_by_clock(
        user_id,
        old.email,
        old.name,
        old.is_admin,
        Some(now),
        DEFAULT_LIFETIME,
    ) {
        Some(claims) => claims,
        None => {
            return RefreshResponse {
                success: false,
                new_token: None,
                message: "Error al crear nuevo token".to_owned(),
            };
        },
    };
    match create_jwt(&claims, key) {
        Ok(token) => RefreshResponse {
            success: true,
            new_token: Some(token),
            message: "Token renovado exitosamente".to_owned(),
        },
        Err(_) => RefreshResponse {
            success: false,
            new_token: None,
            message: "Error al crear nuevo token".to_owned(),
        },
    }
}

/// Renews a token at the second that the system clock gives. Where the
/// clock cannot be read, no token is accepted.
pub fn refresh_token(refresh: &RefreshRequest, key: &[u8]) -> (r: RefreshResponse)
    ensures
        r@ == (RefreshResponseView {
            success: false,
            new_token: None,
            message: "Token inválido o expirado"@,
        }) || exists|now: u64| #[trigger] renewal(refresh.token@, key@, now) == r@,
{
    match unix_now() {
        Some(now) => {
            let r = refresh_token_at(refresh, key, now);
            assert(renewal(refresh.token@, key@, now) == r@);
            r
        },
        None => RefreshResponse {
            success: false,
            new_token: None,
            message: "Token inválido o expirado".to_owned(),
        },
    }
}

/// The answer to an authenticated user who gives up a token. The token
/// itself stays valid until it expires.
pub fn logout(user: &AuthenticatedUser, request: &LogoutRequest) -> (r: &'static str)
    ensures
        r@ == "Sesión cerrada exitosamente"@,
{
    "Sesión cerrada exitosamente"
}

} // verus!
