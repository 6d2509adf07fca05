//! Who is asking: the credentials of a request are resolved to an
//! authenticated user, and an authenticated user is narrowed to an
//! administrator.

use crate::claims::{Claims, ClaimsView};
use crate::clock::unix_now;
use crate::token::{decode_jwt_at, decode_outcome, TokenError};
use vstd::prelude::*;
use vstd::string::*;

verus! {

/// Why a request is not authenticated.
#[derive(Debug, Clone, Copy, PartialEq, Eq, Structural)]
pub enum Denial {
    /// The request carries no token, neither in a header nor in a cookie.
    NoCredential,
    /// The token that the request carries was refused.
    InvalidOrExpired,
}

/// Why a request is turned away.
#[derive(Debug, Clone, Copy, PartialEq, Eq, Structural)]
pub enum AuthError {
    /// The request is not authenticated.
    Unauthorized(Denial),
    /// The user is authenticated and is no administrator.
    Forbidden,
}

impl AuthError {
    /// The HTTP status that answers the request: 401 where it is not
    /// authenticated, 403 where the user lacks the role.
    pub fn status(&self) -> (code: u16)
        ensures
            code == (if *self is Forbidden {
                403u16
            } else {
                401u16
            }),
    {
        match self {
            AuthError::Unauthorized(_) => 401,
            AuthError::Forbidden => 403,
        }
    }
}

/// The name of the cookie that carries the token.
pub const SESSION_COOKIE: &'static str = "jwt_token";

/// What a request holds that can carry a token.
#[derive(Debug, Clone)]
pub struct Credentials {
    /// The value of the `Authorization` header, where the request has one.
    pub authorization: Option<String>,
    /// The value of the cookie `jwt_token`, where the request has one.
    pub cookie: Option<String>,
}

/// A user whose token was accepted.
#[derive(Debug, Clone)]
pub struct AuthenticatedUser(pub Claims);

/// An authenticated user who is an administrator.
#[derive(Debug, Clone)]
pub struct AdminUser(pub Claims);

/// Who asks, where a request may come from anyone.
#[derive(Debug, Clone)]
pub enum Principal {
    /// Nobody who is authenticated.
    Anonymous,
    /// An authenticated user who is no administrator.
    User(Claims),
    /// An administrator.
    Admin(Claims),
}

impl Principal {
    /// The claims of the principal, where it has any.
    pub open spec fn claims(self) -> Option<ClaimsView> {
        match self {
            Principal::Anonymous => None,
            Principal::User(claims) => Some(claims@),
            Principal::Admin(claims) => Some(claims@),
        }
    }
}

/// The token in the value of an `Authorization` header: what follows the
/// prefix `Bearer `, where the value begins with it.
pub open spec fn bearer_token(header: Seq<char>) -> Option<Seq<char>> {
    if header.len() >= 7 && header.subrange(0, 7) == "Bearer "@ {
        Some(header.skip(7))
    } else {
        None
    }
}

/// The token that a request presents: that of its `Authorization` header
/// where the header holds one, else the value of its cookie.
pub open spec fn candidate(authorization: Option<Seq<char>>, cookie: Option<Seq<char>>) -> Option<
    Seq<char>,
> {
    match authorization {
        Some(header) => match bearer_token(header) {
            Some(token) => Some(token),
            None => cookie,
        },
        None => cookie,
    }
}

/// The view of an optional string.
pub open spec fn text_of(s: Option<String>) -> Option<Seq<char>> {
    match s {
        Some(text) => Some(text@),
        None => None,
    }
}

/// Whom a request with these credentials is authenticated as under `key` at
/// the second `now`.
pub open spec fn authenticated(
    authorization: Option<Seq<char>>,
    cookie: Option<Seq<char>>,
    key: Seq<u8>,
    now: u64,
) -> Result<ClaimsView, AuthError> {
    match candidate(authorization, cookie) {
        None => Err(AuthError::Unauthorized(Denial::NoCredential)),
        Some(token) => match decode_outcome(token, key, now) {
            Ok(claims) => Ok(claims),
            Err(_) => Err(AuthError::Unauthorized(Denial::InvalidOrExpired)),
        },
    }
}

/// The administrator that the user with `claims` is, or `Forbidden`.
pub open spec fn narrowed(claims: ClaimsView) -> Result<ClaimsView, AuthError> {
    if claims.is_admin {
        Ok(claims)
    } else {
        Err(AuthError::Forbidden)
    }
}

/// Whom a request with these credentials is admitted as to what only an
/// administrator may do: authentication comes first, and its failure stays
/// as it is.
pub open spec fn admitted(
    authorization: Option<Seq<char>>,
    cookie: Option<Seq<char>>,
    key: Seq<u8>,
    now: u64,
) -> Result<ClaimsView, AuthError> {
    match authenticated(authorization, cookie, key, now) {
        Ok(claims) => narrowed(claims),
        Err(e) => Err(e),
    }
}

/// A header that holds a token decides alone: the cookie is not looked at,
/// whether or not the header's token is accepted.
pub proof fn lemma_header_precedence(
    header: Seq<char>,
    cookie: Option<Seq<char>>,
    key: Seq<u8>,
    now: u64,
)
    requires
        bearer_token(header) is Some,
    ensures
        authenticated(Some(header), cookie, key, now) == authenticated(
            Some(header),
            None,
            key,
            now,
        ),
        decode_outcome(bearer_token(header)->0, key, now) matches Ok(claims) ==> authenticated(
            Some(header),
            cookie,
            key,
            now,
        ) == Ok::<ClaimsView, AuthError>(claims),
{
}

/// Narrowing succeeds exactly for an administrator, and fails with
/// `Forbidden` and nothing else.
pub proof fn lemma_narrowing(claims: ClaimsView)
    ensures
        narrowed(claims) is Ok <==> claims.is_admin,
        narrowed(claims) matches Ok(admin) ==> admin == claims,
        !claims.is_admin ==> narrowed(claims) == Err::<ClaimsView, AuthError>(AuthError::Forbidden),
{
}

/// The token in the value of an `Authorization` header.
pub fn bearer_token_of(header: &str) -> (r: Option<String>)
    ensures
        text_of(r) == bearer_token(header@),
{
    let prefix = "Bearer ";
    proof {
        reveal_strlit("Bearer ");
    }
    let n = header.unicode_len();
    if n < 7 {
        return None;
    }
    let mut i: usize = 0;
    while i < 7
        invariant
            i <= 7,
            7 <= n,
            n == header@.len(),
            prefix@ == "Bearer "@,
            prefix@.len() == 7,
            forall|j: int| 0 <= j < i ==> header@[j] == prefix@[j],
        decreases 7 - i,
    {
        if header.get_char(i) != prefix.get_char(i) {
            assert(header@.subrange(0, 7)[i as int] != prefix@[i as int]);
            return None;
        }
        i += 1;
    }
    assert(header@.subrange(0, 7) =~= prefix@);
    let token = header.substring_char(7, n);
    assert(token@ =~= header@.skip(7));
    Some(token.to_owned())
}

/// The token that a request presents.
pub fn extract_token(request: &Credentials) -> (r: Option<String>)
    ensures
        text_of(r) == candidate(text_of(request.authorization), text_of(request.cookie)),
{
    let from_header = match &request.authorization {
        Some(header) => bearer_token_of(header.as_str()),
        None => None,
    };
    match from_header {
        Some(token) => Some(token),
        None => match &request.cookie {
            Some(value) => Some(value.clone()),
            None => None,
        },
    }
}

/// Resolves the credentials of a request under `key` at the second `now`.
pub fn extract_authenticated(request: &Credentials, key: &[u8], now: u64) -> (r: Result<
    AuthenticatedUser,
    AuthError,
>)
    ensures
        r matches Ok(user) ==> authenticated(
            text_of(request.authorization),
            text_of(request.cookie),
            key@,
            now,
        ) == Ok::<ClaimsView, AuthError>(user.0@),
        r matches Err(e) ==> authenticated(
            text_of(request.authorization),
            text_of(request.cookie),
            key@,
            now,
        ) == Err::<ClaimsView, AuthError>(e),
{
    match extract_token(request) {
        None => Err(AuthError::Unauthorized(Denial::NoCredential)),
        Some(token) => match decode_jwt_at(token.as_str(), key, now) {
            Ok(claims) => Ok(AuthenticatedUser(claims)),
            Err(_) => Err(AuthError::Unauthorized(Denial::InvalidOrExpired)),
        },
    }
}

/// Narrows an authenticated user to an administrator: the same claims where
/// the user is one, `Forbidden` where not.
pub fn require_admin(user: AuthenticatedUser) -> (r: Result<AdminUser, AuthError>)
    ensures
        r is Ok <==> user.0.is_admin,
        r matches Ok(admin) ==> admin.0 == user.0,
        r matches Err(e) ==> e == AuthError::Forbidden,
        r matches Ok(admin) ==> narrowed(user.0@) == Ok::<ClaimsView, AuthError>(admin.0@),
        r matches Err(e) ==> narrowed(user.0@) == Err::<ClaimsView, AuthError>(e),
{
    if user.0.is_admin {
        Ok(AdminUser(user.0))
    } else {
        Err(AuthError::Forbidden)
    }
}

/// Resolves the credentials of a request, then narrows the user to an
/// administrator.
pub fn extract_admin(request: &Credentials, key: &[u8], now: u64) -> (r: Result<AdminUser, AuthError>)
    ensures
        r matches Ok(admin) ==> admitted(
            text_of(request.authorization),
            text_of(request.cookie),
            key@,
            now,
        ) == Ok::<ClaimsView, AuthError>(admin.0@),
        r matches Err(e) ==> admitted(
            text_of(request.authorization),
            text_of(request.cookie),
            key@,
            now,
        ) == Err::<ClaimsView, AuthError>(e),
{
    match extract_authenticated(request, key, now) {
        Ok(user) => require_admin(user),
        Err(e) => Err(e),
    }
}

/// Resolves the credentials of a request to a principal: anonymous where
/// they do not authenticate, else a user or an administrator by the role
/// in the claims.
pub fn resolve_principal(request: &Credentials, key: &[u8], now: u64) -> (r: Principal)
    ensures
        r.claims() == match authenticated(
            text_of(request.authorization),
            text_of(request.cookie),
            key@,
            now,
        ) {
            Ok(claims) => Some(claims),
            Err(_) => None,
        },
        r is Admin <==> (r.claims() matches Some(claims) && claims.is_admin),
{
    match extract_authenticated(request, key, now) {
        Ok(user) => if user.0.is_admin {
            Principal::Admin(user.0)
        } else {
            Principal::User(user.0)
        },
        Err(_) => Principal::Anonymous,
    }
}

impl AuthenticatedUser {
    /// Resolves the credentials of a request under `key` at the second that
    /// the system clock gives. Where the clock cannot be read, no token is
    /// accepted.
    pub fn from_request(request: &Credentials, key: &[u8]) -> (r: Result<
        AuthenticatedUser,
        AuthError,
    >)
        ensures
            r matches Ok(user) ==> exists|now: u64| #[trigger]
                authenticated(text_of(request.authorization), text_of(request.cookie), key@, now)
                    == Ok::<ClaimsView, AuthError>(user.0@),
            r matches Err(e) ==> e == AuthError::Unauthorized(
                if candidate(text_of(request.authorization), text_of(request.cookie)) is None {
                    Denial::NoCredential
                } else {
                    Denial::InvalidOrExpired
                },
            ),
    {
        match unix_now() {
            Some(now) => extract_authenticated(request, key, now),
            None => match extract_token(request) {
                None => Err(AuthError::Unauthorized(Denial::NoCredential)),
                Some(_) => Err(AuthError::Unauthorized(Denial::InvalidOrExpired)),
            },
        }
    }
}

impl AdminUser {
    /// Resolves the credentials of a request as `AuthenticatedUser` does,
    /// then narrows the user to an administrator.
    pub fn from_request(request: &Credentials, key: &[u8]) -> (r: Result<AdminUser, AuthError>)
        ensures
            r matches Ok(admin) ==> admin.0.is_admin && exists|now: u64| #[trigger]
                admitted(text_of(request.authorization), text_of(request.cookie), key@, now)
                    == Ok::<ClaimsView, AuthError>(admin.0@),
            r matches Err(e) ==> e == AuthError::Forbidden || e == AuthError::Unauthorized(
                if candidate(text_of(request.authorization), text_of(request.cookie)) is None {
                    Denial::NoCredential
                } else {
                    Denial::InvalidOrExpired
                },
            ),
            r matches Err(e) ==> e == AuthError::Forbidden ==> exists|now: u64| #[trigger]
                admitted(text_of(request.authorization), text_of(request.cookie), key@, now)
                    == Err::<ClaimsView, AuthError>(AuthError::Forbidden),
    {
        match AuthenticatedUser::from_request(request, key) {
            Ok(user) => {
                let ghost claims = user.0@;
                let r = require_admin(user);
                proof {
                    let now = choose|now: u64| #[trigger]
                        authenticated(
                            text_of(request.authorization),
                            text_of(request.cookie),
                            key@,
                            now,
                        ) == Ok::<ClaimsView, AuthError>(claims);
                    assert(admitted(
                        text_of(request.authorization),
                        text_of(request.cookie),
                        key@,
                        now,
                    ) == narrowed(claims));
                }
                r
            },
            Err(e) => Err(e),
        }
    }
}

} // verus!
