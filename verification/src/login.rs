//! Logging in and out: submitted credentials are checked against the stored
//! record of the user, and a token is issued, as a cookie or in a JSON body.
//!
//! The record is looked up by the caller, who hands over what the store
//! answered.

use crate::claims::{issued, Claims, ClaimsView, DEFAULT_LIFETIME};
use crate::clock::unix_now;
use crate::token::{create_jwt, token_text};
use vstd::prelude::*;
use vstd::string::*;

verus! {

/// The credentials of a login form.
#[derive(Debug, Clone)]
pub struct LoginForm {
    pub email: String,
    pub password: String,
}

/// The credentials of a JSON login request.
#[derive(Debug, Clone)]
pub struct LoginJson {
    pub email: String,
    pub password: String,
}

/// A message for the user, with the text of an alert.
#[derive(Debug, Clone)]
pub struct ApiResponse {
    pub message: String,
    pub alert: String,
}

/// What the credential store holds of a user.
#[derive(Debug, Clone)]
pub struct UserRecord {
    pub id: i32,
    pub email: String,
    pub name: String,
    /// The stored hash of the user's password.
    pub password_hash: String,
    /// Whether the user is an administrator; a user of whom the store does
    /// not say is none.
    pub is_admin: Option<bool>,
}

/// What the credential store answered when it was asked for a user.
#[derive(Debug, Clone)]
pub enum Lookup {
    /// It holds the user.
    Found(UserRecord),
    /// It holds no user with that e-mail address.
    Missing,
    /// It could not answer.
    Failed,
}

/// Why a login failed.
#[derive(Debug, Clone, Copy, PartialEq, Eq, Structural)]
pub enum LoginError {
    /// The store holds no user with the e-mail address.
    UserNotFound,
    /// The password is not the user's.
    IncorrectPassword,
    /// The store could not answer.
    StoreUnavailable,
    /// No token could be made: the clock could not be read, or the token
    /// would expire past the representable seconds.
    SigningFailure,
}

/// How a login that failed is answered where the reason is not disclosed.
#[derive(Debug, Clone, Copy, PartialEq, Eq, Structural)]
pub enum Refusal {
    Unauthorized,
    InternalServerError,
}

/// A session that a login opened.
#[derive(Debug, Clone)]
pub struct Session {
    pub token: String,
    pub claims: Claims,
}

/// The user of a session, as the JSON body names them.
#[derive(Debug, Clone)]
pub struct UserInfo {
    pub id: String,
    pub name: String,
    pub email: String,
    pub is_admin: bool,
}

/// The body that answers a JSON login.
#[derive(Debug, Clone)]
pub struct LoginResponse {
    pub success: bool,
    pub message: String,
    pub token: Option<String>,
    pub user: Option<UserInfo>,
}

/// Which requests from other sites carry a cookie.
#[derive(Debug, Clone, Copy, PartialEq, Eq, Structural)]
pub enum SameSite {
    Strict,
    Lax,
    Unrestricted,
}

/// The cookie that carries a token.
#[derive(Debug, Clone)]
pub struct SessionCookie {
    pub name: String,
    pub value: String,
    pub http_only: bool,
    pub same_site: SameSite,
    pub path: String,
    /// The seconds for which the cookie is kept.
    pub max_age: u64,
    pub secure: bool,
}

/// The answer to a form login that succeeded.
#[derive(Debug, Clone)]
pub struct FormAccepted {
    pub cookie: SessionCookie,
    /// Where the user is sent.
    pub redirect: String,
}

/// The answer to a logout.
#[derive(Debug, Clone)]
pub struct LoggedOut {
    /// The name of the cookie that is removed.
    pub cookie: String,
    /// Where the user is sent.
    pub redirect: String,
}

pub struct UserRecordView {
    pub id: i32,
    pub email: Seq<char>,
    pub name: Seq<char>,
    pub password_hash: Seq<char>,
    pub is_admin: Option<bool>,
}

impl View for UserRecord {
    type V = UserRecordView;

    open spec fn view(&self) -> UserRecordView {
        UserRecordView {
            id: self.id,
            email: self.email@,
            name: self.name@,
            password_hash: self.password_hash@,
            is_admin: self.is_admin,
        }
    }
}

pub enum LookupView {
    Found(UserRecordView),
    Missing,
    Failed,
}

impl View for Lookup {
    type V = LookupView;

    open spec fn view(&self) -> LookupView {
        match self {
            Lookup::Found(user) => LookupView::Found(user@),
            Lookup::Missing => LookupView::Missing,
            Lookup::Failed => LookupView::Failed,
        }
    }
}

pub struct SessionView {
    pub token: Seq<char>,
    pub claims: ClaimsView,
}

impl View for Session {
    type V = SessionView;

    open spec fn view(&self) -> SessionView {
        SessionView { token: self.token@, claims: self.claims@ }
    }
}

pub struct UserInfoView {
    pub id: Seq<char>,
    pub name: Seq<char>,
    pub email: Seq<char>,
    pub is_admin: bool,
}

impl View for UserInfo {
    type V = UserInfoView;

    open spec fn view(&self) -> UserInfoView {
        UserInfoView { id: self.id@, name: self.name@, email: self.email@, is_admin: self.is_admin }
    }
}

pub struct LoginResponseView {
    pub success: bool,
    pub message: Seq<char>,
    pub token: Option<Seq<char>>,
    pub user: Option<UserInfoView>,
}

impl View for LoginResponse {
    type V = LoginResponseView;

    open spec fn view(&self) -> LoginResponseView {
        LoginResponseView {
            success: self.success,
            message: self.message@,
            token: match self.token {
                Some(t) => Some(t@),
                None => None,
            },
            user: match self.user {
                Some(u) => Some(u@),
                None => None,
            },
        }
    }
}

pub struct SessionCookieView {
    pub name: Seq<char>,
    pub value: Seq<char>,
    pub http_only: bool,
    pub same_site: SameSite,
    pub path: Seq<char>,
    pub max_age: u64,
    pub secure: bool,
}

impl View for SessionCookie {
    type V = SessionCookieView;

    open spec fn view(&self) -> SessionCookieView {
        SessionCookieView {
            name: self.name@,
            value: self.value@,
            http_only: self.http_only,
            same_site: self.same_site,
            path: self.path@,
            max_age: self.max_age,
            secure: self.secure,
        }
    }
}

pub struct FormAcceptedView {
    pub cookie: SessionCookieView,
    pub redirect: Seq<char>,
}

impl View for FormAccepted {
    type V = FormAcceptedView;

    open spec fn view(&self) -> FormAcceptedView {
        FormAcceptedView { cookie: self.cookie@, redirect: self.redirect@ }
    }
}

/// What `bcrypt::verify` gives for a password and a stored hash: whether
/// they match, or `None` where it fails on the hash.
pub uninterp spec fn bcrypt_verdict(password: Seq<char>, hash: Seq<char>) -> Option<bool>;

/// `bcrypt::verify`. Its result depends on the password and the hash alone:
/// it hashes the password with the cost and the salt that the stored hash
/// names and compares the two in constant time, and fails where the stored
/// hash is not well formed.
#[verifier::external_body]
fn bcrypt_verify(password: &str, hash: &str) -> (r: Option<bool>)
    ensures
        r == bcrypt_verdict(password@, hash@),
{
    match bcrypt::verify(password, hash) {
        Ok(same) => Some(same),
        Err(_) => None,
    }
}

/// Whether `password` is the password with the stored hash `hash`. A hash
/// that cannot be read matches no password.
pub open spec fn accepts(password: Seq<char>, hash: Seq<char>) -> bool {
    bcrypt_verdict(password, hash) == Some(true)
}

/// Whether `password` is the password of the user that the store answered
/// with.
pub open spec fn accepted_by(lookup: LookupView, password: Seq<char>) -> bool {
    match lookup {
        LookupView::Found(user) => accepts(password, user.password_hash),
        _ => false,
    }
}

/// The claims of a token for `user`, issued at the second `now`.
pub open spec fn login_claims(user: UserRecordView, now: usize) -> ClaimsView {
    issued(user.id, user.email, user.name, user.is_admin == Some(true), now, DEFAULT_LIFETIME)
}

/// How a login ends, given what the store answered, whether the password
/// was accepted and what the clock gave.
pub open spec fn login_outcome(
    lookup: LookupView,
    accepted: bool,
    now: Option<u64>,
    key: Seq<u8>,
) -> Result<SessionView, LoginError> {
    match lookup {
        LookupView::Failed => Err(LoginError::StoreUnavailable),
        LookupView::Missing => Err(LoginError::UserNotFound),
        LookupView::Found(user) => if !accepted {
            Err(LoginError::IncorrectPassword)
        } else {
            match now {
                Some(t) => if t + DEFAULT_LIFETIME <= usize::MAX {
                    Ok(
                        SessionView {
                            token: token_text(login_claims(user, t as usize), key),
                            claims: login_claims(user, t as usize),
                        },
                    )
                } else {
                    Err(LoginError::SigningFailure)
                },
                None => Err(LoginError::SigningFailure),
            }
        },
    }
}

/// The JSON body for a login that ended in `outcome`.
pub open spec fn json_body(outcome: Result<SessionView, LoginError>) -> LoginResponseView {
    match outcome {
        Ok(session) => LoginResponseView {
            success: true,
            message: "Login exitoso"@,
            token: Some(session.token),
            user: Some(
                UserInfoView {
                    id: session.claims.sub,
                    name: session.claims.name,
                    email: session.claims.email,
                    is_admin: session.claims.is_admin,
                },
            ),
        },
        Err(e) => LoginResponseView {
            success: false,
            message: failure_message(e),
            token: None,
            user: None,
        },
    }
}

/// What the JSON body tells the user of a failed login.
pub open spec fn failure_message(e: LoginError) -> Seq<char> {
    match e {
        LoginError::UserNotFound => "Usuario no encontrado"@,
        LoginError::IncorrectPassword => "Contraseña incorrecta"@,
        LoginError::StoreUnavailable => "Error del servidor"@,
        LoginError::SigningFailure => "Error al generar el token"@,
    }
}

/// How a failed form login is answered: a wrong e-mail address and a wrong
/// password alike.
pub open spec fn refusal(e: LoginError) -> Refusal {
    match e {
        LoginError::UserNotFound | LoginError::IncorrectPassword => Refusal::Unauthorized,
        LoginError::StoreUnavailable | LoginError::SigningFailure => Refusal::InternalServerError,
    }
}

/// The cookie that carries `token`.
pub open spec fn cookie_for(token: Seq<char>, secure: bool) -> SessionCookieView {
    SessionCookieView {
        name: "jwt_token"@,
        value: token,
        http_only: true,
        same_site: SameSite::Lax,
        path: "/"@,
        max_age: 86400,
        secure,
    }
}

/// The answer to a form login that ended in `outcome`: the cookie and the
/// way to the protected page, or a refusal.
pub open spec fn form_answer(outcome: Result<SessionView, LoginError>, secure: bool) -> Result<
    FormAcceptedView,
    Refusal,
> {
    match outcome {
        Ok(session) => Ok(
            FormAcceptedView { cookie: cookie_for(session.token, secure), redirect: "/balance"@ },
        ),
        Err(e) => Err(refusal(e)),
    }
}

impl Refusal {
    /// The HTTP status of the refusal.
    pub fn status(&self) -> (code: u16)
        ensures
            code == (if *self == Refusal::Unauthorized {
                401u16
            } else {
                500u16
            }),
    {
        match self {
            Refusal::Unauthorized => 401,
            Refusal::InternalServerError => 500,
        }
    }
}

impl LoginError {
    /// What the JSON body tells the user.
    pub fn message(&self) -> (text: String)
        ensures
            text@ == failure_message(*self),
    {
        match self {
            LoginError::UserNotFound => "Usuario no encontrado".to_owned(),
            LoginError::IncorrectPassword => "Contraseña incorrecta".to_owned(),
            LoginError::StoreUnavailable => "Error del servidor".to_owned(),
            LoginError::SigningFailure => "Error al generar el token".to_owned(),
        }
    }

    /// How a form login is answered.
    pub fn refusal(&self) -> (r: Refusal)
        ensures
            r == refusal(*self),
    {
        match self {
            LoginError::UserNotFound | LoginError::IncorrectPassword => Refusal::Unauthorized,
            LoginError::StoreUnavailable | LoginError::SigningFailure => {
                Refusal::InternalServerError
            },
        }
    }
}

impl LoginResponse {
    /// The body for a login that succeeded.
    pub fn success(token: String, claims: &Claims) -> (r: LoginResponse)
        ensures
            r@ == json_body(Ok(SessionView { token: token@, claims: claims@ })),
    {
        LoginResponse {
            success: true,
            message: "Login exitoso".to_owned(),
            token: Some(token),
            user: Some(
                UserInfo {
                    id: claims.sub.clone(),
                    name: claims.name.clone(),
                    email: claims.email.clone(),
                    is_admin: claims.is_admin,
                },
            ),
        }
    }

    /// The body for a login that failed, with what the user is told.
    pub fn error(message: String) -> (r: LoginResponse)
        ensures
            r@ == (LoginResponseView { success: false, message: message@, token: None, user: None }),
    {
        LoginResponse { success: false, message, token: None, user: None }
    }
}

/// Whether `password` is the password with the stored hash `hash`.
pub fn password_matches(password: &str, hash: &str) -> (r: bool)
    ensures
        r == accepts(password@, hash@),
{
    match bcrypt_verify(password, hash) {
        Some(same) => same,
        None => false,
    }
}

/// Ends a login, given what the store answered, whether the password was
/// accepted and the second that the clock gave.
pub fn decide_login(lookup: Lookup, accepted: bool, now: Option<u64>, key: &[u8]) -> (r: Result<
    Session,
    LoginError,
>)
    ensures
        r matches Ok(session) ==> login_outcome(lookup@, accepted, now, key@) == Ok::<
            SessionView,
            LoginError,
        >(session@),
        r matches Err(e) ==> login_outcome(lookup@, accepted, now, key@) == Err::<
            SessionView,
            LoginError,
        >(e),
{
    let user = match lookup {
        Lookup::Failed => {
            return Err(LoginError::StoreUnavailable);
        },
        Lookup::Missing => {
            return Err(LoginError::UserNotFound);
        },
        Lookup::Found(user) => user,
    };
    if !accepted {
        return Err(LoginError::IncorrectPassword);
    }
    let is_admin = match user.is_admin {
        Some(flag) => flag,
        None => false,
    };
    let claims = match Claims::issued_by_clock(
        user.id,
        user.email,
        user.name,
        is_admin,
        now,
        DEFAULT_LIFETIME,
    ) {
        Some(claims) => claims,
        None => {
            return Err(LoginError::SigningFailure);
        },
    };
    match create_jwt(&claims, key) {
        Ok(token) => Ok(Session { token, claims }),
        Err(_) => Err(LoginError::SigningFailure),
    }
}

/// Checks `password` against what the store answered and, where it is
/// accepted, opens a session that begins now.
pub fn attempt_login(lookup: Lookup, password: &str, key: &[u8]) -> (r: Result<Session, LoginError>)
    ensures
        r matches Ok(session) ==> exists|now: Option<u64>| #[trigger]
            login_outcome(lookup@, accepted_by(lookup@, password@), now, key@) == Ok::<
                SessionView,
                LoginError,
            >(session@),
        r matches Err(e) ==> exists|now: Option<u64>| #[trigger]
            login_outcome(lookup@, accepted_by(lookup@, password@), now, key@) == Err::<
                SessionView,
                LoginError,
            >(e),
        r is Ok ==> accepted_by(lookup@, password@),
        lookup@ is Missing ==> r == Err::<Session, LoginError>(LoginError::UserNotFound),
        lookup@ is Failed ==> r == Err::<Session, LoginError>(LoginError::StoreUnavailable),
        lookup@ is Found && !accepted_by(lookup@, password@) ==> r == Err::<Session, LoginError>(
            LoginError::IncorrectPassword,
        ),
{
    let ghost asked = lookup@;
    let accepted = match &lookup {
        Lookup::Found(user) => password_matches(password, user.password_hash.as_str()),
        _ => false,
    };
    assert(accepted == accepted_by(asked, password@));
    let now = unix_now();
    let r = decide_login(lookup, accepted, now, key);
    let ghost ended = r;
    proof {
        match ended {
            Ok(session) => {
                assert(login_outcome(asked, accepted_by(asked, password@), now, key@) == Ok::<
                    SessionView,
                    LoginError,
                >(session@));
            },
            Err(e) => {
                assert(login_outcome(asked, accepted_by(asked, password@), now, key@) == Err::<
                    SessionView,
                    LoginError,
                >(e));
            },
        }
    }
    r
}

/// The JSON body for a login that ended in `outcome`.
pub fn json_response(outcome: Result<Session, LoginError>) -> (r: LoginResponse)
    ensures
        outcome matches Ok(session) ==> r@ == json_body(Ok(session@)),
        outcome matches Err(e) ==> r@ == json_body(Err(e)),
{
    match outcome {
        Ok(session) => LoginResponse::success(session.token, &session.claims),
        Err(e) => LoginResponse::error(e.message()),
    }
}

/// The cookie that carries `token`. `secure` says whether the cookie is
/// kept to encrypted transport.
pub fn session_cookie(token: String, secure: bool) -> (cookie: SessionCookie)
    ensures
        cookie@ == cookie_for(token@, secure),
{
    SessionCookie {
        name: "jwt_token".to_owned(),
        value: token,
        http_only: true,
        same_site: SameSite::Lax,
        path: "/".to_owned(),
        max_age: 86400,
        secure,
    }
}

/// The answer to a form login that ended in `outcome`: the cookie and the
/// way to the protected page, or a refusal that does not say whether the
/// e-mail address or the password was wrong.
pub fn form_response(outcome: Result<Session, LoginError>, secure: bool) -> (r: Result<
    FormAccepted,
    Refusal,
>)
    ensures
        outcome matches Ok(session) ==> (r matches Ok(accepted) && form_answer(
            Ok(session@),
            secure,
        ) == Ok::<FormAcceptedView, Refusal>(accepted@)),
        outcome matches Err(e) ==> r == Err::<FormAccepted, Refusal>(refusal(e)),
{
    match outcome {
        Ok(session) => Ok(
            FormAccepted {
                cookie: session_cookie(session.token, secure),
                redirect: "/balance".to_owned(),
            },
        ),
        Err(e) => Err(e.refusal()),
    }
}

/// A login with a JSON body: the body says whether the user was not found,
/// the password was wrong or the server failed.
pub fn login_json(credentials: &LoginJson, lookup: Lookup, key: &[u8]) -> (r: LoginResponse)
    ensures
        exists|now: Option<u64>| #[trigger]
            json_body(
                login_outcome(lookup@, accepted_by(lookup@, credentials.password@), now, key@),
            ) == r@,
        r.success ==> accepted_by(lookup@, credentials.password@),
        lookup@ is Missing ==> r@ == json_body(Err(LoginError::UserNotFound)),
        lookup@ is Failed ==> r@ == json_body(Err(LoginError::StoreUnavailable)),
        lookup@ is Found && !accepted_by(lookup@, credentials.password@) ==> r@ == json_body(
            Err(LoginError::IncorrectPassword),
        ),
{
    let ghost asked = lookup@;
    let outcome = attempt_login(lookup, credentials.password.as_str(), key);
    let ghost ended = outcome;
    let r = json_response(outcome);
    proof {
        match ended {
            Ok(session) => {
                let now = choose|now: Option<u64>| #[trigger]
                    login_outcome(asked, accepted_by(asked, credentials.password@), now, key@)
                        == Ok::<SessionView, LoginError>(session@);
                assert(json_body(
                    login_outcome(asked, accepted_by(asked, credentials.password@), now, key@),
                ) == r@);
            },
            Err(e) => {
                let now = choose|now: Option<u64>| #[trigger]
                    login_outcome(asked, accepted_by(asked, credentials.password@), now, key@)
                        == Err::<SessionView, LoginError>(e);
                assert(json_body(
                    login_outcome(asked, accepted_by(asked, credentials.password@), now, key@),
                ) == r@);
            },
        }
    }
    r
}

/// A login with a form: the token is set as a cookie and the user is sent
/// to the protected page.
pub fn login_form(form: &LoginForm, lookup: Lookup, key: &[u8], secure: bool) -> (r: Result<
    FormAccepted,
    Refusal,
>)
    ensures
        r is Ok ==> accepted_by(lookup@, form.password@),
        r matches Ok(accepted) ==> exists|now: Option<u64>| #[trigger]
            form_answer(
                login_outcome(lookup@, accepted_by(lookup@, form.password@), now, key@),
                secure,
            ) == Ok::<FormAcceptedView, Refusal>(accepted@),
        r matches Err(e) ==> exists|now: Option<u64>| #[trigger]
            form_answer(
                login_outcome(lookup@, accepted_by(lookup@, form.password@), now, key@),
                secure,
            ) == Err::<FormAcceptedView, Refusal>(e),
        lookup@ is Missing ==> r == Err::<FormAccepted, Refusal>(Refusal::Unauthorized),
        lookup@ is Failed ==> r == Err::<FormAccepted, Refusal>(Refusal::InternalServerError),
        lookup@ is Found && !accepted_by(lookup@, form.password@) ==> r == Err::<
            FormAccepted,
            Refusal,
        >(Refusal::Unauthorized),
{
    let ghost asked = lookup@;
    let outcome = attempt_login(lookup, form.password.as_str(), key);
    let ghost ended = outcome;
    let r = form_response(outcome, secure);
    proof {
        match ended {
            Ok(session) => {
                let now = choose|now: Option<u64>| #[trigger]
                    login_outcome(asked, accepted_by(asked, form.password@), now, key@) == Ok::<
                        SessionView,
                        LoginError,
                    >(session@);
                assert(form_answer(
                    login_outcome(asked, accepted_by(asked, form.password@), now, key@),
                    secure,
                ) == Ok::<FormAcceptedView, Refusal>(r->Ok_0@));
            },
            Err(e) => {
                let now = choose|now: Option<u64>| #[trigger]
                    login_outcome(asked, accepted_by(asked, form.password@), now, key@) == Err::<
                        SessionView,
                        LoginError,
                    >(e);
                assert(form_answer(
                    login_outcome(asked, accepted_by(asked, form.password@), now, key@),
                    secure,
                ) == Err::<FormAcceptedView, Refusal>(refusal(e)));
            },
        }
    }
    r
}

/// Logging out removes the cookie and sends the user to the login page.
/// The token itself stays valid until it expires.
pub fn logout() -> (r: LoggedOut)
    ensures
        r.cookie@ == "jwt_token"@,
        r.redirect@ == "/login"@,
{
    LoggedOut { cookie: "jwt_token".to_owned(), redirect: "/login".to_owned() }
}

} // verus!
