//! The payload of a session token: who the user is, whether they are an
//! administrator, and from when until when the token holds.

use crate::clock::unix_now;
use crate::text::{i32_text, signed_decimal_text};
use vstd::prelude::*;

verus! {

/// The lifetime of a token where none is asked for: 24 hours, in seconds.
pub const DEFAULT_LIFETIME: usize = 86400;

/// The claims of a token.
#[derive(Debug, Clone)]
pub struct Claims {
    /// The user's id, in decimal digits.
    pub sub: String,
    /// The user's e-mail address.
    pub email: String,
    /// The user's name.
    pub name: String,
    /// Whether the user is an administrator.
    pub is_admin: bool,
    /// The second at which the token expires.
    pub exp: usize,
    /// The second at which the token was issued.
    pub iat: usize,
}

/// Claims as a mathematical value.
pub struct ClaimsView {
    pub sub: Seq<char>,
    pub email: Seq<char>,
    pub name: Seq<char>,
    pub is_admin: bool,
    pub exp: usize,
    pub iat: usize,
}

impl View for Claims {
    type V = ClaimsView;

    open spec fn view(&self) -> ClaimsView {
        ClaimsView {
            sub: self.sub@,
            email: self.email@,
            name: self.name@,
            is_admin: self.is_admin,
            exp: self.exp,
            iat: self.iat,
        }
    }
}

impl ClaimsView {
    /// Claims expire after they are issued.
    pub open spec fn consistent(self) -> bool {
        self.iat < self.exp
    }

    /// Whether a token with these claims holds at the second `now`: it
    /// expires after it was issued, and after `now`.
    pub open spec fn live_at(self, now: u64) -> bool {
        self.iat < self.exp && now < self.exp
    }
}

/// The claims of the user `user_id`, issued at the second `now` for
/// `lifetime` seconds.
pub open spec fn issued(
    user_id: i32,
    email: Seq<char>,
    name: Seq<char>,
    is_admin: bool,
    now: usize,
    lifetime: usize,
) -> ClaimsView
    recommends
        now + lifetime <= usize::MAX,
{
    ClaimsView {
        sub: signed_decimal_text(user_id as int),
        email,
        name,
        is_admin,
        exp: (now + lifetime) as usize,
        iat: now,
    }
}

impl Claims {
    /// Claims expire after they are issued.
    pub open spec fn consistent(&self) -> bool {
        self@.consistent()
    }

    /// The claims of the user `user_id`, issued at the second `now` for
    /// `lifetime` seconds.
    pub fn issued_at(
        user_id: i32,
        email: String,
        name: String,
        is_admin: bool,
        now: usize,
        lifetime: usize,
    ) -> (c: Claims)
        requires
            lifetime > 0,
            now + lifetime <= usize::MAX,
        ensures
            c@ == issued(user_id, email@, name@, is_admin, now, lifetime),
            c.consistent(),
    {
        Claims { sub: i32_text(user_id), email, name, is_admin, iat: now, exp: now + lifetime }
    }

    /// The claims of the user `user_id`, issued at the second `now` for
    /// `lifetime` seconds, where `now` is a second that the clock gave:
    /// `None` where the clock gave none or the expiry is past the
    /// representable seconds.
    pub fn issued_by_clock(
        user_id: i32,
        email: String,
        name: String,
        is_admin: bool,
        now: Option<u64>,
        lifetime: usize,
    ) -> (r: Option<Claims>)
        requires
            lifetime > 0,
        ensures
            r is Some <==> (now matches Some(t) && t + lifetime <= usize::MAX),
            r matches Some(c) ==> c@ == issued(
                user_id,
                email@,
                name@,
                is_admin,
                now->0 as usize,
                lifetime,
            ) && c.consistent(),
    {
        match now {
            None => None,
            Some(t) => {
                if t > usize::MAX as u64 || lifetime > usize::MAX - (t as usize) {
                    None
                } else {
                    Some(Claims::issued_at(user_id, email, name, is_admin, t as usize, lifetime))
                }
            },
        }
    }

    /// Claims issued now, for 24 hours. `None` where the clock cannot be
    /// read or the expiry is past the representable seconds.
    pub fn new(user_id: i32, email: String, name: String, is_admin: bool) -> (r: Option<Claims>)
        ensures
            r matches Some(c) ==> c@ == issued(
                user_id,
                email@,
                name@,
                is_admin,
                c.iat,
                DEFAULT_LIFETIME,
            ) && c.exp == c.iat + DEFAULT_LIFETIME,
    {
        Claims::issued_by_clock(user_id, email, name, is_admin, unix_now(), DEFAULT_LIFETIME)
    }

    /// Claims issued now, for `expiration_secs` seconds. `None` where the
    /// clock cannot be read or the expiry is past the representable seconds.
    pub fn with_expiration(
        user_id: i32,
        email: String,
        name: String,
        is_admin: bool,
        expiration_secs: usize,
    ) -> (r: Option<Claims>)
        requires
            expiration_secs > 0,
        ensures
            r matches Some(c) ==> c@ == issued(
                user_id,
                email@,
                name@,
                is_admin,
                c.iat,
                expiration_secs,
            ) && c.exp == c.iat + expiration_secs,
    {
        Claims::issued_by_clock(user_id, email, name, is_admin, unix_now(), expiration_secs)
    }

    /// A copy of the claims.
    pub fn duplicate(&self) -> (c: Claims)
        ensures
            c@ == self@,
    {
        Claims {
            sub: self.sub.clone(),
            email: self.email.clone(),
            name: self.name.clone(),
            is_admin: self.is_admin,
            exp: self.exp,
            iat: self.iat,
        }
    }
}

} // verus!
