//! Users, passwords and tokens: who may do what, and until when.

use crate::database::Database;
use crate::error::ServiceError;
use crate::model::{User, UserAuth, WSToken};
use crate::text::same;
use crate::time::{Timestamp, LATEST_SECS};
use hmac::{Hmac, NewMac};
use jwt::{SignWithKey, VerifyWithKey};
use rand::rngs::OsRng;
use rand::RngCore;
use serde_json::value::RawValue;
use sha2::{Digest, Sha256, Sha512};
use vstd::prelude::*;
use vstd::utf8::encode_utf8;

verus! {

/// The bytes of a salt.
pub const SALT_LEN: usize = 64;

/// What the SHA-512 function gives for a message.
pub uninterp spec fn sha512(message: Seq<u8>) -> Seq<u8>;

/// Calls `update` of `sha2`'s `Sha512` with `first`, then with `second`, and
/// `finalize`: the hash, of 64 bytes, of the two in a row.
#[verifier::external_body]
fn sha512_of(first: &[u8], second: &[u8]) -> (r: Vec<u8>)
    ensures
        r@ == sha512(first@ + second@),
        r@.len() == 64,
{
    let mut hasher = Sha512::new();
    hasher.update(first);
    hasher.update(second);
    hasher.finalize().to_vec()
}

/// Calls `try_fill_bytes` of `rand`'s `OsRng` for so many bytes. They are drawn
/// anew each time; nothing comes if the system has no randomness to give.
#[verifier::external_body]
fn random_bytes(len: usize) -> (r: Option<Vec<u8>>)
    ensures
        r matches Some(bytes) ==> bytes@.len() == len,
{
    let mut bytes: Vec<u8> = vec![0u8; len];
    OsRng.try_fill_bytes(&mut bytes).ok()?;
    Some(bytes)
}

/// The token that `jwt` makes of claims in JSON with a key for HMAC-SHA-256, if
/// they are JSON.
pub uninterp spec fn jwt_token(key: Seq<u8>, claims: Seq<char>) -> Option<Seq<char>>;

/// The claims in JSON that `jwt` finds in a token that was signed with the key for
/// HMAC-SHA-256, if it was.
pub uninterp spec fn jwt_claims(key: Seq<u8>, token: Seq<char>) -> Option<Seq<char>>;

/// Whether the text starts and ends as a JSON object does, without white space
/// around it.
pub open spec fn in_braces(text: Seq<char>) -> bool {
    text.len() >= 2 && text[0] == '{' && text.last() == '}'
}

/// Calls `sign_with_key` of `jwt` on claims in JSON, which `serde_json` carries as
/// they are written, with a `Hmac<Sha256>` of the key. The token depends on the
/// key and the claims alone. The claims are found again in a token of theirs by
/// the same key, if they are written without white space around them.
#[verifier::external_body]
fn sign_claims(key: &[u8], claims: &str) -> (r: Option<String>)
    ensures
        match r {
            Some(token) => jwt_token(key@, claims@) == Some(token@),
            None => jwt_token(key@, claims@) is None,
        },
        r matches Some(token) ==> (in_braces(claims@) ==> jwt_claims(key@, token@) == Some(claims@)),
{
    let mac: Hmac<Sha256> = Hmac::new_from_slice(key).ok()?;
    let raw: Box<RawValue> = RawValue::from_string(claims.to_owned()).ok()?;
    raw.sign_with_key(&mac).ok()
}

/// Calls `verify_with_key` of `jwt` on a token with a `Hmac<Sha256>` of the key,
/// for claims in JSON, which `serde_json` carries as they are written. What is
/// found depends on the key and the token alone.
#[verifier::external_body]
fn verify_claims(key: &[u8], token: &str) -> (r: Option<String>)
    ensures
        match r {
            Some(claims) => jwt_claims(key@, token@) == Some(claims@),
            None => jwt_claims(key@, token@) is None,
        },
{
    let mac: Hmac<Sha256> = Hmac::new_from_slice(key).ok()?;
    let raw: Box<RawValue> = token.verify_with_key(&mac).ok()?;
    Some(raw.get().to_owned())
}

/// What is stored of a password.
pub open spec fn password_hash(password: Seq<char>, salt: Seq<u8>) -> Seq<u8> {
    sha512(encode_utf8(password) + salt)
}

/// Whether the password is that of the user.
pub open spec fn lets_in(user: User, password: Seq<char>) -> bool {
    user.pass@ == password_hash(password, user.salt@)
}

/// A new user can log in with the password that was given for them.
pub proof fn created_user_can_log_in(user: User, password: Seq<char>, salt: Seq<u8>)
    requires
        user.salt@ == salt,
        user.pass@ == password_hash(password, salt),
    ensures
        lets_in(user, password),
{
}

/// A signed token is found to be one of the claims that were signed.
pub proof fn signed_claims_are_found(
    key: Seq<u8>,
    claims: Seq<char>,
    token: Seq<char>,
    found: Option<Seq<char>>,
)
    requires
        in_braces(claims),
        is_token(key, claims, token),
        found == jwt_claims(key, token),
    ensures
        found == Some(claims),
{
}

/// Whether the token is one of the claims, by which they are found again if they
/// are written without white space around them.
pub open spec fn is_token(key: Seq<u8>, claims: Seq<char>, token: Seq<char>) -> bool {
    &&& jwt_token(key, claims) == Some(token)
    &&& in_braces(claims) ==> jwt_claims(key, token) == Some(claims)
}

/// Signs claims in JSON. What is not JSON is not signed.
pub fn sign(key: &[u8], claims: &str) -> (r: Option<String>)
    ensures
        match r {
            Some(token) => is_token(key@, claims@, token@),
            None => jwt_token(key@, claims@) is None,
        },
{
    sign_claims(key, claims)
}

/// The claims in JSON of a token that was signed with the key.
pub fn verify(key: &[u8], token: &str) -> (r: Option<String>)
    ensures
        match r {
            Some(claims) => jwt_claims(key@, token@) == Some(claims@),
            None => jwt_claims(key@, token@) is None,
        },
{
    verify_claims(key, token)
}

fn same_bytes(a: &Vec<u8>, b: &Vec<u8>) -> (r: bool)
    ensures
        r == (a@ == b@),
{
    if a.len() != b.len() {
        return false;
    }
    let mut i: usize = 0;
    while i < a.len()
        invariant
            i <= a@.len(),
            a@.len() == b@.len(),
            forall|j: int| 0 <= j < i ==> #[trigger] a@[j] == b@[j],
        decreases a@.len() - i,
    {
        if a[i] != b[i] {
            assert(a@[i as int] != b@[i as int]);
            return false;
        }
        i += 1;
    }
    assert(a@ =~= b@);
    true
}

/// What a password is stored as with a salt.
pub fn hash_password(password: &str, salt: &Vec<u8>) -> (r: Vec<u8>)
    ensures
        r@ == password_hash(password@, salt@),
        r@ == sha512(encode_utf8(password@) + salt@),
        r@.len() == 64,
{
    sha512_of(password.as_bytes(), salt.as_slice())
}

/// The account of a new user, with the salt and the hash of their password.
pub fn new_user(username: String, pass: Vec<u8>, salt: Vec<u8>, admin: bool) -> (r: User)
    ensures
        r.username == username,
        r.pass == pass,
        r.salt == salt,
        r.admin == admin,
{
    User { username, pass, salt, admin }
}

/// Who is logged in, where `hash` is that of the password that was given: the
/// user, if it is the one that is stored.
pub fn logged_in(user: &User, hash: &Vec<u8>, expires: Timestamp) -> (r: Option<UserAuth>)
    ensures
        r is Some <==> user.pass@ == hash@,
        r matches Some(auth) ==> {
            &&& auth.username@ == user.username@
            &&& auth.admin == user.admin
            &&& auth.expires == expires
        },
{
    if same_bytes(&user.pass, hash) {
        Some(UserAuth { username: user.username.clone(), admin: user.admin, expires })
    } else {
        None
    }
}

impl Database {
    /// The first account of a store, if it has none: its name, its password, and
    /// whether it may do everything.
    pub fn check_default(has_user: bool) -> (r: Option<(String, String, bool)>)
        ensures
            r is None <==> has_user,
            r matches Some(account) ==> account.0@ == "admin"@ && account.1@ == "admin"@ && account.2,
    {
        if has_user {
            None
        } else {
            Some(("admin".to_owned(), "admin".to_owned(), true))
        }
    }

    /// The account of a new user, under a salt that was drawn for it. There is
    /// none if the system has no randomness to give.
    pub fn create_user(username: String, password: String, admin: bool) -> (r: Option<User>)
        ensures
            r matches Some(user) ==> {
                &&& user.username == username
                &&& user.admin == admin
                &&& user.salt@.len() == SALT_LEN
                &&& user.pass@ == password_hash(password@, user.salt@)
                &&& lets_in(user, password@)
            },
    {
        Database::salted_user(username, password, random_bytes(SALT_LEN), admin)
    }

    /// The account of a new user, under the salt that was drawn for it. There is
    /// none if no salt could be drawn.
    pub fn salted_user(username: String, password: String, salt: Option<Vec<u8>>, admin: bool) -> (r: Option<User>)
        ensures
            r is Some <==> salt is Some,
            r matches Some(user) ==> {
                &&& user.username == username
                &&& user.admin == admin
                &&& user.salt == salt->0
                &&& user.pass@ == password_hash(password@, salt->0@)
            },
    {
        match salt {
            Some(salt) => {
                let pass: Vec<u8> = hash_password(password.as_str(), &salt);
                Some(new_user(username, pass, salt, admin))
            },
            None => None,
        }
    }

    /// Who is logged in with that password, where `user` is what is stored under
    /// the name that was given.
    pub fn login(user: Option<&User>, password: &String, expires: Timestamp) -> (r: Option<UserAuth>)
        ensures
            r is Some <==> user is Some && lets_in(*user->0, password@),
            r matches Some(auth) ==> {
                &&& auth.username@ == user->0.username@
                &&& auth.admin == user->0.admin
                &&& auth.expires == expires
            },
    {
        match user {
            Some(user) => {
                let hash: Vec<u8> = hash_password(password.as_str(), &user.salt);
                logged_in(user, &hash, expires)
            },
            None => None,
        }
    }

    /// Whether somebody who is logged in still is, where `stored` is what is stored
    /// under their name. What they may do is then what is stored.
    pub fn check_auth(user: &mut UserAuth, now: &Timestamp, stored: Option<&User>) -> (r: bool)
        ensures
            r == (!now.is_after(old(user).expires) && stored is Some),
            *final(user) == if r {
                UserAuth { admin: stored->0.admin, ..*old(user) }
            } else {
                *old(user)
            },
    {
        if now.after(&user.expires) {
            return false;
        }
        match stored {
            Some(found) => {
                user.admin = found.admin;
                true
            },
            None => false,
        }
    }

    /// Whether a token is still good, where `known` tells whether there is a user of
    /// its name.
    pub fn check_token(token: &WSToken, now: &Timestamp, known: bool) -> (r: bool)
        ensures
            r == (!now.is_after(token.expires) && known),
    {
        !now.after(&token.expires) && known
    }
}

/// The seconds for which somebody stays logged in.
pub const LOGIN_SECS: i64 = 1_209_600;

/// The seconds for which a token for a socket is good.
pub const SOCKET_SECS: i64 = 300;

impl UserAuth {
    /// Who makes a request, where `claims` is what their token says, if they have
    /// one. Nobody who is not logged in any more is let through.
    pub fn from_request(claims: Option<UserAuth>, now: &Timestamp, stored: Option<&User>) -> (r:
        Result<UserAuth, ServiceError>)
        ensures
            match r {
                Ok(user) => {
                    &&& claims is Some && stored is Some
                    &&& !now.is_after(claims->0.expires)
                    &&& user == (UserAuth { admin: stored->0.admin, ..claims->0 })
                },
                Err(error) => {
                    &&& error is Unauthorized
                    &&& claims is None || stored is None || now.is_after(claims->0.expires)
                },
            },
    {
        match claims {
            Some(found) => {
                let mut user: UserAuth = found;
                if Database::check_auth(&mut user, now, stored) {
                    Ok(user)
                } else {
                    Err(ServiceError::Unauthorized)
                }
            },
            None => Err(ServiceError::Unauthorized),
        }
    }

    /// Whether the time so many seconds from now is in the calendar.
    pub open spec fn can_extend(now: Timestamp, secs: int) -> bool {
        now.secs + secs <= LATEST_SECS
    }

    /// Whether a login from now on ends in the calendar.
    pub fn may_extend(now: &Timestamp) -> (r: bool)
        ensures
            r == UserAuth::can_extend(*now, LOGIN_SECS as int),
    {
        now.secs <= LATEST_SECS - LOGIN_SECS
    }

    /// Keeps somebody logged in for two weeks from now on.
    pub fn whoami(&mut self, now: &Timestamp)
        requires
            UserAuth::can_extend(*now, LOGIN_SECS as int),
        ensures
            *final(self) == (UserAuth { expires: now.later_by(LOGIN_SECS as int), ..*old(self) }),
    {
        self.expires = now.plus_secs(LOGIN_SECS);
    }

    /// A token with which somebody who is logged in may open a socket.
    pub fn auth_ws(&self, now: &Timestamp) -> (r: WSToken)
        requires
            UserAuth::can_extend(*now, LOGIN_SECS as int),
        ensures
            r.username@ == self.username@,
            r.expires == now.later_by(SOCKET_SECS as int),
            r.scope@ == "websocket"@,
    {
        WSToken {
            username: self.username.clone(),
            expires: now.plus_secs(SOCKET_SECS),
            scope: "websocket".to_owned(),
        }
    }

    /// The account that somebody adds: its name, its password, and whether it may
    /// do everything, which it may not. Only who may do everything adds accounts.
    pub fn add_user(&self, username: String, password: String) -> (r: Result<
        (String, String, bool),
        ServiceError,
    >)
        ensures
            r is Ok <==> self.admin,
            r matches Ok(account) ==> account.0 == username && account.1 == password && !account.2,
            r matches Err(error) ==> error is Unauthorized,
    {
        if self.admin {
            Ok((username, password, false))
        } else {
            Err(ServiceError::Unauthorized)
        }
    }
}

impl WSToken {
    /// Whether a socket may be opened, where `claims` is what the token says, if
    /// there is one, and `known` tells whether there is a user of its name.
    pub fn from_request(claims: Option<WSToken>, now: &Timestamp, known: bool) -> (r: Result<
        WSToken,
        ServiceError,
    >)
        ensures
            match r {
                Ok(token) => {
                    &&& claims == Some(token)
                    &&& known
                    &&& !now.is_after(token.expires)
                    &&& token.scope@ == "websocket"@
                },
                Err(error) => {
                    &&& error is Unauthorized
                    &&& claims is None || !known || now.is_after(claims->0.expires)
                        || claims->0.scope@ != "websocket"@
                },
            },
    {
        match claims {
            Some(token) => {
                if Database::check_token(&token, now, known) && same(
                    token.scope.as_str(),
                    "websocket",
                ) {
                    Ok(token)
                } else {
                    Err(ServiceError::Unauthorized)
                }
            },
            None => Err(ServiceError::Unauthorized),
        }
    }
}

/// The answer to a login, where `user` is who is logged in by what was given.
pub fn login(user: Option<UserAuth>) -> (r: Result<UserAuth, ServiceError>)
    ensures
        match r {
            Ok(auth) => user == Some(auth),
            Err(error) => user is None && error is Unauthorized,
        },
{
    match user {
        Some(auth) => Ok(auth),
        None => Err(ServiceError::Unauthorized),
    }
}

/// A token for a socket opens one for as long as it is good, and not after.
pub proof fn socket_token_is_good_for_a_while(now: Timestamp, later: Timestamp, expires: Timestamp)
    requires
        UserAuth::can_extend(now, LOGIN_SECS as int),
        expires == now.later_by(SOCKET_SECS as int),
        now.nanos < 1_000_000_000,
        later.nanos < 1_000_000_000,
    ensures
        later.secs < now.secs + SOCKET_SECS ==> !later.is_after(expires),
        later.secs > now.secs + SOCKET_SECS ==> later.is_after(expires),
{
}

/// A password lets somebody in exactly when the bytes of its text followed by their
/// salt have the hash that is stored for them, so all that is needed to let them in
/// is stored, whatever they are called and may do.
pub proof fn password_lets_in_by_its_hash(user: User, other: User, password: Seq<char>)
    ensures
        lets_in(user, password) <==> user.pass@ == sha512(encode_utf8(password) + user.salt@),
        user.pass@ == other.pass@ && user.salt@ == other.salt@ ==> lets_in(user, password)
            == lets_in(other, password),
{
}

/// A login lasts for two weeks from when it was last used, to the very nanosecond, and
/// a token for a socket for five minutes; until the end of the calendar both can be
/// given.
pub proof fn logins_last_two_weeks(now: Timestamp, later: Timestamp)
    requires
        now.secs + 1_209_600 <= 8_210_266_876_799,
        now.nanos < 1_000_000_000,
        later.nanos < 1_000_000_000,
    ensures
        UserAuth::can_extend(now, LOGIN_SECS as int),
        later.is_after(now.later_by(LOGIN_SECS as int)) <==> (later.secs - now.secs) * 1_000_000_000
            + (later.nanos - now.nanos) > 1_209_600 * 1_000_000_000,
        later.is_after(now.later_by(SOCKET_SECS as int)) <==> (later.secs - now.secs)
            * 1_000_000_000 + (later.nanos - now.nanos) > 300 * 1_000_000_000,
{
}

/// A login that would last past the end of the calendar cannot be given.
pub proof fn no_login_past_the_calendar(now: Timestamp)
    ensures
        UserAuth::can_extend(now, LOGIN_SECS as int) <==> now.secs + 1_209_600
            <= 8_210_266_876_799,
{
}

/// A token is the one that is made of the claims with the key, and claims that begin
/// and end as a JSON object does are found again in it.
pub proof fn token_is_that_of_its_claims(key: Seq<u8>, claims: Seq<char>, token: Seq<char>)
    requires
        is_token(key, claims, token),
    ensures
        jwt_token(key, claims) == Some(token),
        claims.len() >= 2 && claims[0] == '{' && claims[claims.len() - 1] == '}' ==> jwt_claims(
            key,
            token,
        ) == Some(claims),
{
}

} // verus!
