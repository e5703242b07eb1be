//! Admin sessions: logging in against the configured credentials, the
//! session cookie, logging out, and checking a request's session.
//!
//! Time is a count of milliseconds on the caller's monotonic clock.

use vstd::prelude::*;
use vstd::string::*;
use vstd::hash_map::StringHashMap;
use crate::text::text_eq;

verus! {

/// How long a session lasts: 24 hours, in milliseconds.
pub const SESSION_TTL_MILLIS: u64 = 86_400_000;

/// The open sessions: session id to expiry time.
pub struct SessionStore {
    sessions: StringHashMap<u64>,
}

impl View for SessionStore {
    type V = Map<Seq<char>, u64>;

    closed spec fn view(&self) -> Map<Seq<char>, u64> {
        self.sessions@
    }
}

/// When a session opened at `now` expires.
pub open spec fn expiry_of(now: u64) -> u64 {
    (now + SESSION_TTL_MILLIS) as u64
}

/// Session `id` is open and not expired at `now`.
pub open spec fn session_valid(sessions: Map<Seq<char>, u64>, id: Seq<char>, now: u64) -> bool {
    sessions.contains_key(id) && now <= sessions[id]
}

/// The cookie that carries session `id`; outside development mode it is
/// also `Secure` and `SameSite=Strict`.
pub open spec fn session_cookie_text(id: Seq<char>, dev_mode: bool) -> Seq<char> {
    "session_id="@ + id + if dev_mode {
        "; HttpOnly; Path=/; Max-Age=86400"@
    } else {
        "; HttpOnly; Path=/; Max-Age=86400; Secure; SameSite=Strict"@
    }
}

/// The cookie that clears the session cookie.
pub open spec fn cleared_cookie_text() -> Seq<char> {
    "session_id=; HttpOnly; Path=/; Max-Age=0; Expires=Thu, 01 Jan 1970 00:00:00 GMT"@
}

impl SessionStore {
    /// No open session.
    pub fn new() -> (s: SessionStore)
        ensures
            s@ == Map::<Seq<char>, u64>::empty(),
    {
        SessionStore { sessions: StringHashMap::new() }
    }

    /// Opens session `id` at `now`; it expires 24 hours later.
    pub fn open(&mut self, id: String, now: u64)
        requires
            now <= u64::MAX - SESSION_TTL_MILLIS,
        ensures
            final(self)@ == old(self)@.insert(id@, expiry_of(now)),
    {
        self.sessions.insert(id, now + SESSION_TTL_MILLIS);
    }

    /// Closes session `id` (nothing happens when it is not open).
    pub fn close(&mut self, id: &str)
        ensures
            final(self)@ == old(self)@.remove(id@),
    {
        self.sessions.remove(id);
    }

    /// Whether session `id` is open and not expired at `now`.
    pub fn is_valid(&self, id: &str, now: u64) -> (r: bool)
        ensures
            r == session_valid(self@, id@, now),
    {
        match self.sessions.get(id) {
            Some(expires_at) => now <= *expires_at,
            None => false,
        }
    }
}

/// The session cookie for session `id`.
pub fn session_cookie(id: &str, dev_mode: bool) -> (r: String)
    ensures
        r@ == session_cookie_text(id@, dev_mode),
{
    let mut c = String::from_str("session_id=");
    c.append(id);
    if dev_mode {
        c.append("; HttpOnly; Path=/; Max-Age=86400");
    } else {
        c.append("; HttpOnly; Path=/; Max-Age=86400; Secure; SameSite=Strict");
    }
    c
}

/// The cookie that clears the session cookie on logout.
pub fn cleared_cookie() -> (r: String)
    ensures
        r@ == cleared_cookie_text(),
{
    String::from_str("session_id=; HttpOnly; Path=/; Max-Age=0; Expires=Thu, 01 Jan 1970 00:00:00 GMT")
}

/// A bcrypt hash string as `bcrypt::hash` with the default cost writes it:
/// 60 characters, starting with `$2b$12$`.
pub open spec fn is_bcrypt_hash_text(h: Seq<char>) -> bool {
    h.len() == 60 && h.take(7) == "$2b$12$"@
}

/// What `bcrypt::verify` gives for `password` against the bcrypt hash
/// `hash`: whether it matches, or `None` when the hash cannot be used.
pub uninterp spec fn bcrypt_verification(password: Seq<char>, hash: Seq<char>) -> Option<bool>;

/// `bcrypt::verify` (on the password's UTF-8 bytes), its error dropped.
/// Claimed: the outcome depends on the password and the hash alone.
#[verifier::external_body]
fn bcrypt_verify(password: &str, hash: &str) -> (r: Option<bool>)
    ensures
        r == bcrypt_verification(password@, hash@),
{
    bcrypt::verify(password, hash).ok()
}

/// `bcrypt::hash` with `bcrypt::DEFAULT_COST` (12), its error dropped.  With
/// that cost it fails only when the OS gives no randomness for the salt, so
/// no input is promised success.  The salt is random, so the hash itself is
/// not named.  Claimed of a hash, as the crate's source writes it: 60
/// characters in the version 2b format with cost 12 (`$2b$12$`, then the
/// salt and the digest), and `bcrypt::verify` accepts the password
/// against it.
#[verifier::external_body]
fn bcrypt_hash(password: &str) -> (r: Option<String>)
    ensures
        r matches Some(h) ==> is_bcrypt_hash_text(h@) && bcrypt_verification(password@, h@)
            == Some(true),
{
    bcrypt::hash(password, bcrypt::DEFAULT_COST).ok()
}

/// A lower-case hexadecimal digit.
pub open spec fn is_lower_hex(c: char) -> bool {
    ('0' <= c && c <= '9') || ('a' <= c && c <= 'f')
}

/// The hyphenated text of a version 4 UUID: 36 characters, hyphens at
/// 8, 13, 18 and 23, lower-case hex digits elsewhere, the version digit `4`
/// at 14 and the variant digit (8, 9, a or b) at 19.
pub open spec fn is_uuid_v4_text(s: Seq<char>) -> bool {
    &&& s.len() == 36
    &&& s[8] == '-' && s[13] == '-' && s[18] == '-' && s[23] == '-'
    &&& forall|i: int|
        0 <= i < 36 && i != 8 && i != 13 && i != 18 && i != 23 ==> is_lower_hex(#[trigger] s[i])
    &&& s[14] == '4'
    &&& (s[19] == '8' || s[19] == '9' || s[19] == 'a' || s[19] == 'b')
}

/// `uuid::Uuid::new_v4` in its text form (`Display`, which writes the
/// hyphenated lower-case form).  Random, so only the form is claimed: the
/// version and variant bits that `new_v4` sets, in hyphenated text.
#[verifier::external_body]
fn random_uuid() -> (r: String)
    ensures
        is_uuid_v4_text(r@),
{
    uuid::Uuid::new_v4().to_string()
}

/// A fresh random identifier (UUID v4, hyphenated).
pub fn new_uuid() -> (r: String)
    ensures
        is_uuid_v4_text(r@),
{
    random_uuid()
}

/// The admin user name: the configured one, else "admin".
pub fn admin_username_or_default(configured: Option<String>) -> (r: String)
    ensures
        r@ == match configured {
            Some(u) => u@,
            None => "admin"@,
        },
{
    match configured {
        Some(u) => u,
        None => String::from_str("admin"),
    }
}

/// The bcrypt hash (random salt, default cost) of the admin password, or
/// `None` when hashing fails (the OS gave no randomness).  A hash is a
/// version 2b, cost 12 bcrypt string, and the password verifies against it.
pub fn hash_admin_password(password: &str) -> (r: Option<String>)
    ensures
        r matches Some(h) ==> is_bcrypt_hash_text(h@) && bcrypt_verification(password@, h@)
            == Some(true),
{
    bcrypt_hash(password)
}

/// How a login attempt's credentials compare with the admin's.
#[derive(Debug, Clone, PartialEq, Eq)]
pub enum CredentialCheck {
    Valid,
    Invalid,
    /// The password could not be checked against the stored hash.
    VerifyFailed,
}

/// The outcome of checking credentials, given the bcrypt verification.
pub open spec fn credential_check_of(
    username: Seq<char>,
    admin_username: Seq<char>,
    verification: Option<bool>,
) -> CredentialCheck {
    if username != admin_username {
        CredentialCheck::Invalid
    } else {
        match verification {
            Some(true) => CredentialCheck::Valid,
            Some(false) => CredentialCheck::Invalid,
            None => CredentialCheck::VerifyFailed,
        }
    }
}

/// Checks login credentials: the user name must be the admin's and the
/// password must verify against the admin's bcrypt hash (checked only when
/// the name matches).
pub fn check_credentials(username: &str, password: &str, admin_username: &str, admin_hash: &str) -> (r:
    CredentialCheck)
    ensures
        r == credential_check_of(
            username@,
            admin_username@,
            bcrypt_verification(password@, admin_hash@),
        ),
{
    if !text_eq(username, admin_username) {
        return CredentialCheck::Invalid;
    }
    match bcrypt_verify(password, admin_hash) {
        Some(true) => CredentialCheck::Valid,
        Some(false) => CredentialCheck::Invalid,
        None => CredentialCheck::VerifyFailed,
    }
}

/// Opens session `id` at `now` and gives the cookie that carries it.
pub fn open_session(store: &mut SessionStore, id: String, now: u64, dev_mode: bool) -> (cookie: String)
    requires
        now <= u64::MAX - SESSION_TTL_MILLIS,
    ensures
        final(store)@ == old(store)@.insert(id@, expiry_of(now)),
        cookie@ == session_cookie_text(id@, dev_mode),
{
    let cookie = session_cookie(id.as_str(), dev_mode);
    store.open(id, now);
    cookie
}

/// The answer to a login request.
#[derive(Debug, Clone, PartialEq, Eq)]
pub enum LoginOutcome {
    /// Logged in; the session cookie to set.
    Accepted(String),
    InvalidCredentials,
    VerifyFailed,
}

/// Handles a login: on valid credentials opens a session with a fresh
/// random id and answers with its cookie; otherwise no session changes.
pub fn login(
    store: &mut SessionStore,
    username: &str,
    password: &str,
    admin_username: &str,
    admin_hash: &str,
    now: u64,
    dev_mode: bool,
) -> (r: LoginOutcome)
    requires
        now <= u64::MAX - SESSION_TTL_MILLIS,
    ensures
        match credential_check_of(
            username@,
            admin_username@,
            bcrypt_verification(password@, admin_hash@),
        ) {
            CredentialCheck::Valid => exists|id: Seq<char>|
                is_uuid_v4_text(id) && r == LoginOutcome::Accepted(r->Accepted_0) && r->Accepted_0@ == session_cookie_text(
                    id,
                    dev_mode,
                ) && final(store)@ == old(store)@.insert(id, expiry_of(now)),
            CredentialCheck::Invalid => r is InvalidCredentials && final(store)@ == old(store)@,
            CredentialCheck::VerifyFailed => r is VerifyFailed && final(store)@ == old(store)@,
        },
{
    match check_credentials(username, password, admin_username, admin_hash) {
        CredentialCheck::Valid => {
            let id = new_uuid();
            let ghost idv = id@;
            let cookie = open_session(store, id, now, dev_mode);
            LoginOutcome::Accepted(cookie)
        },
        CredentialCheck::Invalid => LoginOutcome::InvalidCredentials,
        CredentialCheck::VerifyFailed => LoginOutcome::VerifyFailed,
    }
}

/// Handles a logout: closes the session the cookie names, if any, and
/// gives the cookie that clears it.
pub fn logout(store: &mut SessionStore, session_id: Option<&str>) -> (cookie: String)
    ensures
        match session_id {
            Some(id) => final(store)@ == old(store)@.remove(id@),
            None => final(store)@ == old(store)@,
        },
        cookie@ == cleared_cookie_text(),
{
    match session_id {
        Some(id) => store.close(id),
        None => {},
    }
    cleared_cookie()
}

/// Whether a request carrying the session cookie value `session_id` (if
/// any) at `now` is authorized: its session must be open and not expired.
pub fn authorize(store: &SessionStore, session_id: Option<&str>, now: u64) -> (r: bool)
    ensures
        r == match session_id {
            Some(id) => session_valid(store@, id@, now),
            None => false,
        },
{
    match session_id {
        Some(id) => store.is_valid(id, now),
        None => false,
    }
}


/// A session opened at `now` authorizes requests up to and including its
/// expiry, 24 hours later, and none after.
pub proof fn law_open_session_valid_until_expiry(
    sessions: Map<Seq<char>, u64>,
    id: Seq<char>,
    now: u64,
    t: u64,
)
    requires
        now <= u64::MAX - SESSION_TTL_MILLIS,
    ensures
        session_valid(sessions.insert(id, expiry_of(now)), id, t) <==> t <= now
            + SESSION_TTL_MILLIS,
{
}

/// The admin's own credentials are accepted: the admin name with a password
/// that verifies against the stored hash (as the hash made from it does).
pub proof fn law_admin_credentials_accepted(admin_username: Seq<char>, password: Seq<char>, hash: Seq<char>)
    requires
        bcrypt_verification(password, hash) == Some(true),
    ensures
        credential_check_of(admin_username, admin_username, bcrypt_verification(password, hash))
            == CredentialCheck::Valid,
{
}

/// Any other user name is refused, whatever the password.
pub proof fn law_other_user_refused(
    username: Seq<char>,
    admin_username: Seq<char>,
    verification: Option<bool>,
)
    requires
        username != admin_username,
    ensures
        credential_check_of(username, admin_username, verification) == CredentialCheck::Invalid,
{
}

/// After logging out, the session no longer authorizes anything.
pub proof fn law_closed_session_invalid(sessions: Map<Seq<char>, u64>, id: Seq<char>, t: u64)
    ensures
        !session_valid(sessions.remove(id), id, t),
{
}

/// Opening or closing one session leaves every other session as it was.
pub proof fn law_other_sessions_unaffected(
    sessions: Map<Seq<char>, u64>,
    id: Seq<char>,
    other: Seq<char>,
    expires_at: u64,
    t: u64,
)
    requires
        id != other,
    ensures
        session_valid(sessions.insert(id, expires_at), other, t) == session_valid(
            sessions,
            other,
            t,
        ),
        session_valid(sessions.remove(id), other, t) == session_valid(sessions, other, t),
{
}

} // verus!
