//! HTTP Basic credential handling for the OPDS endpoints.
//!
//! The route guard's decisions live here as plain functions: parsing the
//! `Authorization` header, decoding the base64 token, splitting the
//! `user:password` pair, and judging a stored password hash against the
//! presented password.  The session store and the user lookup stay with
//! the caller, which hands their results in as plain values.

use vstd::prelude::*;
use vstd::utf8::decode_utf8;
use vstd::utf8::valid_utf8;

verus! {

/// Why an authentication attempt was turned away.
#[derive(Clone, Copy, Debug, PartialEq, Eq, Structural)]
pub enum AuthError {
    /// The password check itself went wrong (malformed stored hash).
    BcryptError,
    /// Credentials missing a username or a password.
    BadCredentials,
    /// The `Authorization` header could not be parsed.
    BadRequest,
    /// The credentials name no known user, or the wrong password.
    Unauthorized,
    /// The session could not be read.
    InvalidSession,
}

impl AuthError {
    /// The human-readable text for this error.
    pub fn message(&self) -> (m: String)
        ensures
            (match self {
                AuthError::BcryptError => m@ == "Error during the authentication process"@,
                AuthError::BadCredentials => m@ == "Missing or malformed credentials"@,
                AuthError::BadRequest => m@ == "The Authorization header could no be parsed"@,
                AuthError::Unauthorized => m@ == "Unauthorized"@,
                AuthError::InvalidSession => m@ == "The session is not valid"@,
            }),
    {
        match self {
            AuthError::BcryptError => String::from_str("Error during the authentication process"),
            AuthError::BadCredentials => String::from_str("Missing or malformed credentials"),
            AuthError::BadRequest => String::from_str(
                "The Authorization header could no be parsed",
            ),
            AuthError::Unauthorized => String::from_str("Unauthorized"),
            AuthError::InvalidSession => String::from_str("The session is not valid"),
        }
    }
}

/// A username and password recovered from a Basic authorization token.
#[derive(Debug)]
pub struct DecodedCredentials {
    pub username: String,
    pub password: String,
}

/// What a user lookup hands back: the name and the stored bcrypt hash.
#[derive(Debug)]
pub struct UserRecord {
    pub username: String,
    pub hashed_password: String,
}

/// A signed-in identity.
#[derive(Debug)]
pub struct AuthenticatedUser {
    pub username: String,
}

/// Successful outcome of the OPDS request guard.
#[derive(Debug)]
pub struct OpdsAuth(pub AuthenticatedUser);

/// The characters before the first `:`.
pub open spec fn upto_colon(s: Seq<char>) -> Seq<char>
    decreases s.len(),
{
    if s.len() == 0 {
        s
    } else if s[0] == ':' {
        Seq::empty()
    } else {
        seq![s[0]] + upto_colon(s.skip(1))
    }
}

/// The characters after the first `:`; empty when there is none.
pub open spec fn rest_after_colon(s: Seq<char>) -> Seq<char>
    decreases s.len(),
{
    if s.len() == 0 {
        Seq::empty()
    } else if s[0] == ':' {
        s.skip(1)
    } else {
        rest_after_colon(s.skip(1))
    }
}

/// The username field of `user:password[:rest]`.
pub open spec fn username_of(s: Seq<char>) -> Seq<char> {
    upto_colon(s)
}

/// The password field: between the first and the second `:`.
pub open spec fn password_of(s: Seq<char>) -> Seq<char> {
    upto_colon(rest_after_colon(s))
}

proof fn lemma_upto_colon_char(s: Seq<char>, i: int)
    requires
        0 <= i <= s.len(),
        forall|k: int| 0 <= k < i ==> s[k] != ':',
        i == s.len() || s[i] == ':',
    ensures
        upto_colon(s) == s.subrange(0, i),
    decreases i,
{
    if i == 0 {
        assert(upto_colon(s) =~= s.subrange(0, 0));
    } else {
        assert(s[0] != ':');
        let t = s.skip(1);
        assert forall|k: int| 0 <= k < i - 1 implies t[k] != ':' by {
            assert(t[k] == s[k + 1]);
        }
        assert(i - 1 == t.len() || t[i - 1] == ':');
        lemma_upto_colon_char(t, i - 1);
        assert(seq![s[0]] + t.subrange(0, i - 1) =~= s.subrange(0, i));
    }
}

proof fn lemma_rest_after_colon_char(s: Seq<char>, i: int)
    requires
        0 <= i <= s.len(),
        forall|k: int| 0 <= k < i ==> s[k] != ':',
        i == s.len() || s[i] == ':',
    ensures
        rest_after_colon(s) == if i < s.len() {
            s.subrange(i + 1, s.len() as int)
        } else {
            Seq::<char>::empty()
        },
    decreases i,
{
    if i == 0 {
        if s.len() > 0 {
            assert(s.skip(1) =~= s.subrange(1, s.len() as int));
        }
    } else {
        let t = s.skip(1);
        assert forall|k: int| 0 <= k < i - 1 implies t[k] != ':' by {
            assert(t[k] == s[k + 1]);
        }
        assert(i - 1 == t.len() || t[i - 1] == ':');
        lemma_rest_after_colon_char(t, i - 1);
        if i < s.len() {
            assert(t.subrange(i, t.len() as int) =~= s.subrange(i + 1, s.len() as int));
        }
    }
}

/// First index at or past `from` holding `:`, or the length.
fn find_colon(s: &str, from: usize) -> (i: usize)
    requires
        from <= s@.len(),
    ensures
        from <= i <= s@.len(),
        forall|k: int| from <= k < i ==> s@[k] != ':',
        i < s@.len() ==> s@[i as int] == ':',
{
    let n = s.unicode_len();
    let mut i = from;
    while i < n && s.get_char(i) != ':'
        invariant
            from <= i <= n,
            n == s@.len(),
            forall|k: int| from <= k < i ==> s@[k] != ':',
        decreases n - i,
    {
        i += 1;
    }
    i
}

/// Split a decoded token of the shape `user:password[:...]`: the
/// username is everything before the first `:`, the password the field
/// between the first and second `:`.  Either field empty (a missing `:` leaves the password empty)
/// turns the credentials away.
pub fn split_credentials(decoded: &str) -> (r: Result<DecodedCredentials, AuthError>)
    ensures
        (match r {
            Ok(c) => {
                &&& username_of(decoded@).len() > 0
                &&& password_of(decoded@).len() > 0
                &&& c.username@ == username_of(decoded@)
                &&& c.password@ == password_of(decoded@)
            },
            Err(e) => {
                &&& e == AuthError::BadCredentials
                &&& (username_of(decoded@).len() == 0 || password_of(decoded@).len() == 0)
            },
        }),
{
    let n = decoded.unicode_len();
    let i = find_colon(decoded, 0);
    proof {
        lemma_upto_colon_char(decoded@, i as int);
        lemma_rest_after_colon_char(decoded@, i as int);
    }
    let username = String::from_str(decoded.substring_char(0, i));
    let password = if i < n {
        let j = find_colon(decoded, i + 1);
        proof {
            let rest = decoded@.subrange(i as int + 1, n as int);
            assert forall|k: int| 0 <= k < j - i - 1 implies rest[k] != ':' by {
                assert(rest[k] == decoded@[k + i + 1]);
            }
            assert(j - i - 1 == rest.len() || rest[j - i - 1] == ':');
            lemma_upto_colon_char(rest, j - i - 1);
            assert(rest.subrange(0, j - i - 1) =~= decoded@.subrange(i as int + 1, j as int));
        }
        String::from_str(decoded.substring_char(i + 1, j))
    } else {
        proof {
            assert(upto_colon(Seq::<char>::empty()) =~= Seq::<char>::empty());
        }
        String::new()
    };
    if username.as_str().is_empty() || password.as_str().is_empty() {
        Err(AuthError::BadCredentials)
    } else {
        Ok(DecodedCredentials { username, password })
    }
}

/// Relies on `String::from_utf8`: it returns `Ok` exactly on valid UTF-8
/// input and decodes it as vstd's UTF-8 model (`vstd::utf8`) describes.
#[verifier::external_body]
fn string_from_utf8(bytes: Vec<u8>) -> (r: Option<String>)
    ensures
        r is Some <==> valid_utf8(bytes@),
        (r matches Some(s) ==> s@ == decode_utf8(bytes@)),
{
    String::from_utf8(bytes).ok()
}

/// The text a credential byte string stands for: its UTF-8 decoding, or
/// nothing readable at all.
pub open spec fn credential_text(bytes: Seq<u8>) -> Seq<char> {
    if valid_utf8(bytes) {
        decode_utf8(bytes)
    } else {
        Seq::empty()
    }
}

/// Recover `user:password` credentials from raw token bytes.  Bytes that
/// are not UTF-8 are treated as empty text, exactly like an empty
/// username: the credentials are turned away as malformed.
pub fn decode_base64_credentials(bytes: Vec<u8>) -> (r: Result<DecodedCredentials, AuthError>)
    ensures
        (match r {
            Ok(c) => {
                &&& username_of(credential_text(bytes@)).len() > 0
                &&& password_of(credential_text(bytes@)).len() > 0
                &&& c.username@ == username_of(credential_text(bytes@))
                &&& c.password@ == password_of(credential_text(bytes@))
            },
            Err(e) => {
                &&& e == AuthError::BadCredentials
                &&& (username_of(credential_text(bytes@)).len() == 0 || password_of(
                    credential_text(bytes@),
                ).len() == 0)
            },
        }),
{
    match string_from_utf8(bytes) {
        Some(decoded) => split_credentials(decoded.as_str()),
        None => {
            proof {
                assert(upto_colon(Seq::<char>::empty()) =~= Seq::<char>::empty());
            }
            Err(AuthError::BadCredentials)
        },
    }
}

#[verifier::external_type_specification]
#[verifier::external_body]
pub struct ExBcryptError(bcrypt::BcryptError);

/// What bcrypt's check says of a password against a stored hash:
/// `Some(b)` for a well-formed hash, `None` where verification itself
/// errors (a malformed hash).  A function of the two texts alone.
pub uninterp spec fn bcrypt_accepts(password: Seq<char>, hash: Seq<char>) -> Option<bool>;

/// Relies on `bcrypt::verify`: it extracts the salt and cost from `hash`
/// and recomputes the hash of `password`, so the outcome is a function of
/// the two arguments alone.
#[verifier::external_body]
fn bcrypt_verify(password: &str, hash: &str) -> (r: Result<bool, bcrypt::BcryptError>)
    ensures
        (match r {
            Ok(b) => bcrypt_accepts(password@, hash@) == Some(b),
            Err(_) => bcrypt_accepts(password@, hash@) is None,
        }),
{
    bcrypt::verify(password, hash)
}

/// Judge a presented password against a stored bcrypt hash.  An error of
/// the check itself (a malformed stored hash) surfaces as
/// `AuthError::BcryptError`.
pub fn verify_password(hash: &str, password: &str) -> (r: Result<bool, AuthError>)
    ensures
        (match r {
            Ok(b) => bcrypt_accepts(password@, hash@) == Some(b),
            Err(e) => e == AuthError::BcryptError && bcrypt_accepts(password@, hash@) is None,
        }),
{
    match bcrypt_verify(password, hash) {
        Ok(b) => Ok(b),
        Err(_) => Err(AuthError::BcryptError),
    }
}

#[verifier::external_type_specification]
#[verifier::external_body]
pub struct ExDecodeError(base64::DecodeError);

/// What the standard-alphabet base64 decode makes of a text: the decoded
/// bytes, or `None` where the text is no base64.  A function of the text
/// alone.
pub uninterp spec fn base64_decode_of(s: Seq<char>) -> Option<Seq<u8>>;

/// Relies on base64's `STANDARD` engine decode (the padded standard
/// alphabet): the result is a function of the input text alone.
#[verifier::external_body]
fn base64_decode(token: &str) -> (r: Result<Vec<u8>, base64::DecodeError>)
    ensures
        (match r {
            Ok(v) => base64_decode_of(token@) == Some(v@),
            Err(_) => base64_decode_of(token@) is None,
        }),
{
    base64::Engine::decode(&base64::engine::general_purpose::STANDARD, token)
}

/// Relies on `String::push`: appends one character.
#[verifier::external_body]
fn string_push_char(s: &mut String, c: char)
    ensures
        final(s)@ == old(s)@.push(c),
{
    s.push(c)
}

/// The scheme marker of a Basic authorization header.
pub open spec fn basic_prefix() -> Seq<char> {
    seq!['B', 'a', 's', 'i', 'c', ' ']
}

/// `s` with every occurrence of `"Basic "` removed, left to right — the
/// token extraction the guard applies after checking the scheme marker.
pub open spec fn remove_basic(s: Seq<char>) -> Seq<char>
    decreases s.len(),
{
    if s.len() >= 6 && s.subrange(0, 6) == basic_prefix() {
        remove_basic(s.skip(6))
    } else if s.len() == 0 {
        s
    } else {
        seq![s[0]] + remove_basic(s.skip(1))
    }
}

/// Does `"Basic "` stand at position `i`?
fn has_basic_at(s: &str, i: usize) -> (r: bool)
    requires
        i + 6 <= s@.len(),
        s@.len() <= usize::MAX,
    ensures
        r == (s@.subrange(i as int, i as int + 6) == basic_prefix()),
{
    let r = s.get_char(i) == 'B' && s.get_char(i + 1) == 'a' && s.get_char(i + 2) == 's'
        && s.get_char(i + 3) == 'i' && s.get_char(i + 4) == 'c' && s.get_char(i + 5) == ' ';
    proof {
        let sub = s@.subrange(i as int, i as int + 6);
        if r {
            assert(sub =~= basic_prefix());
        } else {
            if sub == basic_prefix() {
                assert(s@[i as int] == sub[0]);
                assert(s@[i as int + 1] == sub[1]);
                assert(s@[i as int + 2] == sub[2]);
                assert(s@[i as int + 3] == sub[3]);
                assert(s@[i as int + 4] == sub[4]);
                assert(s@[i as int + 5] == sub[5]);
                assert(false);
            }
        }
    }
    r
}

/// Extract the token from a Basic authorization header: the header must
/// open with `"Basic "`, and every occurrence of that marker is removed,
/// exactly as a global text replacement would.
pub fn parse_basic_auth_header(header: &str) -> (r: Result<String, AuthError>)
    ensures
        (match r {
            Ok(token) => {
                &&& header@.len() >= 6
                &&& header@.subrange(0, 6) == basic_prefix()
                &&& token@ == remove_basic(header@)
            },
            Err(e) => {
                &&& e == AuthError::BadRequest
                &&& (header@.len() < 6 || header@.subrange(0, 6) != basic_prefix())
            },
        }),
{
    let n = header.unicode_len();
    if n < 6 {
        return Err(AuthError::BadRequest);
    }
    if !has_basic_at(header, 0) {
        return Err(AuthError::BadRequest);
    }
    let mut out = String::new();
    let mut i: usize = 0;
    proof {
        assert(header@.subrange(0, n as int) =~= header@);
        assert(Seq::<char>::empty() + remove_basic(header@) =~= remove_basic(header@));
    }
    while i < n
        invariant
            i <= n,
            n == header@.len(),
            out@ + remove_basic(header@.subrange(i as int, n as int)) == remove_basic(header@),
        decreases n - i,
    {
        let ghost s_i = header@.subrange(i as int, n as int);
        if n - i >= 6 && has_basic_at(header, i) {
            proof {
                assert(s_i.subrange(0, 6) =~= header@.subrange(i as int, i as int + 6));
                assert(s_i.skip(6) =~= header@.subrange(i as int + 6, n as int));
            }
            i += 6;
        } else {
            let c = header.get_char(i);
            let ghost out0 = out@;
            string_push_char(&mut out, c);
            proof {
                if s_i.len() >= 6 {
                    assert(s_i.subrange(0, 6) =~= header@.subrange(i as int, i as int + 6));
                }
                assert(s_i[0] == header@[i as int]);
                assert(s_i.skip(1) =~= header@.subrange(i as int + 1, n as int));
                assert(remove_basic(s_i) == seq![s_i[0]] + remove_basic(s_i.skip(1)));
                assert(out@ + remove_basic(s_i.skip(1)) =~= out0 + remove_basic(s_i));
            }
            i += 1;
        }
    }
    proof {
        assert(header@.subrange(n as int, n as int) =~= Seq::<char>::empty());
        assert(out@ + remove_basic(Seq::<char>::empty()) =~= out@);
    }
    Ok(out)
}

/// How the guard turns a request away: the HTTP status it answers with,
/// and the error it reports.
#[derive(Clone, Copy, Debug, PartialEq, Eq, Structural)]
pub enum DenyStatus {
    Unauthorized,
    BadRequest,
}

/// A refusal: status code and error, as named fields.
#[derive(Debug)]
pub struct AuthDenial {
    pub status: DenyStatus,
    pub error: AuthError,
}

/// The header-to-credentials part of the OPDS guard: require a present
/// `Basic` header, decode its base64 token, and split the decoded text
/// into credentials.  Each refusal carries the status the guard answers
/// with: `BadRequest` only for a present header of another scheme,
/// `Unauthorized` otherwise.
pub fn basic_auth_credentials(header: Option<&str>) -> (r: Result<DecodedCredentials, AuthDenial>)
    ensures
        (match header {
            None => (r matches Err(d) && d.status == DenyStatus::Unauthorized && d.error
                == AuthError::BadRequest),
            Some(h) => {
                if h@.len() < 6 || h@.subrange(0, 6) != basic_prefix() {
                    r matches Err(d) && d.status == DenyStatus::BadRequest && d.error
                        == AuthError::BadRequest
                } else {
                    match base64_decode_of(remove_basic(h@)) {
                        None => (r matches Err(d) && d.status == DenyStatus::Unauthorized
                            && d.error == AuthError::BadRequest),
                        Some(bytes) => {
                            let text = credential_text(bytes);
                            if username_of(text).len() > 0 && password_of(text).len() > 0 {
                                r matches Ok(c) && c.username@ == username_of(text) && c.password@
                                    == password_of(text)
                            } else {
                                r matches Err(d) && d.status == DenyStatus::Unauthorized
                                    && d.error == AuthError::BadCredentials
                            }
                        },
                    }
                }
            },
        }),
{
    match header {
        None => Err(
            AuthDenial { status: DenyStatus::Unauthorized, error: AuthError::BadRequest },
        ),
        Some(h) => match parse_basic_auth_header(h) {
            Err(e) => Err(AuthDenial { status: DenyStatus::BadRequest, error: e }),
            Ok(token) => match base64_decode(token.as_str()) {
                Err(_) => Err(
                    AuthDenial { status: DenyStatus::Unauthorized, error: AuthError::BadRequest },
                ),
                Ok(bytes) => match decode_base64_credentials(bytes) {
                    Ok(c) => Ok(c),
                    Err(e) => Err(
                        AuthDenial { status: DenyStatus::Unauthorized, error: e },
                    ),
                },
            },
        },
    }
}

/// The user-check part of the OPDS guard: given the looked-up record for
/// the presented username (or none), accept exactly when the stored hash
/// verifies against the presented password.
pub fn authenticate_user(lookup: Option<UserRecord>, credentials: &DecodedCredentials) -> (r:
    Result<OpdsAuth, AuthError>)
    ensures
        (match lookup {
            None => r matches Err(e) && e == AuthError::Unauthorized,
            Some(u) => match bcrypt_accepts(credentials.password@, u.hashed_password@) {
                Some(true) => r matches Ok(o) && o.0.username@ == u.username@,
                Some(false) => r matches Err(e) && e == AuthError::Unauthorized,
                None => r matches Err(e) && e == AuthError::BcryptError,
            },
        }),
{
    match lookup {
        None => Err(AuthError::Unauthorized),
        Some(u) => match verify_password(u.hashed_password.as_str(), credentials.password.as_str()) {
            Ok(true) => Ok(OpdsAuth(AuthenticatedUser { username: u.username })),
            Ok(false) => Err(AuthError::Unauthorized),
            Err(e) => Err(e),
        },
    }
}

} // verus!
