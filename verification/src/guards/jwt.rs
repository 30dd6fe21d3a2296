//! Letting a request in by its bearer token.
//!
//! Letting a request in alternates between looking at the request and asking outside:
//! the header is read, the token is decoded, the session is looked up in the
//! cache. The functions here take what came back from outside and decide.

use crate::text::{after, same_text, strip_prefix};
use vstd::prelude::*;
use vstd::string::*;

verus! {

/// The principal of a request that was let in: the session that its token names.
#[derive(Debug)]
pub struct Middleware {
    pub session: String,
}

/// Why a request was turned away.
#[derive(Debug, Clone, Copy, PartialEq, Eq, Structural)]
pub enum JwtError {
    ConfigError,
    CacheError,
    MissingToken,
    InvalidToken,
    ExpiredToken,
}

/// The header value is a bearer token.
pub open spec fn is_bearer(header: Option<&str>) -> bool {
    header matches Some(value) && "Bearer "@.is_prefix_of(value@)
}

/// The status code that answers a refused request: a fault of the service
/// when its settings cannot be read, else a missing authorisation.
pub open spec fn refusal_status(error: JwtError) -> int {
    match error {
        JwtError::ConfigError => 500,
        _ => 401,
    }
}

impl JwtError {
    /// The HTTP status code of the response that reports this refusal.
    pub fn status(&self) -> (code: u16)
        ensures
            code == refusal_status(*self),
    {
        match self {
            JwtError::ConfigError => 500,
            _ => 401,
        }
    }
}

/// Takes the token out of the `Authorization` header.
///
/// Fails with `MissingToken` when there is no header, or the header does not
/// begin with `Bearer `.
pub fn bearer_token<'r>(header: Option<&'r str>) -> (r: Result<&'r str, JwtError>)
    ensures
        match r {
            Ok(token) => is_bearer(header) && token@ == after(header->0@, "Bearer "@.len()),
            Err(e) => !is_bearer(header) && e == JwtError::MissingToken,
        },
{
    let value = match header {
        Some(value) => value,
        None => {
            return Err(JwtError::MissingToken);
        },
    };
    match strip_prefix(value, "Bearer ") {
        Some(token) => Ok(token),
        None => Err(JwtError::MissingToken),
    }
}

/// Takes the session out of a decoded token. `subject` is `None` when the
/// token could not be decoded; that is an `InvalidToken`.
pub fn decoded_session(subject: Option<String>) -> (r: Result<String, JwtError>)
    ensures
        match r {
            Ok(session) => subject == Some(session),
            Err(e) => subject.is_none() && e == JwtError::InvalidToken,
        },
{
    match subject {
        Some(session) => Ok(session),
        None => Err(JwtError::InvalidToken),
    }
}

impl Middleware {
    /// Lets the request in when the token is the one that the cache holds for
    /// the session. `cached` is `None` when the cache could not be asked or
    /// holds nothing for the session.
    ///
    /// Fails with `CacheError` when nothing came from the cache, and with
    /// `InvalidToken` when the cache holds another token.
    pub fn grant(session: String, cached: Option<&str>, token: &str) -> (r: Result<Self, JwtError>)
        ensures
            match r {
                Ok(principal) => cached matches Some(current) && current@ == token@
                    && principal.session == session,
                Err(e) => match cached {
                    None => e == JwtError::CacheError,
                    Some(current) => current@ != token@ && e == JwtError::InvalidToken,
                },
            },
    {
        match cached {
            None => Err(JwtError::CacheError),
            Some(current) => {
                if same_text(current, token) {
                    Ok(Middleware { session })
                } else {
                    Err(JwtError::InvalidToken)
                }
            },
        }
    }
}

/// The key under which the cache holds the token of a session: the user
/// name, a colon, and the identifier of the session.
pub fn session_key(username: &str, identifier: &str) -> (key: String)
    ensures
        key@ == username@ + ":"@ + identifier@,
{
    crate::text::join3(username, ":", identifier)
}

/// The pattern that matches the keys of all sessions of a user.
pub fn session_pattern(username: &str) -> (pattern: String)
    ensures
        pattern@ == username@ + ":*"@,
{
    crate::text::join2(username, ":*")
}

/// The position of the last colon in a text, where it has one.
pub open spec fn last_colon(text: Seq<char>) -> Option<int> {
    if exists|i: int| 0 <= i < text.len() && text[i] == ':' {
        Some(choose|i: int| is_last_colon(text, i))
    } else {
        None
    }
}

/// `i` is the position of the last colon in `text`.
pub open spec fn is_last_colon(text: Seq<char>, i: int) -> bool {
    &&& 0 <= i < text.len()
    &&& text[i] == ':'
    &&& forall|j: int| i < j < text.len() ==> text[j] != ':'
}

/// The user that a session key names: what stands before its last colon.
pub open spec fn user_of(key: Seq<char>) -> Option<Seq<char>> {
    match last_colon(key) {
        Some(i) => Some(key.subrange(0, i)),
        None => None,
    }
}

/// Whatever `is_last_colon` holds of is the value of `last_colon`.
pub proof fn lemma_last_colon(text: Seq<char>, i: int)
    requires
        is_last_colon(text, i),
    ensures
        last_colon(text) == Some(i),
{
    let found = choose|k: int| is_last_colon(text, k);
    if found < i {
        assert(text[i] != ':');
    } else if i < found {
        assert(text[found] != ':');
    }
}

/// Reads the user name off a session key. A text without a colon is no
/// session key.
pub fn session_user(key: &str) -> (r: Option<String>)
    ensures
        match r {
            Some(name) => user_of(key@) == Some(name@),
            None => user_of(key@).is_none(),
        },
{
    let len = key.unicode_len();
    let mut i = len;
    while i > 0
        invariant
            i <= len,
            len == key@.len(),
            forall|j: int| i <= j < len ==> key@[j] != ':',
        decreases i,
    {
        i -= 1;
        if key.get_char(i) == ':' {
            proof {
                lemma_last_colon(key@, i as int);
            }
            return Some(key.substring_char(0, i).to_owned());
        }
    }
    None
}

/// The key of a session names the user it was made for, whatever the name,
/// as long as the identifier holds no colon.
pub proof fn lemma_session_key_names_user(username: Seq<char>, identifier: Seq<char>)
    requires
        forall|j: int| 0 <= j < identifier.len() ==> identifier[j] != ':',
    ensures
        user_of(username + ":"@ + identifier) == Some(username),
{
    reveal_strlit(":");
    let key = username + ":"@ + identifier;
    let i = username.len() as int;
    assert(key[i] == ':');
    assert forall|j: int| i < j < key.len() implies key[j] != ':' by {
        assert(key[j] == identifier[j - i - 1]);
    }
    lemma_last_colon(key, i);
    assert(key.subrange(0, i) =~= username);
}

} // verus!
