//! Account authentication: password checks and session minting.

use vstd::prelude::*;

verus! {

/// Whether bcrypt accepts `password` against the stored `hash`: a
/// function of the two strings alone.
pub uninterp spec fn bcrypt_accepts(password: Seq<char>, hash: Seq<char>) -> bool;

/// Relies on bcrypt's `verify`: it recomputes the hash of `password` with
/// the salt and cost held in `hash` and compares, which is deterministic
/// in the two arguments.  An error — a malformed hash — is taken as a
/// mismatch, as the login path takes it.
#[verifier::external_body]
fn bcrypt_verify(password: &str, hash: &str) -> (r: bool)
    ensures
        r == bcrypt_accepts(password@, hash@),
{
    bcrypt::verify(password, hash).unwrap_or(false)
}

/// Checks a login attempt against an account's stored password hash.  An
/// account with no stored hash is checked against the empty hash, which
/// accepts nothing.
pub fn check_credentials(password: &str, stored: &Option<String>) -> (r: bool)
    ensures
        r == (match stored {
            Option::Some(h) => bcrypt_accepts(password@, h@),
            Option::None => bcrypt_accepts(password@, Seq::<char>::empty()),
        }),
{
    match stored {
        Some(h) => bcrypt_verify(password, h.as_str()),
        None => {
            let r = bcrypt_verify(password, "");
            proof {
                reveal_strlit("");
                assert(""@ =~= Seq::<char>::empty());
            }
            r
        },
    }
}

/// A login session: a bearer token tied to an account.
pub struct Session {
    pub token: String,
    pub account: u128,
}

/// Relies on rand's `Alphanumeric` distribution sampled from the thread
/// rng: sampling yields an endless stream of random alphanumeric
/// characters, of which the first `n` are taken, so exactly `n` come
/// back.  Nothing more is promised of random values.
#[verifier::external_body]
fn random_alphanumeric(n: usize) -> (r: String)
    ensures
        r@.len() == n,
{
    rand::Rng::sample_iter(rand::thread_rng(), &rand::distributions::Alphanumeric)
        .take(n)
        .map(char::from)
        .collect()
}

/// How many characters a session token holds.
pub const TOKEN_LENGTH: usize = 64;

/// Mints a session for an account: a fresh 64-character bearer token.
/// Whatever token came back, the session is the account's.
pub fn new_session(account: u128) -> (s: Session)
    ensures
        s.account == account,
        s.token@.len() == TOKEN_LENGTH,
{
    Session { token: random_alphanumeric(TOKEN_LENGTH), account }
}

} // verus!
