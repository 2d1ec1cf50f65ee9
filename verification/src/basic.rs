use vstd::prelude::*;

use crate::auth::{AuthError, AuthRequest};
use crate::text::str_eq;

verus! {

/// Whether a password is accepted by a stored bcrypt hash. The check is a
/// pure function of the two strings (the salt and cost live inside the hash);
/// a malformed stored hash accepts nothing.
pub uninterp spec fn bcrypt_accepts(password: Seq<char>, hash: Seq<char>) -> bool;

/// Relies on bcrypt::verify: re-hashes the password with the salt and cost
/// embedded in `hash` and compares, so the outcome is deterministic in the
/// two strings. An error (malformed stored hash) counts as a mismatch.
#[verifier::external_body]
fn bcrypt_verify(password: &str, hash: &str) -> (ok: bool)
    ensures
        ok == bcrypt_accepts(password@, hash@),
{
    bcrypt::verify(password, hash).unwrap_or(false)
}

/// One configured Basic credential: a username, the bcrypt hash of the
/// password, an optional per-user size limit and the actions it permits.
#[derive(Clone)]
pub struct BasicAuth {
    pub username: String,
    /// bcrypt hash of the password
    pub password: String,
    pub max_filesize: Option<u64>,
    pub allow_download: bool,
    pub allow_upload: bool,
}

/// The credential a request presented for the Basic scheme.
pub struct BasicAuthArgument<'a> {
    pub username: &'a str,
    pub password: &'a str,
}

/// Whether the entry permits the requested action.
pub open spec fn spec_entry_allows(entry: BasicAuth, kind: AuthRequest) -> bool {
    ||| (kind == AuthRequest::Download && entry.allow_download)
    ||| (kind == AuthRequest::Upload && entry.allow_upload)
}

/// Decision of a single Basic entry, given whether the presented password
/// matched the stored hash. A username match decides the outcome for good:
/// either the granted size override, or a denial carrying the scheme hint.
/// A foreign username yields a hint-free denial, so the scan can go on.
pub open spec fn spec_basic_entry(
    entry: BasicAuth,
    kind: AuthRequest,
    username: Seq<char>,
    password_ok: bool,
) -> Result<Option<u64>, Option<Seq<char>>> {
    if entry.username@ == username {
        if password_ok && spec_entry_allows(entry, kind) {
            Ok(entry.max_filesize)
        } else {
            Err(Some("Basic"@))
        }
    } else {
        Err(None)
    }
}

/// Per-entry password-check results for a presented password.
pub open spec fn spec_password_oracle(entries: Seq<BasicAuth>, password: Seq<char>) -> Seq<bool> {
    Seq::new(entries.len(), |i: int| bcrypt_accepts(password, entries[i].password@))
}

/// The ordered scan over the configured Basic entries: the first entry whose
/// username matches decides for good; other entries are passed over;
/// exhaustion denies without a hint.
pub open spec fn spec_basic_scan(
    entries: Seq<BasicAuth>,
    kind: AuthRequest,
    username: Seq<char>,
    password_ok: Seq<bool>,
    default_max: u64,
) -> Result<u64, Option<Seq<char>>>
    decreases entries.len(),
{
    if entries.len() == 0 {
        Err(None)
    } else {
        match spec_basic_entry(entries[0], kind, username, password_ok[0]) {
            Ok(max) => Ok(
                match max {
                    Some(v) => v,
                    None => default_max,
                },
            ),
            Err(Some(hint)) => Err(Some(hint)),
            Err(None) => spec_basic_scan(
                entries.drop_first(),
                kind,
                username,
                password_ok.drop_first(),
                default_max,
            ),
        }
    }
}

/// A credential naming a configured user whose password or permission check
/// fails is denied with the Basic scheme hint — never the hint-free denial
/// reserved for unknown identities. `i` is the first entry with that
/// username, and the scan stops there.
pub proof fn lemma_basic_known_user_gets_hint(
    entries: Seq<BasicAuth>,
    kind: AuthRequest,
    username: Seq<char>,
    password_ok: Seq<bool>,
    default_max: u64,
    i: int,
)
    requires
        password_ok.len() == entries.len(),
        0 <= i < entries.len(),
        entries[i].username@ == username,
        forall|j: int| 0 <= j < i ==> entries[j].username@ != username,
        !(password_ok[i] && spec_entry_allows(entries[i], kind)),
    ensures
        spec_basic_scan(entries, kind, username, password_ok, default_max) == Err::<
            u64,
            Option<Seq<char>>,
        >(Some("Basic"@)),
    decreases i,
{
    if i > 0 {
        assert(entries[0].username@ != username);
        lemma_basic_known_user_gets_hint(
            entries.drop_first(),
            kind,
            username,
            password_ok.drop_first(),
            default_max,
            i - 1,
        );
    }
}

impl BasicAuth {
    /// Decide this entry for the presented credential. The password check is
    /// bcrypt's; everything else is the entry's own policy.
    pub fn authorize(&self, request: &AuthRequest, argument: BasicAuthArgument) -> (r: Result<
        Option<u64>,
        AuthError,
    >)
        ensures
            crate::auth::auth_opt_result_view(r) == spec_basic_entry(
                *self,
                *request,
                argument.username@,
                bcrypt_accepts(argument.password@, self.password@),
            ),
    {
        if str_eq(self.username.as_str(), argument.username) {
            // if the password is correct and this entry allows the requested action
            if bcrypt_verify(argument.password, self.password.as_str()) && ((*request
                == AuthRequest::Download && self.allow_download) || (*request == AuthRequest::Upload
                && self.allow_upload)) {
                return Ok(self.max_filesize);
            }
            // incorrect password or permission, but the scheme was the right one
            return Err(AuthError::InvalidAuth(Some(String::from_str("Basic"))));
        }
        // the username does not match this entry
        Err(AuthError::InvalidAuth(None))
    }
}

} // verus!
