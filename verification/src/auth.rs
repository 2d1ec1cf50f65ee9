use vstd::prelude::*;

use base64::Engine;

use crate::basic::{spec_basic_scan, spec_password_oracle, BasicAuth, BasicAuthArgument};
use crate::bearer::{
    lemma_bearer_no_match_no_hint, lemma_bearer_scan_skip, spec_bearer_outcome, spec_bearer_scan,
    BearerAuthArgument, BearerAuthConfig, ClaimSet,
};
use crate::error::{ErrorView, UploadError};
use crate::text::{spec_two_tokens, split_two, str_eq};

verus! {

/// The action a request asks to be authorized for.
#[derive(PartialEq, Eq, Structural, Clone, Copy, Debug)]
pub enum AuthRequest {
    Upload,
    Download,
}

/// The authorization was invalid; the payload carries the failed auth scheme
/// when the credential identified a principal of that scheme.
#[derive(Debug, Clone)]
pub enum AuthError {
    InvalidAuth(Option<String>),
}

impl View for AuthError {
    /// The scheme hint as a character sequence.
    type V = Option<Seq<char>>;

    open spec fn view(&self) -> Option<Seq<char>> {
        match self {
            AuthError::InvalidAuth(None) => None,
            AuthError::InvalidAuth(Some(scheme)) => Some(scheme@),
        }
    }
}

/// Mathematical image of an authorization outcome.
pub open spec fn auth_result_view(r: Result<u64, AuthError>) -> Result<u64, Option<Seq<char>>> {
    match r {
        Ok(max) => Ok(max),
        Err(e) => Err(e@),
    }
}

/// Mathematical image of a single entry's outcome.
pub open spec fn auth_opt_result_view(r: Result<Option<u64>, AuthError>) -> Result<
    Option<u64>,
    Option<Seq<char>>,
> {
    match r {
        Ok(max) => Ok(max),
        Err(e) => Err(e@),
    }
}

/// What decoding a base64 payload yields: the bytes on well-formed input.
pub uninterp spec fn base64_decode_of(payload: Seq<char>) -> Option<Seq<u8>>;

/// What decoding bytes as UTF-8 yields: the text on well-formed input.
pub uninterp spec fn utf8_decode_of(bytes: Seq<u8>) -> Option<Seq<char>>;

/// Relies on base64's standard-alphabet padded engine: decoding succeeds
/// exactly on well-formed base64 and is a pure function of the input text.
#[verifier::external_body]
fn base64_decode(payload: &str) -> (r: Option<Vec<u8>>)
    ensures
        match r {
            Some(bytes) => base64_decode_of(payload@) == Some(bytes@),
            None => base64_decode_of(payload@) is None,
        },
{
    match base64::engine::general_purpose::STANDARD.decode(payload) {
        Ok(bytes) => Some(bytes),
        Err(_) => None,
    }
}

/// Relies on String::from_utf8 (std): succeeds exactly on valid UTF-8 and
/// then yields the text the bytes encode; a pure function of the bytes.
#[verifier::external_body]
fn utf8_to_string(bytes: Vec<u8>) -> (r: Option<String>)
    ensures
        match r {
            Some(text) => utf8_decode_of(bytes@) == Some(text@),
            None => utf8_decode_of(bytes@) is None,
        },
{
    match String::from_utf8(bytes) {
        Ok(text) => Some(text),
        Err(_) => None,
    }
}

/// The process-wide authorization policy, loaded once at startup.
#[derive(Clone)]
pub struct AuthConfig {
    /// This value will be advertised in the challenge header by default
    pub default_auth_scheme: String,
    /// The maximal filesize if the auth method does not provide another one
    pub default_max_filesize: u64,
    pub allow_downloading_for_everyone: bool,
    pub allow_uploading_for_everyone: bool,
    pub basic: Vec<BasicAuth>,
    pub bearer: Vec<BearerAuthConfig>,
}

/// Whether the policy grants blanket access for the requested action.
pub open spec fn spec_blanket(cfg: AuthConfig, kind: AuthRequest) -> bool {
    ||| (kind == AuthRequest::Download && cfg.allow_downloading_for_everyone)
    ||| (kind == AuthRequest::Upload && cfg.allow_uploading_for_everyone)
}

/// The username and password behind a Basic payload: base64, then UTF-8,
/// then exactly one colon between the two.
pub open spec fn spec_basic_credentials(payload: Seq<char>) -> Option<(Seq<char>, Seq<char>)> {
    match base64_decode_of(payload) {
        Some(bytes) => match utf8_decode_of(bytes) {
            Some(text) => spec_two_tokens(text, ':'),
            None => None,
        },
        None => None,
    }
}

/// View of the optional credential header.
pub open spec fn spec_header_view(h: Option<&str>) -> Option<Seq<char>> {
    match h {
        Some(s) => Some(s@),
        None => None,
    }
}

/// The whole authorization decision. `bearer_outcomes` stands for what
/// decoding the presented token against each configured Bearer secret
/// yielded — that depends on the clock, so the exec function supplies the
/// outcomes its own calls produced.
pub open spec fn spec_authorize(
    cfg: AuthConfig,
    kind: AuthRequest,
    header: Option<Seq<char>>,
    bearer_outcomes: Seq<Option<ClaimSet>>,
) -> Result<u64, Option<Seq<char>>> {
    if spec_blanket(cfg, kind) {
        Ok(cfg.default_max_filesize)
    } else {
        match header {
            None => Err(None),
            Some(h) => match spec_two_tokens(h, ' ') {
                None => Err(None),
                Some(parts) => if parts.0 == "Basic"@ {
                    match spec_basic_credentials(parts.1) {
                        None => Err(None),
                        Some(creds) => spec_basic_scan(
                            cfg.basic@,
                            kind,
                            creds.0,
                            spec_password_oracle(cfg.basic@, creds.1),
                            cfg.default_max_filesize,
                        ),
                    }
                } else if parts.0 == "Bearer"@ {
                    spec_bearer_scan(cfg.bearer@, kind, bearer_outcomes, cfg.default_max_filesize)
                } else {
                    Err(None)
                },
            },
        }
    }
}

/// With blanket access for the action, the decision is the policy's default
/// limit whatever the credential header holds: the header — well-formed,
/// malformed or absent — is never consulted.
pub proof fn lemma_blanket_ignores_header(
    cfg: AuthConfig,
    kind: AuthRequest,
    header_a: Option<Seq<char>>,
    header_b: Option<Seq<char>>,
    outcomes_a: Seq<Option<ClaimSet>>,
    outcomes_b: Seq<Option<ClaimSet>>,
)
    requires
        spec_blanket(cfg, kind),
    ensures
        spec_authorize(cfg, kind, header_a, outcomes_a) == Ok::<u64, Option<Seq<char>>>(
            cfg.default_max_filesize,
        ),
        spec_authorize(cfg, kind, header_a, outcomes_a) == spec_authorize(
            cfg,
            kind,
            header_b,
            outcomes_b,
        ),
{
}

impl AuthConfig {
    /// Decide a request against the policy: blanket access first, otherwise
    /// the presented credential under its scheme's ordered entry scan.
    #[verifier::loop_isolation(false)]
    pub fn authorize(&self, request: &AuthRequest, authorization: Option<&str>) -> (r: Result<
        u64,
        AuthError,
    >)
        ensures
            exists|bearer_outcomes: Seq<Option<ClaimSet>>|
                #[trigger] spec_authorize(
                    *self,
                    *request,
                    spec_header_view(authorization),
                    bearer_outcomes,
                ) == auth_result_view(r) && bearer_outcomes.len() == self.bearer@.len(),
    {
        let ghost no_outcomes: Seq<Option<ClaimSet>> = Seq::new(
            self.bearer@.len(),
            |i: int| None::<ClaimSet>,
        );

        // check if no authorization is required
        if (*request == AuthRequest::Download && self.allow_downloading_for_everyone) || (*request
            == AuthRequest::Upload && self.allow_uploading_for_everyone) {
            let r: Result<u64, AuthError> = Ok(self.default_max_filesize);
            proof {
                assert(spec_authorize(
                    *self,
                    *request,
                    spec_header_view(authorization),
                    no_outcomes,
                ) == auth_result_view(r));
            }
            return r;
        }

        // authorization is required
        let header = match authorization {
            Some(h) => h,
            None => {
                let r: Result<u64, AuthError> = Err(AuthError::InvalidAuth(None));
                proof {
                    assert(spec_authorize(
                        *self,
                        *request,
                        spec_header_view(authorization),
                        no_outcomes,
                    ) == auth_result_view(r));
                }
                return r;
            }
        };

        // the credential header should look like this: `<auth scheme> <payload>`
        let parts = match split_two(header, ' ') {
            Some(p) => p,
            None => {
                let r: Result<u64, AuthError> = Err(AuthError::InvalidAuth(None));
                proof {
                    assert(spec_authorize(
                        *self,
                        *request,
                        spec_header_view(authorization),
                        no_outcomes,
                    ) == auth_result_view(r));
                }
                return r;
            }
        };
        let scheme = parts.0;
        let payload = parts.1;

        if str_eq(scheme, "Basic") {
            // decode the payload with base64, then as UTF-8 text
            let bytes = match base64_decode(payload) {
                Some(b) => b,
                None => {
                    let r: Result<u64, AuthError> = Err(AuthError::InvalidAuth(None));
                    proof {
                        assert(spec_authorize(
                            *self,
                            *request,
                            spec_header_view(authorization),
                            no_outcomes,
                        ) == auth_result_view(r));
                    }
                    return r;
                }
            };
            let text = match utf8_to_string(bytes) {
                Some(t) => t,
                None => {
                    let r: Result<u64, AuthError> = Err(AuthError::InvalidAuth(None));
                    proof {
                        assert(spec_authorize(
                            *self,
                            *request,
                            spec_header_view(authorization),
                            no_outcomes,
                        ) == auth_result_view(r));
                    }
                    return r;
                }
            };
            // the decoded payload looks like this: `username:password`
            let creds = match split_two(text.as_str(), ':') {
                Some(c) => c,
                None => {
                    let r: Result<u64, AuthError> = Err(AuthError::InvalidAuth(None));
                    proof {
                        assert(spec_authorize(
                            *self,
                            *request,
                            spec_header_view(authorization),
                            no_outcomes,
                        ) == auth_result_view(r));
                    }
                    return r;
                }
            };
            let username = creds.0;
            let password = creds.1;
            let ghost oracle = spec_password_oracle(self.basic@, password@);
            let mut i: usize = 0;
            proof {
                assert(self.basic@.skip(0) =~= self.basic@);
                assert(oracle.skip(0) =~= oracle);
            }
            while i < self.basic.len()
                invariant
                    i <= self.basic@.len(),
                    spec_basic_scan(
                        self.basic@,
                        *request,
                        username@,
                        oracle,
                        self.default_max_filesize,
                    ) == spec_basic_scan(
                        self.basic@.skip(i as int),
                        *request,
                        username@,
                        oracle.skip(i as int),
                        self.default_max_filesize,
                    ),
                decreases self.basic@.len() - i,
            {
                proof {
                    assert(self.basic@.skip(i as int)[0] == self.basic@[i as int]);
                    assert(oracle.skip(i as int)[0] == oracle[i as int]);
                }
                let entry = &self.basic[i];
                let resp = entry.authorize(request, BasicAuthArgument { username, password });
                match resp {
                    Ok(max) => {
                        let r: Result<u64, AuthError> = Ok(
                            max.unwrap_or(self.default_max_filesize),
                        );
                        proof {
                            assert(spec_authorize(
                                *self,
                                *request,
                                spec_header_view(authorization),
                                no_outcomes,
                            ) == auth_result_view(r));
                        }
                        return r;
                    }
                    Err(AuthError::InvalidAuth(Some(hint))) => {
                        let r: Result<u64, AuthError> = Err(AuthError::InvalidAuth(Some(hint)));
                        proof {
                            assert(spec_authorize(
                                *self,
                                *request,
                                spec_header_view(authorization),
                                no_outcomes,
                            ) == auth_result_view(r));
                        }
                        return r;
                    }
                    Err(AuthError::InvalidAuth(None)) => {}
                }
                proof {
                    assert(self.basic@.skip(i as int).drop_first() =~= self.basic@.skip(
                        i as int + 1,
                    ));
                    assert(oracle.skip(i as int).drop_first() =~= oracle.skip(i as int + 1));
                }
                i = i + 1;
            }
            proof {
                assert(self.basic@.skip(i as int) =~= Seq::<BasicAuth>::empty());
            }
            let r: Result<u64, AuthError> = Err(AuthError::InvalidAuth(None));
            proof {
                assert(spec_authorize(*self, *request, spec_header_view(authorization), no_outcomes)
                    == auth_result_view(r));
            }
            r
        } else if str_eq(scheme, "Bearer") {
            let ghost mut outs: Seq<Option<ClaimSet>> = Seq::empty();
            let mut i: usize = 0;
            while i < self.bearer.len()
                invariant
                    i <= self.bearer@.len(),
                    outs.len() == i as int,
                    forall|j: int| 0 <= j < i ==> outs[j] is None,
                decreases self.bearer@.len() - i,
            {
                let entry = &self.bearer[i];
                let resp = entry.authorize(
                    request,
                    BearerAuthArgument(String::from_str(payload)),
                );
                let ghost resp_snapshot = resp;
                match resp {
                    Ok(max) => {
                        let r: Result<u64, AuthError> = Ok(
                            max.unwrap_or(self.default_max_filesize),
                        );
                        proof {
                            let o = choose|o: Option<ClaimSet>|
                                auth_opt_result_view(resp_snapshot) == spec_bearer_outcome(
                                    self.bearer@[i as int],
                                    *request,
                                    o,
                                );
                            let full = outs.push(o) + Seq::new(
                                (self.bearer@.len() - i - 1) as nat,
                                |_j: int| None::<ClaimSet>,
                            );
                            assert(full.len() == self.bearer@.len());
                            assert(forall|j: int| 0 <= j < i ==> full[j] is None);
                            lemma_bearer_scan_skip(
                                self.bearer@,
                                *request,
                                full,
                                self.default_max_filesize,
                                i as int,
                            );
                            assert(self.bearer@.skip(i as int)[0] == self.bearer@[i as int]);
                            assert(full.skip(i as int)[0] == full[i as int]);
                            assert(full[i as int] == o);
                            assert(spec_authorize(
                                *self,
                                *request,
                                spec_header_view(authorization),
                                full,
                            ) == auth_result_view(r));
                        }
                        return r;
                    }
                    Err(AuthError::InvalidAuth(Some(hint))) => {
                        let r: Result<u64, AuthError> = Err(AuthError::InvalidAuth(Some(hint)));
                        proof {
                            let o = choose|o: Option<ClaimSet>|
                                auth_opt_result_view(resp_snapshot) == spec_bearer_outcome(
                                    self.bearer@[i as int],
                                    *request,
                                    o,
                                );
                            let full = outs.push(o) + Seq::new(
                                (self.bearer@.len() - i - 1) as nat,
                                |_j: int| None::<ClaimSet>,
                            );
                            assert(full.len() == self.bearer@.len());
                            assert(forall|j: int| 0 <= j < i ==> full[j] is None);
                            lemma_bearer_scan_skip(
                                self.bearer@,
                                *request,
                                full,
                                self.default_max_filesize,
                                i as int,
                            );
                            assert(self.bearer@.skip(i as int)[0] == self.bearer@[i as int]);
                            assert(full.skip(i as int)[0] == full[i as int]);
                            assert(full[i as int] == o);
                            assert(spec_authorize(
                                *self,
                                *request,
                                spec_header_view(authorization),
                                full,
                            ) == auth_result_view(r));
                        }
                        return r;
                    }
                    Err(AuthError::InvalidAuth(None)) => {
                        proof {
                            outs = outs.push(None::<ClaimSet>);
                        }
                    }
                }
                i = i + 1;
            }
            let r: Result<u64, AuthError> = Err(AuthError::InvalidAuth(None));
            proof {
                lemma_bearer_no_match_no_hint(
                    self.bearer@,
                    *request,
                    outs,
                    self.default_max_filesize,
                );
                assert(spec_authorize(*self, *request, spec_header_view(authorization), outs)
                    == auth_result_view(r));
            }
            r
        } else {
            let r: Result<u64, AuthError> = Err(AuthError::InvalidAuth(None));
            proof {
                assert(spec_authorize(*self, *request, spec_header_view(authorization), no_outcomes)
                    == auth_result_view(r));
            }
            r
        }
    }

    /// Surface an authorization failure to the caller: the computed scheme
    /// hint when there is one, the policy's advertised default scheme
    /// otherwise, so the caller can always be challenged with a scheme.
    pub fn surface_auth_error(&self, err: AuthError) -> (r: UploadError)
        ensures
            r@ == ErrorView::InvalidAuth(
                match err@ {
                    Some(hint) => hint,
                    None => self.default_auth_scheme@,
                },
            ),
    {
        match err {
            AuthError::InvalidAuth(Some(scheme)) => UploadError::InvalidAuth(scheme),
            AuthError::InvalidAuth(None) => UploadError::InvalidAuth(
                self.default_auth_scheme.clone(),
            ),
        }
    }
}

/// The scheme advertised on rejection when the policy does not set one.
pub fn default_auth_scheme() -> (r: String)
    ensures
        r@ == "Basic"@,
{
    String::from_str("Basic")
}

/// The size limit used when neither the policy nor a credential sets one:
/// ten binary gigabytes.
pub fn default_max_filesize() -> (r: u64)
    ensures
        r == 10737418240u64,
{
    1024 * 1024 * 1024 * 10
}

} // verus!
