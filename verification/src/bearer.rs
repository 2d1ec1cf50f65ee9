use vstd::prelude::*;

use crate::auth::{auth_opt_result_view, AuthError, AuthRequest};
use crate::text::{str_eq, string_views};

verus! {

/// JSON values cross this module opaquely; the logic only ever reads them
/// through the small conversion wrappers below.
#[verifier::external_type_specification]
#[verifier::external_body]
pub struct ExJsonValue(serde_json::Value);

/// What the authorization logic reads out of one claim value.
pub enum ClaimValue {
    /// A JSON number, with its value when it is an integer that fits `u64`.
    Number(Option<u64>),
    /// A JSON array; string elements are carried, anything else is marked.
    Array(Vec<Option<String>>),
    /// Any other JSON value.
    Other,
}

/// The claims of a verified token, as plain key/value pairs in object order.
pub struct ClaimSet {
    pub fields: Vec<(String, ClaimValue)>,
}

/// One configured Bearer secret with its fallbacks: the size limit and the
/// permissions used when the token carries none, and the claim names read
/// for the two.
#[derive(Clone)]
pub struct BearerAuthConfig {
    pub secret: String,
    pub default_max_filesize: Option<u64>,
    pub default_permissions: Vec<String>,
    pub max_filesize_field_name: String,
    pub permissions_field_name: String,
}

/// The token a request presented for the Bearer scheme.
pub struct BearerAuthArgument(pub String);

/// Relies on jsonwebtoken::decode with Validation::default() (HS256, an `exp`
/// claim required and checked against the clock): yields the claims as
/// key/value pairs exactly when the token's signature verifies against
/// `secret` and the claims are a JSON object. The outcome depends on the
/// clock, so nothing is assumed about which tokens pass.
#[verifier::external_body]
fn jwt_decode(token: &str, secret: &str) -> (r: Option<Vec<(String, serde_json::Value)>>) {
    let key = jsonwebtoken::DecodingKey::from_secret(secret.as_bytes());
    let validation = jsonwebtoken::Validation::default();
    match jsonwebtoken::decode::<serde_json::Value>(token, &key, &validation) {
        Ok(data) => match data.claims {
            serde_json::Value::Object(map) => Some(map.into_iter().collect()),
            _ => None,
        },
        Err(_) => None,
    }
}

/// Relies on serde_json::Value and Number::as_u64: tells a JSON number apart
/// and converts it (the value when it is an integer fitting `u64`).
#[verifier::external_body]
fn json_as_num(v: &serde_json::Value) -> (r: Option<Option<u64>>) {
    match v {
        serde_json::Value::Number(n) => Some(n.as_u64()),
        _ => None,
    }
}

/// Relies on serde_json::Value: the elements when the value is a JSON array.
#[verifier::external_body]
fn json_as_array(v: &serde_json::Value) -> (r: Option<Vec<serde_json::Value>>) {
    match v {
        serde_json::Value::Array(items) => Some(items.clone()),
        _ => None,
    }
}

/// Relies on serde_json::Value: the text when the value is a JSON string.
#[verifier::external_body]
fn json_as_str(v: &serde_json::Value) -> (r: Option<String>) {
    match v {
        serde_json::Value::String(s) => Some(s.clone()),
        _ => None,
    }
}

/// Flatten one opaque claim value into what the logic reads of it.
fn convert_value(v: &serde_json::Value) -> (r: ClaimValue) {
    match json_as_num(v) {
        Some(n) => ClaimValue::Number(n),
        None => match json_as_array(v) {
            Some(items) => {
                let mut elems: Vec<Option<String>> = Vec::new();
                let mut j: usize = 0;
                while j < items.len()
                    decreases items@.len() - j,
                {
                    elems.push(json_as_str(&items[j]));
                    j = j + 1;
                }
                ClaimValue::Array(elems)
            }
            None => ClaimValue::Other,
        },
    }
}

/// Flatten decoded claims into plain pairs, keeping keys and order.
pub fn extract_claims(pairs: Vec<(String, serde_json::Value)>) -> (r: ClaimSet)
    ensures
        r.fields@.len() == pairs@.len(),
        forall|i: int| 0 <= i < pairs@.len() ==> r.fields@[i].0 == pairs@[i].0,
{
    let mut fields: Vec<(String, ClaimValue)> = Vec::new();
    let mut i: usize = 0;
    while i < pairs.len()
        invariant
            i <= pairs@.len(),
            fields@.len() == i,
            forall|j: int| 0 <= j < i ==> fields@[j].0 == pairs@[j].0,
        decreases pairs@.len() - i,
    {
        let pair = &pairs[i];
        let key = pair.0.clone();
        let value = convert_value(&pair.1);
        fields.push((key, value));
        i = i + 1;
    }
    ClaimSet { fields }
}

/// First claim with the given name, if any (claim keys are unique in a JSON
/// object, so "first" is simply "the one").
pub open spec fn spec_claim_lookup(fields: Seq<(String, ClaimValue)>, name: Seq<char>) -> Option<
    ClaimValue,
>
    decreases fields.len(),
{
    if fields.len() == 0 {
        None
    } else if fields[0].0@ == name {
        Some(fields[0].1)
    } else {
        spec_claim_lookup(fields.drop_first(), name)
    }
}

/// Index of the claim with the given name.
fn claim_lookup(fields: &Vec<(String, ClaimValue)>, name: &String) -> (r: Option<usize>)
    ensures
        match r {
            Some(i) => i < fields@.len() && spec_claim_lookup(fields@, name@) == Some(
                fields@[i as int].1,
            ),
            None => spec_claim_lookup(fields@, name@) is None,
        },
{
    let mut i: usize = 0;
    proof {
        assert(fields@.skip(0) =~= fields@);
    }
    while i < fields.len()
        invariant
            i <= fields@.len(),
            spec_claim_lookup(fields@, name@) == spec_claim_lookup(
                fields@.skip(i as int),
                name@,
            ),
        decreases fields@.len() - i,
    {
        proof {
            assert(fields@.skip(i as int)[0] == fields@[i as int]);
        }
        if str_eq(fields[i].0.as_str(), name.as_str()) {
            return Some(i);
        }
        proof {
            assert(fields@.skip(i as int).drop_first() =~= fields@.skip(i as int + 1));
        }
        i = i + 1;
    }
    proof {
        assert(fields@.skip(i as int) =~= Seq::<(String, ClaimValue)>::empty());
    }
    None
}

/// The string elements of a claim array, in order, everything else dropped.
pub open spec fn spec_strings_of(elems: Seq<Option<String>>) -> Seq<Seq<char>>
    decreases elems.len(),
{
    if elems.len() == 0 {
        Seq::empty()
    } else {
        let rest = spec_strings_of(elems.drop_first());
        match elems[0] {
            Some(s) => seq![s@] + rest,
            None => rest,
        }
    }
}

proof fn lemma_strings_of_push(elems: Seq<Option<String>>, x: Option<String>)
    ensures
        spec_strings_of(elems.push(x)) == spec_strings_of(elems) + (match x {
            Some(s) => seq![s@],
            None => Seq::<Seq<char>>::empty(),
        }),
    decreases elems.len(),
{
    if elems.len() == 0 {
        assert(elems.push(x).drop_first() =~= Seq::<Option<String>>::empty());
        assert(spec_strings_of(Seq::<Option<String>>::empty()) =~= Seq::<Seq<char>>::empty());
        assert(elems.push(x)[0] == x);
        match x {
            Some(s) => {
                assert(spec_strings_of(elems.push(x)) =~= seq![s@]);
                assert(spec_strings_of(elems) + seq![s@] =~= seq![s@]);
            }
            None => {
                assert(spec_strings_of(elems.push(x)) =~= Seq::<Seq<char>>::empty());
                assert(spec_strings_of(elems) + Seq::<Seq<char>>::empty() =~= Seq::<
                    Seq<char>,
                >::empty());
            }
        }
    } else {
        assert(elems.push(x).drop_first() =~= elems.drop_first().push(x));
        lemma_strings_of_push(elems.drop_first(), x);
        assert(spec_strings_of(elems.push(x)) =~= spec_strings_of(elems) + (match x {
            Some(s) => seq![s@],
            None => Seq::<Seq<char>>::empty(),
        }));
    }
}

/// Whether every element of a claim array is a string.
fn all_strings(elems: &Vec<Option<String>>) -> (r: bool)
    ensures
        r == spec_all_strings(elems@),
{
    let mut i: usize = 0;
    while i < elems.len()
        invariant
            i <= elems@.len(),
            forall|j: int| 0 <= j < i ==> elems@[j] is Some,
        decreases elems@.len() - i,
    {
        if elems[i].is_none() {
            return false;
        }
        i = i + 1;
    }
    true
}

/// The string elements of a claim array, in order.
fn strings_of(elems: &Vec<Option<String>>) -> (r: Vec<String>)
    ensures
        string_views(r@) == spec_strings_of(elems@),
{
    let mut r: Vec<String> = Vec::new();
    let mut i: usize = 0;
    proof {
        assert(elems@.take(0) =~= Seq::<Option<String>>::empty());
        assert(string_views(r@) =~= spec_strings_of(elems@.take(0)));
    }
    while i < elems.len()
        invariant
            i <= elems@.len(),
            string_views(r@) == spec_strings_of(elems@.take(i as int)),
        decreases elems@.len() - i,
    {
        let ghost prev = r@;
        match &elems[i] {
            Some(s) => {
                r.push(s.clone());
                proof {
                    assert(string_views(r@) =~= string_views(prev)
                        + seq![elems@[i as int]->Some_0@]);
                }
            }
            None => {
                proof {
                    assert(string_views(r@) =~= string_views(prev) + Seq::<Seq<char>>::empty());
                }
            }
        }
        proof {
            lemma_strings_of_push(elems@.take(i as int), elems@[i as int]);
            assert(elems@.take(i as int).push(elems@[i as int]) =~= elems@.take(i as int + 1));
        }
        i = i + 1;
    }
    proof {
        assert(elems@.take(elems@.len() as int) =~= elems@);
    }
    r
}

/// Whether a word occurs among the permissions.
pub open spec fn spec_contains_str(words: Seq<Seq<char>>, w: Seq<char>) -> bool {
    exists|i: int| 0 <= i < words.len() && words[i] == w
}

/// Whether a word occurs among the permissions.
fn contains_str(words: &Vec<String>, w: &str) -> (r: bool)
    ensures
        r == spec_contains_str(string_views(words@), w@),
{
    let mut i: usize = 0;
    while i < words.len()
        invariant
            i <= words@.len(),
            forall|j: int| 0 <= j < i ==> words@[j]@ != w@,
        decreases words@.len() - i,
    {
        if str_eq(words[i].as_str(), w) {
            proof {
                assert(string_views(words@)[i as int] == w@);
            }
            return true;
        }
        i = i + 1;
    }
    proof {
        assert forall|j: int| 0 <= j < words@.len() implies #[trigger] string_views(words@)[j]
            != w@ by {
            assert(string_views(words@)[j] == words@[j]@);
        }
    }
    false
}

/// Copy a list of strings.
fn clone_strings(v: &Vec<String>) -> (r: Vec<String>)
    ensures
        r@ == v@,
{
    let mut r: Vec<String> = Vec::new();
    let mut i: usize = 0;
    while i < v.len()
        invariant
            i <= v@.len(),
            r@ == v@.take(i as int),
        decreases v@.len() - i,
    {
        r.push(v[i].clone());
        proof {
            assert(v@.take(i as int).push(v@[i as int]) =~= v@.take(i as int + 1));
        }
        i = i + 1;
    }
    proof {
        assert(v@.take(v@.len() as int) =~= v@);
    }
    r
}

/// The size limit a verified token grants: the named claim when it is a
/// number (its value when integral), otherwise the entry's fallback.
pub open spec fn spec_claim_max(entry: BearerAuthConfig, claims: ClaimSet) -> Option<u64> {
    match spec_claim_lookup(claims.fields@, entry.max_filesize_field_name@) {
        Some(ClaimValue::Number(v)) => v,
        _ => entry.default_max_filesize,
    }
}

/// Whether every element of a claim array is a string.
pub open spec fn spec_all_strings(elems: Seq<Option<String>>) -> bool {
    forall|i: int| 0 <= i < elems.len() ==> elems[i] is Some
}

/// The permissions a verified token grants: the named claim when it is an
/// array of strings, otherwise the entry's fallback — an array holding any
/// non-string element does not count and falls back whole.
pub open spec fn spec_claim_permissions(entry: BearerAuthConfig, claims: ClaimSet) -> Seq<
    Seq<char>,
> {
    match spec_claim_lookup(claims.fields@, entry.permissions_field_name@) {
        Some(ClaimValue::Array(elems)) => if spec_all_strings(elems@) {
            spec_strings_of(elems@)
        } else {
            string_views(entry.default_permissions@)
        },
        _ => string_views(entry.default_permissions@),
    }
}

/// Decision of a single Bearer entry over a token it verified: the requested
/// action must be among the granted permissions, else the denial carries the
/// scheme hint; the granted size limit is the token's or the entry's.
pub open spec fn spec_bearer_entry(
    entry: BearerAuthConfig,
    kind: AuthRequest,
    claims: ClaimSet,
) -> Result<Option<u64>, Option<Seq<char>>> {
    let needed = if kind == AuthRequest::Download {
        "download"@
    } else {
        "upload"@
    };
    if !spec_contains_str(spec_claim_permissions(entry, claims), needed) {
        Err(Some("Bearer"@))
    } else {
        Ok(spec_claim_max(entry, claims))
    }
}

/// Decision of a single Bearer entry, given what decoding the token with its
/// secret yielded: a token it cannot verify (or whose claims are not an
/// object) is no identity match and denies without a hint.
pub open spec fn spec_bearer_outcome(
    entry: BearerAuthConfig,
    kind: AuthRequest,
    outcome: Option<ClaimSet>,
) -> Result<Option<u64>, Option<Seq<char>>> {
    match outcome {
        None => Err(None),
        Some(claims) => spec_bearer_entry(entry, kind, claims),
    }
}

/// The ordered scan over the configured Bearer entries, given each entry's
/// decode outcome: the first entry that verified the token decides; entries
/// that could not verify it are passed over.
pub open spec fn spec_bearer_scan(
    entries: Seq<BearerAuthConfig>,
    kind: AuthRequest,
    outcomes: Seq<Option<ClaimSet>>,
    default_max: u64,
) -> Result<u64, Option<Seq<char>>>
    decreases entries.len(),
{
    if entries.len() == 0 {
        Err(None)
    } else {
        match spec_bearer_outcome(entries[0], kind, outcomes[0]) {
            Ok(max) => Ok(
                match max {
                    Some(v) => v,
                    None => default_max,
                },
            ),
            Err(Some(hint)) => Err(Some(hint)),
            Err(None) => spec_bearer_scan(
                entries.drop_first(),
                kind,
                outcomes.drop_first(),
                default_max,
            ),
        }
    }
}

/// A Bearer token that no configured entry could verify — in particular one
/// signed by a secret outside the policy — is denied without a scheme hint:
/// a failed signature is not an identity match, so nothing is disclosed.
pub proof fn lemma_bearer_no_match_no_hint(
    entries: Seq<BearerAuthConfig>,
    kind: AuthRequest,
    outcomes: Seq<Option<ClaimSet>>,
    default_max: u64,
)
    requires
        outcomes.len() == entries.len(),
        forall|i: int| 0 <= i < outcomes.len() ==> outcomes[i] is None,
    ensures
        spec_bearer_scan(entries, kind, outcomes, default_max) == Err::<u64, Option<Seq<char>>>(
            None,
        ),
    decreases entries.len(),
{
    if entries.len() > 0 {
        assert(outcomes[0] is None);
        lemma_bearer_no_match_no_hint(
            entries.drop_first(),
            kind,
            outcomes.drop_first(),
            default_max,
        );
    }
}

/// Entries whose decode outcome is a pass-over do not affect the scan.
pub proof fn lemma_bearer_scan_skip(
    entries: Seq<BearerAuthConfig>,
    kind: AuthRequest,
    outcomes: Seq<Option<ClaimSet>>,
    default_max: u64,
    i: int,
)
    requires
        0 <= i <= entries.len(),
        outcomes.len() == entries.len(),
        forall|j: int| 0 <= j < i ==> outcomes[j] is None,
    ensures
        spec_bearer_scan(entries, kind, outcomes, default_max) == spec_bearer_scan(
            entries.skip(i),
            kind,
            outcomes.skip(i),
            default_max,
        ),
    decreases i,
{
    if i > 0 {
        assert(outcomes[0] is None);
        lemma_bearer_scan_skip(
            entries.drop_first(),
            kind,
            outcomes.drop_first(),
            default_max,
            i - 1,
        );
        assert(entries.drop_first().skip(i - 1) =~= entries.skip(i));
        assert(outcomes.drop_first().skip(i - 1) =~= outcomes.skip(i));
    } else {
        assert(entries.skip(0) =~= entries);
        assert(outcomes.skip(0) =~= outcomes);
    }
}

impl BearerAuthConfig {
    /// Decide this entry for the claims of a token it verified.
    pub fn decide(&self, request: &AuthRequest, claims: &ClaimSet) -> (r: Result<
        Option<u64>,
        AuthError,
    >)
        ensures
            auth_opt_result_view(r) == spec_bearer_entry(*self, *request, *claims),
    {
        // permissions are the named claim when it is an array of strings,
        // else the fallback
        let permissions: Vec<String> = match claim_lookup(
            &claims.fields,
            &self.permissions_field_name,
        ) {
            Some(idx) => match &claims.fields[idx].1 {
                ClaimValue::Array(elems) => {
                    if all_strings(elems) {
                        strings_of(elems)
                    } else {
                        clone_strings(&self.default_permissions)
                    }
                }
                _ => clone_strings(&self.default_permissions),
            },
            None => clone_strings(&self.default_permissions),
        };

        // check that the permissions include the requested action
        let needed: &str = if *request == AuthRequest::Download {
            "download"
        } else {
            "upload"
        };
        if !contains_str(&permissions, needed) {
            return Err(AuthError::InvalidAuth(Some(String::from_str("Bearer"))));
        }

        // the size limit is the named claim when numeric, else the fallback
        let max: Option<u64> = match claim_lookup(&claims.fields, &self.max_filesize_field_name) {
            Some(idx) => match &claims.fields[idx].1 {
                ClaimValue::Number(v) => *v,
                _ => self.default_max_filesize,
            },
            None => self.default_max_filesize,
        };
        Ok(max)
    }

    /// Decide this entry for a presented token. The signature check (and the
    /// `exp` check against the clock) is jsonwebtoken's; what the verified
    /// claims grant is this library's decision.
    pub fn authorize(&self, request: &AuthRequest, argument: BearerAuthArgument) -> (r: Result<
        Option<u64>,
        AuthError,
    >)
        ensures
            exists|outcome: Option<ClaimSet>|
                auth_opt_result_view(r) == spec_bearer_outcome(*self, *request, outcome),
    {
        match jwt_decode(argument.0.as_str(), self.secret.as_str()) {
            None => {
                let r: Result<Option<u64>, AuthError> = Err(AuthError::InvalidAuth(None));
                proof {
                    assert(auth_opt_result_view(r) == spec_bearer_outcome(
                        *self,
                        *request,
                        None::<ClaimSet>,
                    ));
                }
                r
            }
            Some(pairs) => {
                let claims = extract_claims(pairs);
                let r = self.decide(request, &claims);
                proof {
                    assert(auth_opt_result_view(r) == spec_bearer_outcome(
                        *self,
                        *request,
                        Some(claims),
                    ));
                }
                r
            }
        }
    }
}

/// The permissions a Bearer entry grants when the policy sets none: both.
pub fn default_permissions() -> (r: Vec<String>)
    ensures
        r@.len() == 2,
        r@[0]@ == "download"@,
        r@[1]@ == "upload"@,
{
    let mut v: Vec<String> = Vec::new();
    v.push(String::from_str("download"));
    v.push(String::from_str("upload"));
    v
}

/// The claim read for a per-token size limit when the policy names none.
pub fn default_max_filesize_field_name() -> (r: String)
    ensures
        r@ == "max_filesize"@,
{
    String::from_str("max_filesize")
}

/// The claim read for per-token permissions when the policy names none.
pub fn default_permissions_field_name() -> (r: String)
    ensures
        r@ == "permissions"@,
{
    String::from_str("permissions")
}

} // verus!
