use fileway::auth::{default_auth_scheme, default_max_filesize, AuthConfig, AuthError, AuthRequest};
use base64::Engine;
use fileway::basic::BasicAuth;
use fileway::bearer::{
    default_max_filesize_field_name, default_permissions, default_permissions_field_name,
    BearerAuthConfig,
};

fn empty_policy() -> AuthConfig {
    AuthConfig {
        default_auth_scheme: default_auth_scheme(),
        default_max_filesize: default_max_filesize(),
        allow_downloading_for_everyone: false,
        allow_uploading_for_everyone: false,
        basic: Vec::new(),
        bearer: Vec::new(),
    }
}

fn basic_policy(max_filesize: Option<u64>) -> AuthConfig {
    let mut policy = empty_policy();
    policy.basic.push(BasicAuth {
        username: "a".to_string(),
        password: bcrypt::hash("secret", 4).unwrap(),
        max_filesize,
        allow_download: true,
        allow_upload: true,
    });
    policy
}

fn bearer_policy(secret: &str) -> AuthConfig {
    let mut policy = empty_policy();
    policy.bearer.push(BearerAuthConfig {
        secret: secret.to_string(),
        default_max_filesize: None,
        default_permissions: default_permissions(),
        max_filesize_field_name: default_max_filesize_field_name(),
        permissions_field_name: default_permissions_field_name(),
    });
    policy
}

fn basic_header(credentials: &str) -> String {
    format!(
        "Basic {}",
        base64::engine::general_purpose::STANDARD.encode(credentials)
    )
}

fn token_for(secret: &str, claims: serde_json::Value) -> String {
    jsonwebtoken::encode(
        &jsonwebtoken::Header::default(),
        &claims,
        &jsonwebtoken::EncodingKey::from_secret(secret.as_bytes()),
    )
    .unwrap()
}

fn claims_object(entries: Vec<(&str, serde_json::Value)>) -> serde_json::Value {
    let mut map = serde_json::Map::new();
    map.insert(
        "exp".to_string(),
        serde_json::Value::Number(serde_json::Number::from(4102444800u64)),
    );
    for (key, value) in entries {
        map.insert(key.to_string(), value);
    }
    serde_json::Value::Object(map)
}

#[test]
fn blanket_access_never_inspects_the_header() {
    let mut policy = empty_policy();
    policy.allow_uploading_for_everyone = true;
    // a header that would otherwise be malformed
    let r = policy.authorize(&AuthRequest::Upload, Some("utterly not a credential !!"));
    assert!(matches!(r, Ok(max) if max == default_max_filesize()));
    // and no header at all
    let r = policy.authorize(&AuthRequest::Upload, None);
    assert!(matches!(r, Ok(max) if max == default_max_filesize()));
    // but the other kind still requires authorization
    let r = policy.authorize(&AuthRequest::Download, None);
    assert!(matches!(r, Err(AuthError::InvalidAuth(None))));
}

#[test]
fn missing_header_denies_without_hint() {
    let policy = basic_policy(None);
    let r = policy.authorize(&AuthRequest::Upload, None);
    assert!(matches!(r, Err(AuthError::InvalidAuth(None))));
}

#[test]
fn malformed_header_shapes_deny_without_hint() {
    let policy = basic_policy(None);
    for header in ["Basic", "Basic a b", "", " ", "Basiconly"] {
        let r = policy.authorize(&AuthRequest::Upload, Some(header));
        assert!(matches!(r, Err(AuthError::InvalidAuth(None))), "header {header:?}");
    }
}

#[test]
fn unknown_scheme_denies_without_hint() {
    let policy = basic_policy(None);
    let r = policy.authorize(&AuthRequest::Upload, Some("Digest abcdef"));
    assert!(matches!(r, Err(AuthError::InvalidAuth(None))));
}

#[test]
fn basic_correct_credentials_grant_the_entry_limit() {
    let policy = basic_policy(Some(100));
    let header = basic_header("a:secret");
    let r = policy.authorize(&AuthRequest::Upload, Some(header.as_str()));
    assert!(matches!(r, Ok(100)));
}

#[test]
fn basic_entry_without_limit_grants_the_policy_default() {
    let policy = basic_policy(None);
    let header = basic_header("a:secret");
    let r = policy.authorize(&AuthRequest::Upload, Some(header.as_str()));
    assert!(matches!(r, Ok(max) if max == default_max_filesize()));
}

#[test]
fn basic_wrong_password_yields_the_scheme_hint() {
    let policy = basic_policy(Some(100));
    let header = basic_header("a:wrong");
    let r = policy.authorize(&AuthRequest::Upload, Some(header.as_str()));
    match r {
        Err(AuthError::InvalidAuth(Some(scheme))) => assert_eq!(scheme, "Basic".to_string()),
        other => panic!("expected a Basic hint, got {other:?}"),
    }
    // surfaced, it keeps the hint and answers 401 with that scheme
    let policy2 = basic_policy(Some(100));
    let err = policy2
        .authorize(&AuthRequest::Upload, Some(header.as_str()))
        .err()
        .unwrap();
    let surfaced = policy2.surface_auth_error(err);
    assert_eq!(surfaced.status_code(), 401);
    assert_eq!(
        surfaced.challenge_scheme().unwrap().as_str(),
        "Basic"
    );
}

#[test]
fn basic_unknown_username_denies_without_hint() {
    let policy = basic_policy(Some(100));
    let header = basic_header("stranger:secret");
    let r = policy.authorize(&AuthRequest::Upload, Some(header.as_str()));
    assert!(matches!(r, Err(AuthError::InvalidAuth(None))));
}

#[test]
fn basic_disallowed_action_yields_the_scheme_hint() {
    let mut policy = empty_policy();
    policy.basic.push(BasicAuth {
        username: "a".to_string(),
        password: bcrypt::hash("secret", 4).unwrap(),
        max_filesize: None,
        allow_download: true,
        allow_upload: false,
    });
    let header = basic_header("a:secret");
    let r = policy.authorize(&AuthRequest::Upload, Some(header.as_str()));
    assert!(matches!(r, Err(AuthError::InvalidAuth(Some(s))) if s == "Basic"));
    let r = policy.authorize(&AuthRequest::Download, Some(header.as_str()));
    assert!(matches!(r, Ok(_)));
}

#[test]
fn basic_first_matching_username_decides() {
    // the first entry for "a" has the wrong password; a later entry with the
    // right one must not be consulted
    let mut policy = basic_policy(Some(1));
    policy.basic.push(BasicAuth {
        username: "a".to_string(),
        password: bcrypt::hash("other", 4).unwrap(),
        max_filesize: Some(2),
        allow_download: true,
        allow_upload: true,
    });
    let header = basic_header("a:other");
    let r = policy.authorize(&AuthRequest::Upload, Some(header.as_str()));
    assert!(matches!(r, Err(AuthError::InvalidAuth(Some(s))) if s == "Basic"));
}

#[test]
fn basic_bad_base64_denies_without_hint() {
    let policy = basic_policy(None);
    let r = policy.authorize(&AuthRequest::Upload, Some("Basic %%%%"));
    assert!(matches!(r, Err(AuthError::InvalidAuth(None))));
}

#[test]
fn basic_invalid_utf8_denies_without_hint() {
    let policy = basic_policy(None);
    let header = format!(
        "Basic {}",
        base64::engine::general_purpose::STANDARD.encode([0xffu8, 0xfe, 0x3a, 0xff])
    );
    let r = policy.authorize(&AuthRequest::Upload, Some(header.as_str()));
    assert!(matches!(r, Err(AuthError::InvalidAuth(None))));
}

#[test]
fn basic_payload_without_exactly_one_colon_denies_without_hint() {
    let policy = basic_policy(None);
    for credentials in ["nocolon", "a:b:c"] {
        let header = basic_header(credentials);
        let r = policy.authorize(&AuthRequest::Upload, Some(header.as_str()));
        assert!(matches!(r, Err(AuthError::InvalidAuth(None))), "payload {credentials:?}");
    }
}

#[test]
fn bearer_unconfigured_secret_denies_without_hint() {
    let policy = bearer_policy("the-right-secret");
    let token = token_for("some-other-secret", claims_object(Vec::new()));
    let header = format!("Bearer {token}");
    let r = policy.authorize(&AuthRequest::Download, Some(header.as_str()));
    assert!(matches!(r, Err(AuthError::InvalidAuth(None))));
}

#[test]
fn bearer_valid_token_grants_default_permissions_and_limit() {
    let policy = bearer_policy("s1");
    let token = token_for("s1", claims_object(Vec::new()));
    let header = format!("Bearer {token}");
    let r = policy.authorize(&AuthRequest::Download, Some(header.as_str()));
    assert!(matches!(r, Ok(max) if max == default_max_filesize()));
    let r = policy.authorize(&AuthRequest::Upload, Some(header.as_str()));
    assert!(matches!(r, Ok(_)));
}

#[test]
fn bearer_token_claims_override_limit_and_permissions() {
    let policy = bearer_policy("s1");
    let claims = claims_object(vec![
        (
            "max_filesize",
            serde_json::Value::Number(serde_json::Number::from(123u64)),
        ),
        (
            "permissions",
            serde_json::Value::Array(vec![serde_json::Value::String("upload".to_string())]),
        ),
    ]);
    let token = token_for("s1", claims);
    let header = format!("Bearer {token}");
    let r = policy.authorize(&AuthRequest::Upload, Some(header.as_str()));
    assert!(matches!(r, Ok(123)));
    // download is not among the granted permissions: hint, not silence
    let r = policy.authorize(&AuthRequest::Download, Some(header.as_str()));
    assert!(matches!(r, Err(AuthError::InvalidAuth(Some(s))) if s == "Bearer"));
}

#[test]
fn bearer_mixed_permission_array_falls_back_whole() {
    // an array holding any non-string element is not an array of strings:
    // the entry's own permissions decide, here download only
    let mut policy = bearer_policy("s1");
    policy.bearer[0].default_permissions = vec!["download".to_string()];
    let claims = claims_object(vec![(
        "permissions",
        serde_json::Value::Array(vec![
            serde_json::Value::Number(serde_json::Number::from(5u64)),
            serde_json::Value::String("upload".to_string()),
        ]),
    )]);
    let token = token_for("s1", claims);
    let header = format!("Bearer {token}");
    assert!(matches!(
        policy.authorize(&AuthRequest::Upload, Some(header.as_str())),
        Err(AuthError::InvalidAuth(Some(s))) if s == "Bearer"
    ));
    assert!(matches!(
        policy.authorize(&AuthRequest::Download, Some(header.as_str())),
        Ok(_)
    ));
}

#[test]
fn bearer_non_numeric_limit_falls_back() {
    let mut policy = bearer_policy("s1");
    policy.bearer[0].default_max_filesize = Some(77);
    let claims = claims_object(vec![(
        "max_filesize",
        serde_json::Value::String("a lot".to_string()),
    )]);
    let token = token_for("s1", claims);
    let header = format!("Bearer {token}");
    let r = policy.authorize(&AuthRequest::Upload, Some(header.as_str()));
    assert!(matches!(r, Ok(77)));
}

#[test]
fn bearer_second_secret_wins_when_first_cannot_verify() {
    let mut policy = bearer_policy("s1");
    policy.bearer.push(BearerAuthConfig {
        secret: "s2".to_string(),
        default_max_filesize: Some(55),
        default_permissions: default_permissions(),
        max_filesize_field_name: default_max_filesize_field_name(),
        permissions_field_name: default_permissions_field_name(),
    });
    let token = token_for("s2", claims_object(Vec::new()));
    let header = format!("Bearer {token}");
    let r = policy.authorize(&AuthRequest::Download, Some(header.as_str()));
    assert!(matches!(r, Ok(55)));
}

#[test]
fn bearer_expired_token_denies_without_hint() {
    let policy = bearer_policy("s1");
    let mut map = serde_json::Map::new();
    map.insert(
        "exp".to_string(),
        serde_json::Value::Number(serde_json::Number::from(1000000u64)),
    );
    let token = token_for("s1", serde_json::Value::Object(map));
    let header = format!("Bearer {token}");
    let r = policy.authorize(&AuthRequest::Download, Some(header.as_str()));
    assert!(matches!(r, Err(AuthError::InvalidAuth(None))));
}

#[test]
fn surfaced_denial_without_hint_uses_the_default_scheme() {
    let policy = empty_policy();
    let err = policy.authorize(&AuthRequest::Download, None).err().unwrap();
    let surfaced = policy.surface_auth_error(err);
    assert_eq!(surfaced.status_code(), 401);
    assert_eq!(surfaced.challenge_scheme().unwrap().as_str(), "Basic");
    assert_eq!(surfaced.body_message(), "Unauthorized".to_string());
}

#[test]
fn bearer_decision_reads_plain_claims() {
    let entry = BearerAuthConfig {
        secret: "s1".to_string(),
        default_max_filesize: None,
        default_permissions: default_permissions(),
        max_filesize_field_name: default_max_filesize_field_name(),
        permissions_field_name: default_permissions_field_name(),
    };
    let claims = fileway::bearer::ClaimSet {
        fields: vec![
            (
                "max_filesize".to_string(),
                fileway::bearer::ClaimValue::Number(Some(5)),
            ),
            (
                "permissions".to_string(),
                fileway::bearer::ClaimValue::Array(vec![Some("upload".to_string())]),
            ),
        ],
    };
    let r = entry.decide(&AuthRequest::Upload, &claims);
    assert!(matches!(r, Ok(Some(5))));
    let r = entry.decide(&AuthRequest::Download, &claims);
    assert!(matches!(r, Err(AuthError::InvalidAuth(Some(s))) if s == "Bearer"));

    // an array with a non-string element falls back to the entry's defaults
    let mut restricted = entry.clone();
    restricted.default_permissions = vec!["download".to_string()];
    let mixed = fileway::bearer::ClaimSet {
        fields: vec![(
            "permissions".to_string(),
            fileway::bearer::ClaimValue::Array(vec![Some("upload".to_string()), None]),
        )],
    };
    let r = restricted.decide(&AuthRequest::Upload, &mixed);
    assert!(matches!(r, Err(AuthError::InvalidAuth(Some(s))) if s == "Bearer"));
    let r = restricted.decide(&AuthRequest::Download, &mixed);
    assert!(matches!(r, Ok(None)));
}

#[test]
fn claim_extraction_keeps_keys_and_shapes() {
    let pairs = vec![
        (
            "n".to_string(),
            serde_json::Value::Number(serde_json::Number::from(7u64)),
        ),
        (
            "negative".to_string(),
            serde_json::Value::Number(serde_json::Number::from(-1i64)),
        ),
        (
            "arr".to_string(),
            serde_json::Value::Array(vec![
                serde_json::Value::String("x".to_string()),
                serde_json::Value::Bool(true),
            ]),
        ),
        ("other".to_string(), serde_json::Value::Null),
    ];
    let claims = fileway::bearer::extract_claims(pairs);
    assert_eq!(claims.fields.len(), 4);
    assert_eq!(claims.fields[0].0, "n".to_string());
    assert!(matches!(
        claims.fields[0].1,
        fileway::bearer::ClaimValue::Number(Some(7))
    ));
    // a number outside u64 is numeric with no usable value
    assert!(matches!(
        claims.fields[1].1,
        fileway::bearer::ClaimValue::Number(None)
    ));
    match &claims.fields[2].1 {
        fileway::bearer::ClaimValue::Array(elems) => {
            assert_eq!(elems, &vec![Some("x".to_string()), None]);
        }
        _ => panic!("expected an array claim, got a different shape"),
    }
    assert!(matches!(
        claims.fields[3].1,
        fileway::bearer::ClaimValue::Other
    ));
}
