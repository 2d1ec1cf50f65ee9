use base64::Engine;
use fileway::auth::{default_auth_scheme, default_max_filesize, AuthConfig, AuthRequest};
use fileway::basic::BasicAuth;
use fileway::error::UploadError;
use fileway::file_data::{FileData, FileDataPermission};
use fileway::ingest::link_for;
use fileway::store::Store;

fn one_user_policy() -> AuthConfig {
    AuthConfig {
        default_auth_scheme: default_auth_scheme(),
        default_max_filesize: default_max_filesize(),
        allow_downloading_for_everyone: false,
        allow_uploading_for_everyone: false,
        basic: vec![BasicAuth {
            username: "a".to_string(),
            password: bcrypt::hash("secret", 4).unwrap(),
            max_filesize: Some(100),
            allow_download: true,
            allow_upload: true,
        }],
        bearer: Vec::new(),
    }
}

fn basic_header(credentials: &str) -> String {
    format!(
        "Basic {}",
        base64::engine::general_purpose::STANDARD.encode(credentials)
    )
}

#[test]
fn authorized_upload_creates_a_link_under_the_download_prefix() {
    let policy = one_user_policy();
    let header = basic_header("a:secret");
    let max = policy
        .authorize(&AuthRequest::Upload, Some(header.as_str()))
        .unwrap();
    assert_eq!(max, 100);

    let mut store = Store::new();
    let body = vec![7u8; 50];
    let name = store
        .upload(
            &"f.txt".to_string(),
            Some(50),
            max,
            &"rand0000".to_string(),
            &vec![body.clone()],
        )
        .unwrap();
    let link = link_for(&name);
    let hex = blake3::hash(&body).to_hex();
    assert_eq!(link, format!("/d/{}_f.txt", &hex.as_str()[..8]));

    let fetched = store.download(&name, None, 0).unwrap();
    assert_eq!(fetched, body);
}

#[test]
fn wrong_password_is_challenged_with_the_basic_scheme() {
    let policy = one_user_policy();
    let header = basic_header("a:wrong");
    let err = policy
        .authorize(&AuthRequest::Upload, Some(header.as_str()))
        .err()
        .unwrap();
    let surfaced = policy.surface_auth_error(err);
    // the HTTP boundary turns this into 401 with a WWW-Authenticate header
    assert_eq!(surfaced.status_code(), 401);
    assert_eq!(surfaced.challenge_scheme().unwrap().as_str(), "Basic");
}

#[test]
fn unlimited_override_serves_an_anonymous_caller() {
    // the policy denies anonymous downloads
    let policy = one_user_policy();
    let denial = policy
        .authorize(&AuthRequest::Download, None)
        .err()
        .map(|err| policy.surface_auth_error(err));
    assert!(denial.is_some());

    let mut store = Store::new();
    let name = store
        .upload(
            &"open.txt".to_string(),
            None,
            100,
            &"rand0000".to_string(),
            &vec![vec![1, 2, 3]],
        )
        .unwrap();
    store.put_record(
        name.as_str(),
        FileData {
            download_permission: Some(FileDataPermission::Unlimited),
            ttl: None,
        },
    );
    let body = store.download(&name, denial, 1000).unwrap();
    assert_eq!(body, vec![1, 2, 3]);
}

#[test]
fn expired_file_is_not_found_and_gone_afterwards() {
    let mut store = Store::new();
    let name = store
        .upload(
            &"old.txt".to_string(),
            None,
            100,
            &"rand0000".to_string(),
            &vec![vec![1]],
        )
        .unwrap();
    store.put_record(
        name.as_str(),
        FileData {
            download_permission: None,
            ttl: Some(99),
        },
    );
    let r = store.download(&name, None, 100);
    assert!(matches!(r, Err(UploadError::FileNotExists)));
    assert!(!store.has_blob(name.as_str()));
    assert!(store.get_record(name.as_str()).is_none());
}
