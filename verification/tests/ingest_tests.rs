use fileway::error::UploadError;
use fileway::ingest::{is_partial_name, link_for, temp_upload_name, validate_filename, IngestCore};
use fileway::random::generate_random_characters;
use fileway::text::{parse_u64, split_two, str_contains_char, str_eq, u64_to_string};

#[test]
fn declared_zero_fails_before_any_byte() {
    let r = IngestCore::begin("f.txt".to_string(), Some(0), 100);
    assert!(matches!(r, Err(UploadError::InvalidBody)));
}

#[test]
fn declared_over_the_limit_fails_before_any_byte() {
    let r = IngestCore::begin("f.txt".to_string(), Some(101), 100);
    assert!(matches!(r, Err(UploadError::FileIsTooBig(100))));
}

#[test]
fn filename_with_separator_is_refused() {
    let r = IngestCore::begin("a/b.txt".to_string(), None, 100);
    assert!(matches!(r, Err(UploadError::InvalidFilename)));
    assert!(matches!(
        validate_filename("evil/../name"),
        Err(UploadError::InvalidFilename)
    ));
    assert!(validate_filename("fine.txt").is_ok());
}

#[test]
fn empty_stream_is_an_empty_body() {
    let core = IngestCore::begin("f.txt".to_string(), None, 100).unwrap();
    let r = core.finish();
    assert!(matches!(r, Err(UploadError::InvalidBody)));
}

#[test]
fn crossing_the_limit_mid_stream_is_refused() {
    let mut core = IngestCore::begin("f.txt".to_string(), None, 4).unwrap();
    assert!(core.accept_chunk(&[1, 2, 3]).is_ok());
    let r = core.accept_chunk(&[4, 5]);
    assert!(matches!(r, Err(UploadError::FileIsTooBig(4))));
}

#[test]
fn exactly_the_limit_is_accepted() {
    let mut core = IngestCore::begin("f.txt".to_string(), None, 4).unwrap();
    assert!(core.accept_chunk(&[1, 2]).is_ok());
    assert!(core.accept_chunk(&[3, 4]).is_ok());
    assert!(core.finish().is_ok());
}

#[test]
fn short_delivery_is_an_incomplete_upload() {
    let mut core = IngestCore::begin("f.txt".to_string(), Some(10), 100).unwrap();
    assert!(core.accept_chunk(&[0, 1, 2, 3, 4]).is_ok());
    let r = core.finish();
    assert!(matches!(r, Err(UploadError::IncompleteUpload(10, 5))));
}

#[test]
fn committed_name_carries_the_fingerprint_prefix() {
    let content = b"hello world";
    let mut core = IngestCore::begin("greeting.txt".to_string(), None, 1024).unwrap();
    core.accept_chunk(content).unwrap();
    let name = core.finish().unwrap();
    let hex = blake3::hash(content).to_hex();
    let expected = format!("{}_greeting.txt", &hex.as_str()[..8]);
    assert_eq!(name, expected);
}

#[test]
fn chunked_and_whole_streams_fingerprint_alike() {
    let mut chunked = IngestCore::begin("f".to_string(), None, 1024).unwrap();
    chunked.accept_chunk(b"ab").unwrap();
    chunked.accept_chunk(b"cd").unwrap();
    let mut whole = IngestCore::begin("f".to_string(), None, 1024).unwrap();
    whole.accept_chunk(b"abcd").unwrap();
    assert_eq!(chunked.finish().unwrap(), whole.finish().unwrap());
}

#[test]
fn temporary_names_are_marked_and_recognized() {
    let name = temp_upload_name("abcd1234", "photo.png");
    assert_eq!(name, "abcd1234_photo.png.partial".to_string());
    assert!(is_partial_name(name.as_str()));
    assert!(!is_partial_name("photo.png"));
    assert!(!is_partial_name("partial"));
    assert!(is_partial_name(".partial"));
}

#[test]
fn links_point_below_the_download_prefix() {
    assert_eq!(link_for("ab_x.txt"), "/d/ab_x.txt".to_string());
}

#[test]
fn random_prefixes_have_the_asked_length_and_charset() {
    for length in [0usize, 1, 8, 16] {
        let s = generate_random_characters(length);
        assert_eq!(s.chars().count(), length);
        assert!(s.chars().all(|c| c.is_ascii_alphanumeric()));
    }
}

#[test]
fn decimal_text_round_trips() {
    assert_eq!(u64_to_string(0), "0".to_string());
    assert_eq!(u64_to_string(42), "42".to_string());
    assert_eq!(
        u64_to_string(u64::MAX),
        "18446744073709551615".to_string()
    );
    assert_eq!(parse_u64("0"), Some(0));
    assert_eq!(parse_u64("42"), Some(42));
    assert_eq!(parse_u64("+5"), Some(5));
    assert_eq!(parse_u64("007"), Some(7));
    assert_eq!(parse_u64("18446744073709551615"), Some(u64::MAX));
    assert_eq!(parse_u64("18446744073709551616"), None);
    assert_eq!(parse_u64("99999999999999999999999"), None);
    assert_eq!(parse_u64(""), None);
    assert_eq!(parse_u64("+"), None);
    assert_eq!(parse_u64("12a"), None);
    assert_eq!(parse_u64("-3"), None);
}

#[test]
fn header_splitting_requires_exactly_one_separator() {
    assert_eq!(split_two("Basic abc", ' '), Some(("Basic", "abc")));
    assert_eq!(split_two("x ", ' '), Some(("x", "")));
    assert_eq!(split_two(" y", ' '), Some(("", "y")));
    assert_eq!(split_two("a b c", ' '), None);
    assert_eq!(split_two("nospace", ' '), None);
    assert_eq!(split_two("", ' '), None);
    assert_eq!(split_two("user:pa:ss", ':'), None);
    assert_eq!(split_two("user:pass", ':'), Some(("user", "pass")));
}

#[test]
fn text_helpers_compare_and_search() {
    assert!(str_eq("abc", "abc"));
    assert!(!str_eq("abc", "abd"));
    assert!(!str_eq("abc", "ab"));
    assert!(str_contains_char("a/b", '/'));
    assert!(!str_contains_char("ab", '/'));
}
