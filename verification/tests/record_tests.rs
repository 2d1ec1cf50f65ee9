use fileway::error::UploadError;
use fileway::file_data::{current_unix_timestamp, FileData, FileDataPermission};

#[test]
fn record_text_matches_the_common_json_form() {
    let empty = FileData {
        download_permission: None,
        ttl: None,
    };
    assert_eq!(
        empty.to_record_string(),
        "{\"download_permission\":null,\"ttl\":null}".to_string()
    );
    let full = FileData {
        download_permission: Some(FileDataPermission::Unlimited),
        ttl: Some(1234),
    };
    assert_eq!(
        full.to_record_string(),
        "{\"download_permission\":\"unlimited\",\"ttl\":1234}".to_string()
    );
    let denied = FileData {
        download_permission: Some(FileDataPermission::Denied),
        ttl: None,
    };
    assert_eq!(
        denied.to_record_string(),
        "{\"download_permission\":\"none\",\"ttl\":null}".to_string()
    );
}

#[test]
fn record_text_agrees_with_a_generic_json_writer() {
    // the persisted form is exactly what the ubiquitous JSON serializer
    // writes for the equivalent object
    let mut object = serde_json::Map::new();
    object.insert(
        "download_permission".to_string(),
        serde_json::Value::String("none".to_string()),
    );
    object.insert(
        "ttl".to_string(),
        serde_json::Value::Number(serde_json::Number::from(77u64)),
    );
    let generic = serde_json::to_string(&serde_json::Value::Object(object)).unwrap();
    let record = FileData {
        download_permission: Some(FileDataPermission::Denied),
        ttl: Some(77),
    };
    assert_eq!(record.to_record_string(), generic);
}

#[test]
fn every_record_round_trips_through_its_text() {
    let permissions = [
        None,
        Some(FileDataPermission::Denied),
        Some(FileDataPermission::Unlimited),
    ];
    let ttls = [None, Some(0u64), Some(1700000000), Some(u64::MAX)];
    for dp in permissions {
        for ttl in ttls {
            let record = FileData {
                download_permission: dp,
                ttl,
            };
            let text = record.to_record_string();
            let parsed = FileData::parse_record(text.as_str()).unwrap();
            assert_eq!(parsed, record);
        }
    }
}

#[test]
fn documented_record_forms_are_accepted() {
    let default = FileData {
        download_permission: None,
        ttl: None,
    };
    // an absent field means "no override"
    assert_eq!(FileData::parse_record("{}").unwrap(), default);
    assert_eq!(
        FileData::parse_record("{\"download_permission\":null}").unwrap(),
        default
    );
    assert_eq!(FileData::parse_record("{\"ttl\":null}").unwrap(), default);
    assert_eq!(
        FileData::parse_record("{\"download_permission\":\"unlimited\"}").unwrap(),
        FileData {
            download_permission: Some(FileDataPermission::Unlimited),
            ttl: None,
        }
    );
    assert_eq!(
        FileData::parse_record("{\"ttl\":42}").unwrap(),
        FileData {
            download_permission: None,
            ttl: Some(42),
        }
    );
    // either field order
    assert_eq!(
        FileData::parse_record("{\"ttl\":7,\"download_permission\":\"none\"}").unwrap(),
        FileData {
            download_permission: Some(FileDataPermission::Denied),
            ttl: Some(7),
        }
    );
    assert_eq!(
        FileData::parse_record("{\"ttl\":null,\"download_permission\":null}").unwrap(),
        default
    );
}

#[test]
fn foreign_or_mangled_record_texts_are_refused() {
    let bad = [
        "",
        "null",
        "{\"download_permission\": null,\"ttl\":null}",
        "{\"download_permission\":null,\"ttl\":007}",
        "{\"download_permission\":null,\"ttl\":+7}",
        "{\"download_permission\":null,\"ttl\":null}}",
        "{\"download_permission\":\"all\",\"ttl\":null}",
        "{\"download_permission\":null,\"ttl\":18446744073709551616}",
        "{\"ttl\":1,\"ttl\":2}",
        "{\"download_permission\":\"none\"x,\"ttl\":null}",
        "{\"ttl\":1,\"download_permission\":\"none\"x}",
        "{\"unknown\":1}",
    ];
    for text in bad {
        let r = FileData::parse_record(text);
        assert!(
            matches!(r, Err(UploadError::InternalServerError)),
            "text {text:?}"
        );
    }
}

#[test]
fn permission_values_parse_exactly() {
    assert!(matches!(
        FileDataPermission::parse("none"),
        Ok(FileDataPermission::Denied)
    ));
    assert!(matches!(
        FileDataPermission::parse("unlimited"),
        Ok(FileDataPermission::Unlimited)
    ));
    let r = FileDataPermission::parse("open");
    match r {
        Err(UploadError::InvalidFileDataArgument(header)) => {
            assert_eq!(header, "File-Data-Download-Permission".to_string());
        }
        other => panic!("expected a header complaint, got {other:?}"),
    }
}

#[test]
fn overrides_build_the_record_at_the_given_instant() {
    let r = FileData::from_overrides(None, None, 100).unwrap();
    assert!(r.is_empty());
    let r = FileData::from_overrides(Some("unlimited"), Some("60"), 100).unwrap();
    assert_eq!(r.download_permission, Some(FileDataPermission::Unlimited));
    assert_eq!(r.ttl, Some(160));
    let r = FileData::from_overrides(None, Some("60"), 100).unwrap();
    assert!(!r.is_empty());
    assert_eq!(r.ttl, Some(160));
}

#[test]
fn bad_override_values_name_the_offending_header() {
    match FileData::from_overrides(Some("sometimes"), None, 0) {
        Err(UploadError::InvalidFileDataArgument(header)) => {
            assert_eq!(header, "File-Data-Download-Permission".to_string());
        }
        other => panic!("unexpected {other:?}"),
    }
    match FileData::from_overrides(None, Some("soon"), 0) {
        Err(UploadError::InvalidFileDataArgument(header)) => {
            assert_eq!(header, "File-Data-Delete-After".to_string());
        }
        other => panic!("unexpected {other:?}"),
    }
}

#[test]
fn an_overlong_delete_after_saturates_instead_of_wrapping() {
    let r = FileData::from_overrides(None, Some("18446744073709551615"), 100).unwrap();
    assert_eq!(r.ttl, Some(u64::MAX));
}

#[test]
fn expiry_is_strictly_in_the_past() {
    let record = FileData {
        download_permission: None,
        ttl: Some(5),
    };
    assert!(!record.expired_at(5));
    assert!(record.expired_at(6));
    let eternal = FileData {
        download_permission: None,
        ttl: None,
    };
    assert!(!eternal.expired_at(u64::MAX));
    assert!(!eternal.expired());
}

#[test]
fn the_clock_moves_forward() {
    let now = current_unix_timestamp();
    // after 2020-01-01 on any sane host clock
    assert!(now > 1577836800);
    assert!(current_unix_timestamp() >= now);
}

#[test]
fn error_codes_and_texts_match_the_taxonomy() {
    assert_eq!(UploadError::InternalServerError.status_code(), 500);
    assert_eq!(UploadError::FileNotExists.status_code(), 404);
    assert_eq!(UploadError::InvalidFilename.status_code(), 400);
    assert_eq!(UploadError::FileIsTooBig(9).status_code(), 400);
    assert_eq!(UploadError::InvalidBody.status_code(), 502);
    assert_eq!(UploadError::IncompleteUpload(2, 1).status_code(), 400);
    assert_eq!(UploadError::InvalidAuth("Basic".to_string()).status_code(), 401);
    assert_eq!(
        UploadError::InvalidFileDataArgument("X".to_string()).status_code(),
        400
    );
    assert_eq!(
        UploadError::FileIsTooBig(100).body_message(),
        "The file you tried to upload is too big. The maximum filesize is 100 bytes.".to_string()
    );
    assert_eq!(
        UploadError::IncompleteUpload(10, 5).body_message(),
        "Incomplete upload. You announced 10 bytes (content of Content-Length header) but only sent 5 bytes."
            .to_string()
    );
    assert_eq!(
        UploadError::InvalidFileDataArgument("File-Data-Delete-After".to_string()).body_message(),
        "Invalid file data header 'File-Data-Delete-After'".to_string()
    );
    assert_eq!(
        UploadError::FileNotExists.body_message(),
        "File does not exist".to_string()
    );
    assert!(UploadError::FileNotExists.challenge_scheme().is_none());
}
