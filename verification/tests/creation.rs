use meteoritus::creation::build_upload_record;
use meteoritus::creation::creation_handler;
use meteoritus::creation::parse_tus_metadata;
use meteoritus::creation::CreationRequest;
use meteoritus::creation::CreationResponder;
use meteoritus::creation::HttpStatus;
use meteoritus::strings::parse_u64;

#[test]
fn missing_version_header_is_bad_request() {
    let r = CreationRequest::from_headers(None, Some("0"), Some("100"), None, 1000);
    let rej = r.err().unwrap();
    assert_eq!(rej.status, HttpStatus::BadRequest);
    assert_eq!(rej.message, "Missing or invalid Tus-Resumable header");
    assert_eq!(rej.status.code(), 400);
}

#[test]
fn wrong_version_header_is_bad_request() {
    let r = CreationRequest::from_headers(Some("0.2.2"), Some("0"), Some("100"), None, 1000);
    let rej = r.err().unwrap();
    assert_eq!(rej.status, HttpStatus::BadRequest);
    assert_eq!(rej.message, "Missing or invalid Tus-Resumable header");
}

#[test]
fn missing_content_length_is_bad_request() {
    let r = CreationRequest::from_headers(Some("1.0.0"), None, Some("100"), None, 1000);
    let rej = r.err().unwrap();
    assert_eq!(rej.status, HttpStatus::BadRequest);
    assert_eq!(rej.message, "Missing Content-Length header");
}

#[test]
fn missing_upload_length_is_bad_request() {
    let r = CreationRequest::from_headers(Some("1.0.0"), Some("0"), None, None, 1000);
    let rej = r.err().unwrap();
    assert_eq!(rej.status, HttpStatus::BadRequest);
    assert_eq!(rej.message, "Missing Upload-Length header");
}

#[test]
fn unparsable_upload_length_is_bad_request() {
    for bad in ["abc", "-1", "12x", "", " 5", "9999999999999999999999"] {
        let r = CreationRequest::from_headers(Some("1.0.0"), Some("0"), Some(bad), None, 1000);
        let rej = r.err().unwrap();
        assert_eq!(rej.status, HttpStatus::BadRequest);
        assert_eq!(rej.message, "Invalid Upload-Length header");
    }
}

#[test]
fn oversized_upload_length_is_payload_too_large() {
    let r = CreationRequest::from_headers(Some("1.0.0"), Some("0"), Some("5000"), None, 1000);
    let rej = r.err().unwrap();
    assert_eq!(rej.status, HttpStatus::PayloadTooLarge);
    assert_eq!(rej.message, "Upload-Length exceeds the Tus-Max-Size");
    assert_eq!(rej.status.code(), 413);
}

#[test]
fn creation_scenario_without_metadata() {
    let r = CreationRequest::from_headers(Some("1.0.0"), Some("0"), Some("100"), None, 1000);
    let req = r.ok().unwrap();
    assert_eq!(req.upload_length, 100);
    assert!(req.metadata.is_none());

    let record = build_upload_record(req, String::from("abc123"));
    assert_eq!(record.length, 100);
    assert!(record.metadata.is_none());

    let responder = creation_handler(&record, Ok::<(), String>(()));
    match responder {
        CreationResponder::Success(uri) => assert_eq!(uri, "/files/abc123"),
        CreationResponder::Failure(_, _) => panic!("expected success"),
    }
}

#[test]
fn creation_scenario_over_ceiling() {
    let r = CreationRequest::from_headers(Some("1.0.0"), Some("0"), Some("5000"), None, 1000);
    assert!(r.is_err());
    let rej = r.err().unwrap();
    assert_eq!(rej.status, HttpStatus::PayloadTooLarge);
}

#[test]
fn lenient_metadata_scenario() {
    let header =
        "relativePath bnVsbA==, filename bXlfdmlkZW8ubXA0, filetype dmlkZW8vbXA0,is_confidential";
    let metadata = parse_tus_metadata(header);
    assert_eq!(metadata.len(), 3);
    assert_eq!(metadata.get("relativePath"), Some(&String::from("bnVsbA==")));
    assert_eq!(
        metadata.get("filename"),
        Some(&String::from("bXlfdmlkZW8ubXA0"))
    );
    assert_eq!(
        metadata.get("filetype"),
        Some(&String::from("dmlkZW8vbXA0"))
    );
    // The space-less pair is dropped entirely by the lenient reader ...
    assert!(metadata.get("is_confidential").is_none());

    // ... while the strict parser keeps it with an empty value.
    let strict = meteoritus::metadata::Metadata::parse(header).unwrap();
    assert_eq!(strict.len(), 4);
    assert_eq!(strict.get("is_confidential"), Some(&String::from("")));
}

#[test]
fn lenient_metadata_through_negotiation() {
    let r = CreationRequest::from_headers(
        Some("1.0.0"),
        Some("0"),
        Some("100"),
        Some("filename bXlfdmlkZW8ubXA0,is_confidential"),
        1000,
    );
    let req = r.ok().unwrap();
    let metadata = req.metadata.unwrap();
    assert_eq!(metadata.len(), 1);
    assert_eq!(metadata.get_raw("filename"), Ok(b"my_video.mp4".to_vec()));
}

#[test]
fn empty_metadata_header_is_no_metadata() {
    let r = CreationRequest::from_headers(Some("1.0.0"), Some("0"), Some("100"), Some(""), 1000);
    let req = r.ok().unwrap();
    assert!(req.metadata.is_none());
}

#[test]
fn vault_failure_is_generic_internal_error() {
    let req = CreationRequest {
        upload_length: 100,
        metadata: None,
    };
    let record = build_upload_record(req, String::from("abc123"));

    // Whatever the underlying cause carries, the outcome is the same generic
    // internal error, and the cause's text never reaches the response.
    let responder = creation_handler(&record, Err::<(), String>(String::from("disk full")));
    match responder {
        CreationResponder::Failure(status, message) => {
            assert_eq!(status, HttpStatus::InternalServerError);
            assert_eq!(status.code(), 500);
            assert_eq!(message, "some error");
        }
        CreationResponder::Success(_) => panic!("expected failure"),
    }

    let responder = creation_handler(&record, Err::<(), u32>(7));
    let parts = responder.into_parts();
    assert_eq!(parts.status, HttpStatus::InternalServerError);
    assert_eq!(parts.body, Some("some error"));
    assert!(parts.location.is_none());
    assert!(parts.tus_version.is_none());
}

#[test]
fn success_response_parts() {
    let responder = CreationResponder::Success(String::from("/files/xyz"));
    let parts = responder.into_parts();
    assert_eq!(parts.status, HttpStatus::Created);
    assert_eq!(parts.status.code(), 201);
    assert_eq!(parts.location, Some(String::from("/files/xyz")));
    assert_eq!(parts.tus_version, Some("1.0.0"));
    assert!(parts.body.is_none());
}

#[test]
fn parse_u64_edge_cases() {
    assert_eq!(parse_u64("0"), Some(0));
    assert_eq!(parse_u64("100"), Some(100));
    assert_eq!(parse_u64("+42"), Some(42));
    assert_eq!(parse_u64("18446744073709551615"), Some(u64::MAX));
    assert_eq!(parse_u64("18446744073709551616"), None);
    assert_eq!(parse_u64(""), None);
    assert_eq!(parse_u64("+"), None);
    assert_eq!(parse_u64("-1"), None);
    assert_eq!(parse_u64("1 0"), None);
    assert_eq!(parse_u64("007"), Some(7));
}
