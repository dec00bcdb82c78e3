use base64::engine::general_purpose::STANDARD;
use base64::engine::Engine;
use meteoritus::metadata::Metadata;
use meteoritus::metadata::MetadataError;
use std::str::from_utf8;

const METADATA_STR: &str =
    "relativePath bnVsbA==, filename bXlfdmlkZW8ubXA0, filetype dmlkZW8vbXA0,is_confidential";

#[test]
fn valid_from_str() {
    let metadata = Metadata::parse(METADATA_STR).unwrap();

    assert_eq!(metadata.len(), 4);
    assert_eq!(metadata.get("relativePath"), Some(&String::from("bnVsbA==")));
    assert_eq!(metadata.get("filetype"), Some(&String::from("dmlkZW8vbXA0")));
    assert_eq!(
        metadata.get("filename"),
        Some(&String::from("bXlfdmlkZW8ubXA0"))
    );
}

#[test]
fn empty_from_str_error() {
    let metadata = Metadata::parse("");

    assert!(metadata.is_err());
    assert_eq!(metadata.err(), Some(MetadataError::InvalidMetadataFormat));
}

#[test]
fn invalid_format_from_str_error() {
    let metadata = Metadata::parse("foobar, fas bars foo bar, ");

    assert!(metadata.is_err());
    assert_eq!(metadata.err(), Some(MetadataError::InvalidMetadataFormat));
}

#[test]
fn get_raw_value_successfully() {
    let metadata = Metadata::parse(METADATA_STR).unwrap();

    assert_eq!(metadata.get_raw("filetype"), Ok(b"video/mp4".to_vec()));
    assert_eq!(metadata.get_raw("filename"), Ok(b"my_video.mp4".to_vec()));
    assert_eq!(
        from_utf8(&metadata.get_raw("relativePath").unwrap()),
        Ok("null")
    );
}

#[test]
fn get_raw_value_error() {
    let metadata = Metadata::parse(METADATA_STR).unwrap();

    assert_eq!(
        metadata.get_raw("foo bar bars"),
        Err(MetadataError::InvalidKey)
    );
}

#[test]
fn encode_parse_decode_round_trip() {
    let payloads: [&[u8]; 4] = [b"null", b"my_video.mp4", b"", b"\x00\xffbinary\x01"];
    let mut header = String::new();
    for (i, payload) in payloads.iter().enumerate() {
        if i > 0 {
            header.push(',');
        }
        header.push_str(&format!("key{} {}", i, STANDARD.encode(payload)));
    }

    let metadata = Metadata::parse(&header).unwrap();
    assert_eq!(metadata.len(), 4);
    for (i, payload) in payloads.iter().enumerate() {
        assert_eq!(metadata.get_raw(&format!("key{}", i)), Ok(payload.to_vec()));
    }
}

#[test]
fn multi_space_pair_is_format_error() {
    assert_eq!(
        Metadata::parse("fas bars foo").err(),
        Some(MetadataError::InvalidMetadataFormat)
    );
}

#[test]
fn duplicate_key_last_wins() {
    // Raw values as the mapping stores them.
    let metadata = Metadata::parse("k v1, k v2").unwrap();
    assert_eq!(metadata.len(), 1);
    assert_eq!(metadata.get("k"), Some(&String::from("v2")));

    // With decodable values the last one is what get_raw recovers.
    let metadata = Metadata::parse("k djE=, k djI=").unwrap();
    assert_eq!(metadata.get_raw("k"), Ok(b"v2".to_vec()));
}

#[test]
fn get_raw_non_base64_is_decode_error() {
    let metadata = Metadata::parse("k ***").unwrap();
    assert!(matches!(
        metadata.get_raw("k"),
        Err(MetadataError::DecodeError(_))
    ));
}

#[test]
fn leading_whitespace_is_trimmed_from_pairs() {
    // Each pair is trimmed before it is split, so surrounding whitespace
    // never produces an empty key.
    let metadata = Metadata::parse(" dmFsdWU= ,\tx").unwrap();
    assert_eq!(metadata.len(), 2);
    assert_eq!(metadata.get("dmFsdWU="), Some(&String::from("")));
    assert_eq!(metadata.get("x"), Some(&String::from("")));
}

#[test]
fn stray_commas_and_key_only_pairs() {
    let metadata = Metadata::parse("a,,b ,").unwrap();
    assert_eq!(metadata.len(), 2);
    assert_eq!(metadata.get("a"), Some(&String::from("")));
    assert_eq!(metadata.get("b"), Some(&String::from("")));
    // A key-only pair stores the empty value, which decodes to no bytes.
    assert_eq!(metadata.get_raw("a"), Ok(Vec::new()));
}

#[test]
fn new_metadata_is_empty() {
    let metadata = Metadata::new();
    assert_eq!(metadata.len(), 0);
    assert_eq!(metadata.get_raw("any"), Err(MetadataError::InvalidKey));
}
