use s3_buddy::form::parse_u64;
use s3_buddy::Config;
use s3_buddy::Mapping;

#[test]
fn test_parse_s3_url() {
    let config = Config::new(
        "s3://my-bucket/path/to/file.txt".to_string(),
        "short.example.com".to_string(),
        "Z1234567890ABC".to_string(),
    )
    .unwrap();

    let (bucket, key) = config.parse_s3_url().unwrap();
    assert_eq!(bucket, "my-bucket");
    assert_eq!(key, "path/to/file.txt");
}

#[test]
fn test_invalid_s3_url() {
    let result = Config::new(
        "https://example.com/file".to_string(),
        "short.example.com".to_string(),
        "Z1234567890ABC".to_string(),
    );
    assert!(result.is_err());
}

#[test]
fn test_config_defaults() {
    let config = Config::new(
        "s3://bucket/key".to_string(),
        "short.example.com".to_string(),
        "Z1234567890ABC".to_string(),
    )
    .unwrap();
    assert_eq!(config.presign_duration_secs, 12 * 60 * 60);
    assert_eq!(config.refresh_interval_secs, 11 * 60 * 60);
}

#[test]
fn test_config_parse_requires_key() {
    let config = Config::new(
        "s3://bucket-only".to_string(),
        "short.example.com".to_string(),
        "Z1234567890ABC".to_string(),
    )
    .unwrap();
    assert!(config.parse_s3_url().is_err());
}

#[test]
fn test_parse_s3_url_with_path() {
    let mapping = Mapping::new(
        "s3://my-bucket/documents/reports/".to_string(),
        "files.example.com".to_string(),
    );

    let (bucket, key) = mapping.parse_s3_url().unwrap();
    assert_eq!(bucket, "my-bucket");
    assert_eq!(key, "documents/reports/");
}

#[test]
fn test_parse_s3_url_no_trailing_slash() {
    let mapping = Mapping::new(
        "s3://my-bucket/docs".to_string(),
        "files.example.com".to_string(),
    );

    let (bucket, key) = mapping.parse_s3_url().unwrap();
    assert_eq!(bucket, "my-bucket");
    assert_eq!(key, "docs");
}

#[test]
fn test_parse_s3_url_bucket_only() {
    let mapping = Mapping::new(
        "s3://my-bucket".to_string(),
        "files.example.com".to_string(),
    );

    let (bucket, key) = mapping.parse_s3_url().unwrap();
    assert_eq!(bucket, "my-bucket");
    assert_eq!(key, "");
}

#[test]
fn test_parse_s3_url_invalid() {
    let mapping = Mapping::new(
        "https://example.com/file".to_string(),
        "files.example.com".to_string(),
    );

    assert!(mapping.parse_s3_url().is_err());
}

#[test]
fn test_parse_s3_url_missing_prefix() {
    let mapping = Mapping::new("bucket/key".to_string(), "files.example.com".to_string());

    assert!(mapping.parse_s3_url().is_err());
}

#[test]
fn test_mapping_s3_url_parsing() {
    let mapping = Mapping::new(
        "s3://my-bucket/documents/reports/".to_string(),
        "files.example.com".to_string(),
    );

    let (bucket, key) = mapping.parse_s3_url().unwrap();
    assert_eq!(bucket, "my-bucket");
    assert_eq!(key, "documents/reports/");
}

#[test]
fn test_mapping_s3_url_parsing_no_path() {
    let mapping = Mapping::new(
        "s3://my-bucket".to_string(),
        "files.example.com".to_string(),
    );

    let (bucket, key) = mapping.parse_s3_url().unwrap();
    assert_eq!(bucket, "my-bucket");
    assert_eq!(key, "");
}

#[test]
fn test_mapping_s3_url_parsing_trailing_slash() {
    let mapping = Mapping::new(
        "s3://my-bucket/docs/".to_string(),
        "files.example.com".to_string(),
    );

    let (bucket, key) = mapping.parse_s3_url().unwrap();
    assert_eq!(bucket, "my-bucket");
    assert_eq!(key, "docs/");
}

#[test]
fn test_mapping_s3_url_parsing_invalid() {
    let mapping = Mapping::new(
        "https://example.com/file".to_string(),
        "files.example.com".to_string(),
    );

    assert!(mapping.parse_s3_url().is_err());
}

#[test]
fn test_parse_empty_bucket_and_key() {
    let mapping = Mapping::new("s3://".to_string(), "files.example.com".to_string());
    let (bucket, key) = mapping.parse_s3_url().unwrap();
    assert_eq!(bucket, "");
    assert_eq!(key, "");
}

#[test]
fn test_parse_u64_values() {
    assert_eq!(parse_u64("0"), Some(0));
    assert_eq!(parse_u64("12"), Some(12));
    assert_eq!(parse_u64("18446744073709551615"), Some(u64::MAX));
    assert_eq!(parse_u64("18446744073709551616"), None);
    assert_eq!(parse_u64("12a"), None);
    assert_eq!(parse_u64("-1"), None);
    assert_eq!(parse_u64(""), None);
}
