use s3pulse::error::{
    contains_any, ConfigError, StoreError, StoreErrorKind, TemplateError, UriParseError,
    WatcherError,
};
use s3pulse::uri::S3Uri;

/// Stands in for an SDK error: a terse outer message with the real detail
/// nested underneath.
#[derive(Debug)]
struct Layered {
    message: String,
    source: Option<Box<Layered>>,
}

impl Layered {
    fn new(message: &str) -> Self {
        Self {
            message: message.to_owned(),
            source: None,
        }
    }

    fn caused_by(mut self, inner: Layered) -> Self {
        self.source = Some(Box::new(inner));
        self
    }
}

impl std::fmt::Display for Layered {
    fn fmt(&self, formatter: &mut std::fmt::Formatter<'_>) -> std::fmt::Result {
        formatter.write_str(&self.message)
    }
}

impl std::error::Error for Layered {
    fn source(&self) -> Option<&(dyn std::error::Error + 'static)> {
        self.source
            .as_deref()
            .map(|inner| inner as &(dyn std::error::Error + 'static))
    }
}

fn messages(error: &(dyn std::error::Error + 'static)) -> Vec<String> {
    let mut all = vec![error.to_string()];
    let mut source = error.source();
    while let Some(inner) = source {
        all.push(inner.to_string());
        source = inner.source();
    }
    all
}

fn aws(
    operation: &str,
    code: Option<&str>,
    service_message: Option<&str>,
    error: &(dyn std::error::Error + 'static),
) -> StoreError {
    StoreError::aws(operation, code, service_message, &messages(error))
}

#[test]
fn the_service_error_code_decides_the_category() {
    let opaque = Layered::new("service error");
    for (code, expected) in [
        ("ExpiredToken", StoreErrorKind::Authentication),
        ("InvalidAccessKeyId", StoreErrorKind::Authentication),
        ("SignatureDoesNotMatch", StoreErrorKind::Authentication),
        ("AccessDenied", StoreErrorKind::AccessDenied),
        ("NoSuchBucket", StoreErrorKind::NotFound),
        ("NoSuchKey", StoreErrorKind::NotFound),
    ] {
        let error = aws("ListObjectsV2", Some(code), None, &opaque);
        assert_eq!(error.kind, expected, "{code}");
        assert!(!error.retryable, "{code} is not worth retrying");
        assert!(error.message.contains(code), "{code} is named for the user");
    }
}

#[test]
fn detail_is_recovered_from_the_source_chain_when_no_code_is_available() {
    let error = aws(
        "ListObjectsV2",
        None,
        None,
        &Layered::new("service error")
            .caused_by(Layered::new("unhandled error").caused_by(Layered::new("AccessDenied"))),
    );
    assert_eq!(error.kind, StoreErrorKind::AccessDenied);
    assert!(error.message.contains("AccessDenied"));
}

#[test]
fn transport_failures_stay_retryable_network_errors() {
    let error = aws(
        "ListObjectsV2",
        None,
        None,
        &Layered::new("dispatch failure"),
    );
    assert_eq!(error.kind, StoreErrorKind::Network);
    assert!(error.retryable);
}

#[test]
fn an_unrecognised_failure_is_other_and_retryable() {
    let error = aws(
        "ListObjectsV2",
        Some("SlowDown"),
        None,
        &Layered::new("service error"),
    );
    assert_eq!(error.kind, StoreErrorKind::Other);
    assert!(error.retryable);
}

#[test]
fn the_service_message_is_preferred_over_the_noisy_source_chain() {
    let error = aws(
        "ListObjectsV2",
        Some("InvalidAccessKeyId"),
        Some("The Access Key Id you provided does not exist in our records."),
        &Layered::new("service error").caused_by(Layered::new(
            "Error { code: \"InvalidAccessKeyId\", aws_request_id: \"18CAE17BD40AA5AD\" }",
        )),
    );
    assert_eq!(
        error.message,
        "ListObjectsV2 failed: InvalidAccessKeyId: The Access Key Id you provided does not exist in our records."
    );
    assert!(!error.message.contains("aws_request_id"));
    assert_eq!(error.kind, StoreErrorKind::Authentication);
}

#[test]
fn an_empty_service_message_falls_back_to_the_chain() {
    let error = aws(
        "GetObject",
        Some("NoSuchKey"),
        Some("   "),
        &Layered::new("service error"),
    );
    assert_eq!(error.message, "GetObject failed: NoSuchKey: service error");
    assert_eq!(error.kind, StoreErrorKind::NotFound);
}

#[test]
fn a_repeated_source_message_is_not_duplicated_into_the_detail() {
    let error = aws(
        "GetObject",
        None,
        None,
        &Layered::new("service error").caused_by(Layered::new("service error")),
    );
    assert_eq!(error.message, "GetObject failed: service error");
}

#[test]
fn a_service_message_is_trimmed_and_a_chain_is_joined() {
    let error = aws("GetObject", None, Some("  slow down \n"), &Layered::new("x"));
    assert_eq!(error.message, "GetObject failed: slow down");
    let joined = aws(
        "GetObject",
        None,
        None,
        &Layered::new("outer").caused_by(Layered::new("inner")),
    );
    assert_eq!(joined.message, "GetObject failed: outer: inner");
}

#[test]
fn words_are_found_anywhere() {
    let haystack: Vec<char> = "a forbidden thing".chars().collect();
    assert!(contains_any(&haystack, &vec!["none", "forbidden"]));
    assert!(!contains_any(&haystack, &vec!["accessdenied"]));
}

#[test]
fn store_errors_are_built_as_asked() {
    let error = StoreError::new(StoreErrorKind::Other, "odd".to_owned(), true);
    assert_eq!(error.kind, StoreErrorKind::Other);
    assert_eq!(error.message, "odd");
    assert!(error.retryable);
    let cancelled = StoreError::cancelled();
    assert_eq!(cancelled.kind, StoreErrorKind::Cancelled);
    assert_eq!(cancelled.message, "operation cancelled");
    assert!(!cancelled.retryable);
    let exists = StoreError::io("install completed download", true, "File exists");
    assert_eq!(exists.kind, StoreErrorKind::AlreadyExists);
    assert_eq!(exists.message, "install completed download: File exists");
    assert_eq!(
        StoreError::io("write download", false, "disk full").kind,
        StoreErrorKind::Io
    );
}

#[test]
fn categories_have_the_names_that_clients_know() {
    let names: Vec<&str> = [
        StoreErrorKind::Authentication,
        StoreErrorKind::AccessDenied,
        StoreErrorKind::NotFound,
        StoreErrorKind::Network,
        StoreErrorKind::Cancelled,
        StoreErrorKind::AlreadyExists,
        StoreErrorKind::InvalidResponse,
        StoreErrorKind::Io,
        StoreErrorKind::Other,
    ]
    .into_iter()
    .map(|kind| kind.name())
    .collect();
    assert_eq!(
        names,
        [
            "credentials",
            "accessDenied",
            "notFound",
            "network",
            "cancelled",
            "alreadyExists",
            "invalidResponse",
            "io",
            "other"
        ]
    );
    let fields = StoreError::new(StoreErrorKind::Network, "down".to_owned(), true).fields();
    assert_eq!(fields.code, "network");
    assert_eq!(fields.message, "down");
    assert!(fields.retryable);
}

#[test]
fn every_error_explains_itself() {
    assert_eq!(
        UriParseError::InvalidScheme.message(),
        "S3 URI must start with s3://"
    );
    assert_eq!(
        UriParseError::MissingBucket.message(),
        "S3 URI is missing a bucket name"
    );
    assert_eq!(
        UriParseError::InvalidBucket("..".to_owned()).message(),
        "invalid S3 bucket name: .."
    );
    assert_eq!(
        UriParseError::InvalidKey.message(),
        "S3 object key/prefix contains a control character"
    );
    assert_eq!(
        TemplateError::UnknownPlaceholder("year".to_owned()).message(),
        "unknown date placeholder {year}; use yyyy, yy, MM, M, dd, d, HH or H"
    );
    assert_eq!(
        TemplateError::MinutesNotMonths.message(),
        "{mm} means minutes, not months; use {MM} for a zero-padded month"
    );
    assert_eq!(
        TemplateError::UnclosedPlaceholder.message(),
        "a date placeholder is missing its closing brace"
    );
    assert_eq!(
        TemplateError::UnmatchedBrace.message(),
        "unmatched } in the target; write }} for a literal brace"
    );
    assert_eq!(
        TemplateError::UnknownTimeZone("Mars".to_owned()).message(),
        "unknown time zone: Mars; use an IANA name such as Australia/Sydney or UTC"
    );
    assert_eq!(ConfigError::EmptyId.message(), "watcher id cannot be empty");
    assert_eq!(
        ConfigError::EmptyName.message(),
        "watcher name cannot be empty"
    );
    assert_eq!(
        ConfigError::ZeroPollInterval.message(),
        "poll interval must be greater than zero"
    );
    assert_eq!(
        ConfigError::ZeroExpectedInterval.message(),
        "expected interval must be greater than zero when configured"
    );
    assert_eq!(
        ConfigError::ZeroHistoryCapacity.message(),
        "history capacity must be greater than zero"
    );
    assert_eq!(
        WatcherError::InvalidConfig(ConfigError::EmptyId).message(),
        "watcher id cannot be empty"
    );
    assert_eq!(
        WatcherError::InvalidTemplate(TemplateError::UnmatchedBrace).message(),
        "unmatched } in the target; write }} for a literal brace"
    );
    assert_eq!(
        WatcherError::EventChannelClosed.message(),
        "watcher event receiver was closed"
    );
}

#[test]
fn parses_bucket_prefix_and_exact_key_characters() {
    let uri: S3Uri = "s3://example-bucket/a folder/%20/data.parquet"
        .parse()
        .unwrap();
    assert_eq!(uri.bucket, "example-bucket");
    assert_eq!(uri.prefix, "a folder/%20/data.parquet");
    assert_eq!(
        uri.to_text(),
        "s3://example-bucket/a folder/%20/data.parquet"
    );
}

#[test]
fn parses_bucket_root_with_or_without_slash() {
    assert_eq!(S3Uri::parse("s3://bucket").unwrap().prefix, "");
    assert_eq!(S3Uri::parse("s3://bucket/").unwrap().prefix, "");
}

#[test]
fn rejects_wrong_scheme_empty_or_unsafe_bucket_and_control_key() {
    assert_eq!(
        S3Uri::parse("https://bucket/key"),
        Err(UriParseError::InvalidScheme)
    );
    assert_eq!(S3Uri::parse("s3:///key"), Err(UriParseError::MissingBucket));
    assert!(matches!(
        S3Uri::parse("s3://bad bucket/key"),
        Err(UriParseError::InvalidBucket(_))
    ));
    assert_eq!(
        S3Uri::parse("s3://bucket/key\n"),
        Err(UriParseError::InvalidKey)
    );
}

#[test]
fn uris_travel_as_plain_strings() {
    let uri = S3Uri::parse("s3://bucket/feed/").unwrap();
    let json = serde_json::to_string(&uri.to_text()).unwrap();
    assert_eq!(json, r#""s3://bucket/feed/""#);
    let text: String = serde_json::from_str(&json).unwrap();
    assert_eq!(S3Uri::parse(&text).unwrap(), uri);
}

#[test]
fn uris_know_roots_keys_and_siblings() {
    let root = S3Uri::parse("s3://bucket").unwrap();
    assert!(root.is_bucket_root());
    assert_eq!(root.object_key(), None);
    assert_eq!(root.to_text(), "s3://bucket");
    assert_eq!(S3Uri::parse("s3://bucket/").unwrap(), root);
    assert_eq!(S3Uri::parse(&root.to_text()).unwrap(), root);
    let object = root.for_object("feed/a".to_owned()).unwrap();
    assert!(!object.is_bucket_root());
    assert_eq!(object.object_key(), Some("feed/a"));
    assert_eq!(object.to_text(), "s3://bucket/feed/a");
    assert_eq!(
        root.for_object("feed/\u{7}".to_owned()),
        Err(UriParseError::InvalidKey)
    );
    assert_eq!(
        S3Uri::new("..".to_owned(), String::new()),
        Err(UriParseError::InvalidBucket("..".to_owned()))
    );
    assert!(S3Uri::new("b".repeat(255), String::new()).is_ok());
    assert!(S3Uri::new("b".repeat(256), String::new()).is_err());
}
