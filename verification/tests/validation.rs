use kick::error::ApiError;
use kick::sec::{HeaderValidator, PathValidator, UrlValidator};

#[test]
fn test_url_validation() {
    // Valid URLs
    assert!(UrlValidator::validate("https://api.github.com").is_ok());
    assert!(UrlValidator::validate("http://httpbin.org").is_ok());

    // Invalid schemes
    assert!(UrlValidator::validate("ftp://example.com").is_err());
    assert!(UrlValidator::validate("file:///etc/passwd").is_err());

    // SSRF attempts
    assert!(UrlValidator::validate("http://127.0.0.1").is_err());
    assert!(UrlValidator::validate("https://localhost").is_err());
    assert!(UrlValidator::validate("http://192.168.1.1").is_err());
}

#[test]
fn test_header_validation() {
    // Valid headers
    assert!(HeaderValidator::parse_and_validate("Content-Type: application/json").is_ok());
    assert!(HeaderValidator::parse_and_validate("Authorization: Bearer token123").is_ok());

    // CRLF injection attempts
    assert!(HeaderValidator::parse_and_validate("Evil: value\r\nInjected: header").is_err());
    assert!(HeaderValidator::parse_and_validate("Bad: value\nAnother: header").is_err());

    // Invalid format
    assert!(HeaderValidator::parse_and_validate("NoColonHeader").is_err());
    assert!(HeaderValidator::parse_and_validate("").is_err());
}

#[test]
fn test_path_validation() {
    // Valid filenames
    assert!(PathValidator::sanitize_filename("safe-file.txt").is_ok());
    assert!(PathValidator::sanitize_filename("data.json").is_ok());

    // Path traversal attempts
    assert!(PathValidator::sanitize_filename("../../../etc/passwd").is_err());
    assert!(PathValidator::sanitize_filename("/absolute/path").is_err());
    assert!(PathValidator::sanitize_filename("").is_err());
    assert!(PathValidator::sanitize_filename("   ").is_err());
}

#[test]
fn test_parse_and_validate_trims_key_and_value() {
    let (key, value) = HeaderValidator::parse_and_validate("Content-Type: application/json").unwrap();
    assert_eq!(key, "Content-Type");
    assert_eq!(value, "application/json");

    let (key, value) = HeaderValidator::parse_and_validate("  X-Token :  abc:def ").unwrap();
    assert_eq!(key, "X-Token");
    assert_eq!(value, "abc:def");
}

#[test]
fn test_header_validation_messages() {
    let err = HeaderValidator::validate_header("", "x").unwrap_err();
    assert!(matches!(err, ApiError::Other(m) if m == "Header key cannot be empty"));

    let err = HeaderValidator::validate_header("K\u{7}ey", "x").unwrap_err();
    assert!(matches!(err, ApiError::Other(m) if m == "Header key contains invalid characters"));

    let err = HeaderValidator::validate_header("Key", "a\rb").unwrap_err();
    assert!(matches!(err, ApiError::Other(m) if m == "Header contains CRLF sequences"));

    let err = HeaderValidator::validate_header("Key", "a\u{0}b").unwrap_err();
    assert!(
        matches!(err, ApiError::Other(m) if m == "Header contains invalid control characters")
    );

    let long_key: String = "k".repeat(1025);
    let err = HeaderValidator::validate_header(&long_key, "x").unwrap_err();
    assert!(matches!(err, ApiError::Other(m) if m == "Header key too long"));

    let long_value: String = "v".repeat(8193);
    let err = HeaderValidator::validate_header("Key", &long_value).unwrap_err();
    assert!(matches!(err, ApiError::Other(m) if m == "Header value too long"));

    // A tab inside a value is acceptable.
    assert!(HeaderValidator::validate_header("Key", "a\tb").is_ok());
}

#[test]
fn test_url_validation_reports_scheme_and_host() {
    // The scheme comes back lower-cased, so validation accepts any casing.
    let parts = UrlValidator::validate("HTTPS://Api.Example.Com/path?q=1").unwrap();
    assert_eq!(parts.scheme, "https");
    assert_eq!(parts.host.as_deref(), Some("api.example.com"));
}

#[test]
fn test_url_validation_private_ranges() {
    // Inside the blocked ranges.
    assert!(UrlValidator::validate("http://10.0.0.1").is_err());
    assert!(UrlValidator::validate("http://172.16.0.1").is_err());
    assert!(UrlValidator::validate("http://172.31.255.255").is_err());
    assert!(UrlValidator::validate("http://169.254.1.1").is_err());
    assert!(UrlValidator::validate("http://[::1]").is_err());
    assert!(UrlValidator::validate("http://name.local").is_err());

    // Just outside them.
    assert!(UrlValidator::validate("http://172.15.0.1").is_ok());
    assert!(UrlValidator::validate("http://172.32.0.1").is_ok());
    assert!(UrlValidator::validate("http://8.8.8.8").is_ok());
    assert!(UrlValidator::validate("http://11.0.0.1").is_ok());
}

#[test]
fn test_filename_messages() {
    let err = PathValidator::sanitize_filename("/etc/passwd").unwrap_err();
    assert!(matches!(err, ApiError::Other(m) if m == "Absolute paths not allowed"));

    let err = PathValidator::sanitize_filename("a/../b").unwrap_err();
    assert!(matches!(err, ApiError::Other(m) if m == "Parent directory references not allowed"));

    let err = PathValidator::sanitize_filename("  ").unwrap_err();
    assert!(matches!(err, ApiError::Other(m) if m == "Empty filename not allowed"));

    let ok = PathValidator::sanitize_filename("nested/dir/file.txt").unwrap();
    assert_eq!(ok, "nested/dir/file.txt");
}
