use gmail_sender::{validate_header_field, HeaderFieldError};

#[test]
fn test_validate_header_field_accepts_normal_input() {
    assert!(validate_header_field("test@example.com", "to").is_ok());
    assert!(validate_header_field("Hello World", "subject").is_ok());
}

#[test]
fn test_validate_header_field_rejects_cr() {
    let result = validate_header_field("test\r@example.com", "to");
    assert!(result.is_err());
}

#[test]
fn test_validate_header_field_rejects_lf() {
    let result = validate_header_field("test\n@example.com", "to");
    assert!(result.is_err());
}

#[test]
fn test_validate_header_field_rejects_crlf() {
    let result = validate_header_field("test\r\n@example.com", "to");
    assert!(result.is_err());
}

#[test]
fn validate_header_field_accepts_empty_and_unicode() {
    assert!(validate_header_field("", "subject").is_ok());
    assert!(validate_header_field("Grüße \u{26a0} tab\there", "subject").is_ok());
}

#[test]
fn validate_header_field_rejects_trailing_newline() {
    assert!(validate_header_field("Hello\n", "subject").is_err());
    assert!(validate_header_field("\rHello", "subject").is_err());
}

#[test]
fn header_field_error_names_the_field() {
    let err: HeaderFieldError = validate_header_field("a\nb", "recipient address").unwrap_err();
    assert_eq!(err.field_name, "recipient address");
    assert_eq!(
        err.message(),
        "Invalid recipient address: contains newline characters (potential header injection)"
    );
}
