use gofer::api::validate::{identifier, is_valid_identifier};

#[test]
fn identifier_accepts_letters_digits_and_underscores() {
    assert!(is_valid_identifier("team_a"));
    assert!(is_valid_identifier("abc"));
    assert!(is_valid_identifier("A_9"));
    assert!(identifier("simple_pipeline").is_ok());
}

#[test]
fn identifier_rejects_wrong_lengths_and_characters() {
    assert!(!is_valid_identifier("ab"));
    assert!(!is_valid_identifier(""));
    assert!(!is_valid_identifier("team-a"));
    assert!(!is_valid_identifier("team a"));
    assert!(is_valid_identifier("a2345678901234567890123456789012"));
    assert!(!is_valid_identifier("a23456789012345678901234567890123"));
    assert!(identifier("té_am").is_err());
}
