use frona_server::error::AppError;
use frona_server::handle::{is_valid_handle_bytes, Handle};

#[test]
fn accepts_valid_handles() {
    assert!(Handle::try_new("ab").is_ok());
    assert!(Handle::try_new("alice").is_ok());
    assert!(Handle::try_new("alice-bob_2").is_ok());
    assert!(Handle::try_new(&"a".repeat(32)).is_ok());
}

#[test]
fn sanitizes_trim_and_lowercase() {
    assert_eq!(Handle::try_new("  Alice  ").unwrap().as_str(), "alice");
}

#[test]
fn rejects_invalid() {
    assert!(Handle::try_new("a").is_err(), "too short");
    assert!(Handle::try_new(&"x".repeat(33)).is_err(), "too long");
    assert!(Handle::try_new("9alice").is_err(), "must start with letter");
    assert!(Handle::try_new("alice!").is_err(), "bad char");
    assert!(Handle::try_new("alice.bob").is_err(), "bad char");
    assert!(Handle::try_new("alice/bob").is_err(), "bad char");
}

#[test]
fn rejected_handle_reports_the_cleaned_text() {
    let err = Handle::try_new("  Bad!  ").unwrap_err();
    assert_eq!(
        err,
        AppError::Validation(
            "handle 'bad!' is invalid: must be 2-32 chars, start with a lowercase letter, and contain only a-z, 0-9, hyphens, underscores"
                .to_string()
        )
    );
}

#[test]
fn handle_round_trips_to_string() {
    let h = Handle::try_new("Developer").unwrap();
    assert_eq!(h.clone().into_string(), "developer");
    assert_eq!(h.as_str(), "developer");
}

#[test]
fn byte_level_validity() {
    assert!(is_valid_handle_bytes(b"system"));
    assert!(!is_valid_handle_bytes(b"_x"));
    assert!(!is_valid_handle_bytes(b"Ab"));
}
