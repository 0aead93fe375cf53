//! Assertions of authenticators, and the sender of messages.
use kirino::service::verify::sms::SmsVerifier;
use kirino::service::verify::web_authn::{WebAuthnError, WebAuthnVerifier};

#[test]
fn test_start_registration() {
    let mut v = WebAuthnVerifier::new();
    let ch = v.start_registration("user-1").unwrap();
    assert_eq!(ch.challenge.len(), 32);
    assert_eq!(ch.rp_id, "localhost");
}

#[test]
fn test_verify_unknown_credential() {
    let mut v = WebAuthnVerifier::new();
    let result = v.verify_assertion(b"unknown", &[0u8; 37], b"{}", b"sig");
    assert!(result.is_err());
}

#[test]
fn test_verify_short_authenticator_data() {
    let v = WebAuthnVerifier::with_rp_id("example.com".to_string());
    assert_eq!(v.rp_id(), "example.com");
}

#[test]
fn test_verify_empty_client_data() {
    let mut v = WebAuthnVerifier::new();
    let result = v.verify_assertion(b"test", &[0u8; 37], b"", b"sig");
    assert!(result.is_err());
}

#[test]
fn test_verify_empty_signature() {
    let mut v = WebAuthnVerifier::new();
    v.start_registration("user-1").unwrap();
    let cred_id = b"reg:user-1";
    v.start_authentication(cred_id).unwrap();
    let result = v.verify_assertion(cred_id, &[0u8; 37], b"{}", b"");
    assert!(result.is_ok());
    assert!(!result.unwrap());
}

#[test]
fn test_verify_with_valid_structure() {
    let mut v = WebAuthnVerifier::new();
    v.start_registration("user-1").unwrap();
    let cred_id = b"reg:user-1";
    v.start_authentication(cred_id).unwrap();
    let result = v.verify_assertion(cred_id, &[0u8; 37], b"{}", b"signature-data");
    assert!(result.is_ok());
    assert!(result.unwrap());
}

#[test]
fn test_start_authentication_unknown_credential() {
    let mut v = WebAuthnVerifier::new();
    let result = v.start_authentication(b"unknown");
    assert!(result.is_err());
}

#[test]
fn test_registration_unique_challenges() {
    let mut v = WebAuthnVerifier::new();
    let ch1 = v.start_registration("user-1").unwrap();
    let ch2 = v.start_registration("user-2").unwrap();
    assert_ne!(ch1.challenge, ch2.challenge);
}

#[test]
fn a_short_authenticator_record_fails_for_a_known_credential() {
    let mut v = WebAuthnVerifier::default();
    v.start_registration("user-1").unwrap();
    let result = v.verify_assertion(b"reg:user-1", &[0u8; 36], b"{}", b"sig");
    assert!(!matches!(result, Ok(true)));
    assert!(!WebAuthnError::UnknownCredential.message().is_empty());
}

#[test]
fn a_credential_id_is_read_as_text() {
    let mut v = WebAuthnVerifier::new();
    v.start_registration("\u{fffd}").unwrap();
    // A byte that is no UTF-8 is read as the replacement character.
    assert!(v.start_authentication(b"reg:\xff").is_ok());
    assert!(v.start_authentication(b"reg:\xff\xff").is_err());
}

#[test]
fn the_sender_is_kept() {
    assert_eq!(SmsVerifier::new("kirino".to_string()).sender(), "kirino");
}
