//! What usernames and passwords are accepted.
use kirino::error::KirinoError;
use kirino::service::login::validation::{password_shape, trim, validate_password, validate_username};

#[test]
fn test_validate_username_valid() {
    assert_eq!(validate_username("alice").unwrap(), "alice");
    assert_eq!(validate_username("bob_123").unwrap(), "bob_123");
    assert_eq!(validate_username("user.name").unwrap(), "user.name");
    assert_eq!(validate_username("a-b").unwrap(), "a-b");
}

#[test]
fn test_validate_username_too_short() {
    assert!(validate_username("a").is_err());
    assert!(validate_username("").is_err());
}

#[test]
fn test_validate_username_too_long() {
    let long = "a".repeat(65);
    assert!(validate_username(&long).is_err());
}

#[test]
fn test_validate_username_exactly_max_length() {
    let max = "a".repeat(64);
    assert!(validate_username(&max).is_ok());
}

#[test]
fn test_validate_username_invalid_chars() {
    assert!(validate_username("alice bob").is_err());
    assert!(validate_username("alice@domain").is_err());
    assert!(validate_username("用户").is_err());
    assert!(validate_username("user!name").is_err());
}

#[test]
fn test_validate_username_whitespace_only() {
    assert!(validate_username("  ").is_err());
}

#[test]
fn test_validate_username_trimmed() {
    assert_eq!(validate_username("  ab  ").unwrap(), "ab");
}

#[test]
fn test_validate_password_valid() {
    assert!(validate_password("Password1!").is_ok());
    assert!(validate_password("Abcdefg1").is_ok());
    assert!(validate_password("HELLOworld123!").is_ok());
}

#[test]
fn test_validate_password_too_short() {
    assert!(validate_password("Ab1!").is_err());
}

#[test]
fn test_validate_password_exactly_8() {
    assert!(validate_password("Abcd123!").is_ok());
}

#[test]
fn test_validate_password_too_long() {
    let long = "Aa1!".repeat(33);
    assert!(validate_password(&long).is_err());
}

#[test]
fn test_validate_password_exactly_max() {
    let max = "A".repeat(96) + "a1!";
    assert!(validate_password(&max).is_ok());
}

#[test]
fn test_validate_password_only_two_categories() {
    assert!(validate_password("abcdefgh").is_err());
    assert!(validate_password("ABCDEFGH").is_err());
    assert!(validate_password("12345678").is_err());
    assert!(validate_password("abcdABCD").is_err());
    assert!(validate_password("abcd1234").is_err());
    assert!(validate_password("ABCD1234").is_err());
}

#[test]
fn test_validate_password_exactly_three_categories() {
    assert!(validate_password("ABCDefgh1").is_ok());
    assert!(validate_password("Abcd1234").is_ok());
    assert!(validate_password("abcd123!").is_ok());
}

#[test]
fn test_validate_password_unicode_uppercase_lowercase() {
    assert!(
        validate_password("Élève1!").is_ok(),
        "French accented chars should work"
    );
    assert!(
        validate_password("ÜberCafé1!").is_ok(),
        "German umlauts should work"
    );
    assert!(
        validate_password("Niño123!").is_ok(),
        "Spanish tilde should work"
    );
    assert!(
        validate_password("中文密码A1!").is_ok(),
        "CJK + ascii uppercase + digit + special"
    );
}

#[test]
fn test_validate_password_unicode_all_one_category() {
    assert!(
        validate_password("abcdefgh").is_err(),
        "only lowercase fails"
    );
    assert!(
        validate_password("ÉÉÉÉÉÉÉÉ").is_err(),
        "only unicode uppercase fails"
    );
    assert!(
        validate_password("汉字汉字汉字汉字").is_err(),
        "only CJK fails"
    );
}

#[test]
fn test_validate_password_unicode_with_special() {
    assert!(
        validate_password("Passエンド1!").is_ok(),
        "mixed ascii + CJK + special"
    );
}

#[test]
fn a_canonical_username_is_accepted_as_it_is() {
    for name in ["  ab  ", "\tuser.name\n", "a-b", "\u{3000}zz\u{3000}"] {
        let canonical = validate_username(name).unwrap();
        assert_eq!(validate_username(&canonical).unwrap(), canonical);
        assert_eq!(trim(name), canonical);
    }
}

#[test]
fn trimming_takes_white_space_of_every_kind() {
    assert_eq!(trim("  a b \t"), "a b");
    assert_eq!(trim("\u{a0}\u{2003}x\u{85}"), "x");
    assert_eq!(trim(" \n "), "");
    assert_eq!(trim("\u{200b}"), "\u{200b}");
    for c in (0..=0x10FFFFu32).filter_map(char::from_u32) {
        let text = format!("{c}x{c}");
        assert_eq!(trim(&text), text.trim(), "U+{:04X}", c as u32);
    }
}

#[test]
fn a_refused_username_is_a_validation_failure() {
    assert!(matches!(validate_username("a"), Err(KirinoError::Validation(_))));
    assert!(matches!(validate_username(&"a".repeat(65)), Err(KirinoError::Validation(_))));
    assert!(matches!(validate_username("a b"), Err(KirinoError::Validation(_))));
}

#[test]
fn the_kinds_of_a_password_are_those_of_its_characters() {
    let shape = password_shape("aB1!");
    assert!(shape.has_uppercase && shape.has_lowercase && shape.has_digit && shape.has_special);
    let shape = password_shape("\u{e9}\u{c9}\u{6c49}");
    assert!(shape.has_uppercase && shape.has_lowercase && !shape.has_digit && !shape.has_special);
    assert!(password_shape("").check().is_err());
    assert!(matches!(validate_password("short"), Err(KirinoError::Validation(_))));
}
