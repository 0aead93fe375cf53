//! When a password has to be changed.
use kirino::error::KirinoError;
use kirino::rbac::policy::{
    bootstrap_credential, InMemoryPasswordStateStore, PasswordChangeReason, PasswordPolicy,
    PasswordState, PasswordStateStore,
};
use kirino::service::login::validation::validate_password;
use kirino::time::utc_now;

const SECOND: i128 = 1_000_000_000;
const HOUR: i128 = 3_600 * SECOND;
const DAY: i128 = 24 * HOUR;

fn at() -> PasswordPolicy {
    PasswordPolicy::new(true, Some(90))
}

#[test]
fn test_initial_password_requires_change() {
    let now = utc_now();
    let policy = at();
    assert_eq!(
        policy.change_requirement(&PasswordState::initial(now), now),
        Some(PasswordChangeReason::InitialPassword)
    );
}

#[test]
fn test_initial_password_with_switch_off_is_accepted() {
    let now = utc_now();
    let policy = PasswordPolicy::new(false, None);
    assert_eq!(policy.change_requirement(&PasswordState::initial(now), now), None);
}

#[test]
fn test_disabled_policy_never_requires_change() {
    let now = utc_now();
    let policy = PasswordPolicy::new(true, Some(30)).with_enabled(false);
    assert!(!policy.is_enabled());
    assert_eq!(policy.change_requirement(&PasswordState::initial(now), now), None);
    assert_eq!(
        policy.change_requirement(&PasswordState::rotated(now - 3650 * DAY), now),
        None
    );
    assert_eq!(
        PasswordPolicy::disabled().change_requirement(&PasswordState::initial(now), now),
        None
    );
}

#[test]
fn test_rotated_password_not_required_when_fresh() {
    let now = utc_now();
    let policy = at();
    assert_eq!(policy.change_requirement(&PasswordState::rotated(now), now), None);
    assert_eq!(policy.change_requirement(&PasswordState::rotated(now - 89 * DAY), now), None);
}

#[test]
fn test_expiry_boundary_at_exact_limit_is_stale() {
    let now = utc_now();
    let policy = PasswordPolicy::new(false, Some(90));
    let state = PasswordState::rotated(now - 90 * DAY);
    assert_eq!(
        policy.change_requirement(&state, now),
        Some(PasswordChangeReason::Expired { age_days: 90, max_age_days: 90 })
    );
}

#[test]
fn test_expiry_boundary_one_second_before_limit_is_fresh() {
    let now = utc_now();
    let policy = PasswordPolicy::new(false, Some(90));
    let state = PasswordState::rotated(now - 90 * DAY + SECOND);
    assert_eq!(policy.change_requirement(&state, now), None);
    assert_eq!(state.age_days(now), 89);
}

#[test]
fn test_expiry_truncates_partial_days() {
    let now = utc_now();
    let policy = PasswordPolicy::new(false, Some(7));
    // 6 days 23 hours: still day 6, not yet stale.
    let state = PasswordState::rotated(now - 6 * DAY - 23 * HOUR);
    assert_eq!(state.age_days(now), 6);
    assert_eq!(policy.change_requirement(&state, now), None);
    // 7 days 0 hours: stale (inclusive boundary).
    let state = PasswordState::rotated(now - 7 * DAY);
    assert!(policy.change_requirement(&state, now).is_some());
}

#[test]
fn test_future_timestamp_is_age_zero_never_expired() {
    let now = utc_now();
    let policy = PasswordPolicy::new(false, Some(1));
    let state = PasswordState::rotated(now + 30 * DAY);
    assert_eq!(state.age_days(now), 0);
    assert_eq!(policy.change_requirement(&state, now), None);
}

#[test]
fn test_initial_reason_wins_over_expiry() {
    let now = utc_now();
    let policy = at();
    let state = PasswordState::initial(now - 400 * DAY);
    assert_eq!(
        policy.change_requirement(&state, now),
        Some(PasswordChangeReason::InitialPassword)
    );
}

#[test]
fn test_default_policy_forces_bootstrap_change_only() {
    let now = utc_now();
    let policy = PasswordPolicy::default();
    assert!(policy.is_enabled());
    assert!(policy.force_change_on_first_login());
    assert_eq!(policy.max_age_days(), None);
    assert_eq!(
        policy.change_requirement(&PasswordState::initial(now), now),
        Some(PasswordChangeReason::InitialPassword)
    );
    // No expiry rule: an ancient user-chosen password is left alone.
    assert_eq!(
        policy.change_requirement(&PasswordState::rotated(now - 3650 * DAY), now),
        None
    );
}

#[test]
fn test_from_config_round_trip() {
    let policy = PasswordPolicy::from_config(true, true, Some(45)).unwrap();
    assert!(policy.is_enabled());
    assert!(policy.force_change_on_first_login());
    assert_eq!(policy.max_age_days(), Some(45));

    let off = PasswordPolicy::from_config(false, true, Some(45)).unwrap();
    assert!(!off.is_enabled());
    assert_eq!(off.max_age_days(), Some(45));

    let no_expiry = PasswordPolicy::from_config(true, false, None).unwrap();
    assert_eq!(no_expiry.max_age_days(), None);
}

#[test]
fn test_from_config_rejects_zero_max_age() {
    let err = PasswordPolicy::from_config(true, true, Some(0)).unwrap_err();
    assert!(matches!(err, KirinoError::Validation(_)));
}

#[test]
fn test_reason_codes() {
    assert_eq!(PasswordChangeReason::InitialPassword.as_str(), "initial_password");
    assert_eq!(
        PasswordChangeReason::Expired { age_days: 91, max_age_days: 90 }.as_str(),
        "expired"
    );
    assert_eq!(PasswordChangeReason::InitialPassword.message(), "initial_password");
    assert_eq!(
        PasswordChangeReason::Expired { age_days: 91, max_age_days: 90 }.message(),
        "expired(91/90d)"
    );
}

#[test]
fn test_store_round_trip() {
    let mut store = InMemoryPasswordStateStore::new();
    let account = uuid::Uuid::now_v7().as_u128();
    let now = utc_now();

    assert_eq!(store.get(account).unwrap(), None);

    let state = PasswordState::initial(now);
    store.put(account, state).unwrap();
    assert_eq!(store.get(account).unwrap(), Some(state));

    let rotated = PasswordState::rotated(now);
    store.put(account, rotated).unwrap();
    assert_eq!(store.get(account).unwrap(), Some(rotated));

    assert_eq!(store.get(uuid::Uuid::now_v7().as_u128()).unwrap(), None);
}

#[test]
fn a_bootstrap_credential_is_initial_and_valid() {
    let now = utc_now();
    let credential = bootstrap_credential("admin", "Tmp-4f9c2e".to_string(), now);

    assert_eq!(credential.username(), "admin");
    assert_eq!(credential.state(), PasswordState::initial(now));
    assert_eq!(credential.password(), "Tmp-4f9c2e");
    validate_password(credential.password()).unwrap();
}

#[test]
fn test_bootstrap_credential_forces_change_under_default_policy() {
    let now = utc_now();
    let credential = bootstrap_credential("admin", "Tmp-4f9c2e".to_string(), now);
    assert_eq!(
        PasswordPolicy::default().change_requirement(&credential.state(), now),
        Some(PasswordChangeReason::InitialPassword)
    );
}

#[test]
fn the_log_line_carries_the_name_and_the_password() {
    let credential = bootstrap_credential("admin", "Tmp-4f9c2e".to_string(), 0);
    assert_eq!(
        credential.log_line(),
        "temporary password for 'admin': Tmp-4f9c2e \u{2014} change it on first login"
    );
}

#[test]
fn a_state_is_its_parts() {
    let state = PasswordState::from_parts(17, true);
    assert!(state.is_initial());
    assert_eq!(state.changed_at(), 17);
    assert_eq!(state, PasswordState::initial(17));
    assert_eq!(PasswordState::from_parts(17, false), PasswordState::rotated(17));
}

#[test]
fn a_policy_is_changed_one_switch_at_a_time() {
    let policy = PasswordPolicy::disabled()
        .with_enabled(true)
        .with_force_change_on_first_login(false)
        .with_max_age_days(3);
    assert_eq!(policy, PasswordPolicy::new(false, Some(3)));
}

#[test]
fn a_requirement_stays_until_the_password_is_changed() {
    let policy = PasswordPolicy::new(false, Some(10));
    let state = PasswordState::rotated(0);
    assert!(policy.change_requirement(&state, 10 * DAY).is_some());
    assert!(policy.change_requirement(&state, 1000 * DAY).is_some());
    assert!(policy.change_requirement(&PasswordState::rotated(1000 * DAY), 1000 * DAY).is_none());
}
