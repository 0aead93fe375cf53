//! Subjects built from an identity.
use kirino::collections::Key;
use kirino::error::KirinoError;
use kirino::rbac::identity_subject::{Delegatable, Identity, IdentitySubject};
use kirino::rbac::traits::Subject;
use kirino::time::utc_now;
use uuid::Uuid;

const HOUR: i128 = 3_600_000_000_000;

fn basic_id(id: Uuid) -> Identity {
    Identity::Basic { id: id.as_u128(), created_at: utc_now() }
}

#[test]
fn test_basic_subject() {
    let id = Uuid::now_v7();
    let subject = IdentitySubject::new(basic_id(id));

    assert_eq!(subject.subject_id(), id.to_string());
    assert_eq!(subject.subject_type(), "user");
}

#[test]
fn test_anonymous_subject() {
    let id = Uuid::now_v7();
    let identity = Identity::Anonymous { id: id.as_u128(), created_at: utc_now() };
    let subject = IdentitySubject::new(identity);

    assert_eq!(subject.subject_id(), id.to_string());
    assert_eq!(subject.subject_type(), "anonymous");
}

#[test]
fn test_temporary_subject_not_expired() {
    let id = Uuid::now_v7();
    let identity = Identity::Temporary { id: id.as_u128(), expires_at: utc_now() + HOUR };
    let subject = IdentitySubject::new(identity);

    assert_eq!(subject.subject_type(), "temporary");
    assert!(!subject.is_expired());
}

#[test]
fn test_temporary_subject_expired() {
    let id = Uuid::now_v7();
    let identity = Identity::Temporary { id: id.as_u128(), expires_at: utc_now() - HOUR };
    let subject = IdentitySubject::new(identity);
    assert!(subject.is_expired());
}

#[test]
fn test_service_subject() {
    let id = Uuid::now_v7();
    let caller = Uuid::now_v7();
    let identity = Identity::Service {
        id: id.as_u128(),
        caller: caller.as_u128(),
        created_at: utc_now(),
    };
    let subject = IdentitySubject::new(identity);

    assert_eq!(subject.subject_id(), id.to_string());
    assert_eq!(subject.subject_type(), "service");
}

#[test]
fn test_subject_equality() {
    let id = Uuid::now_v7();
    let s1 = IdentitySubject::new(basic_id(id));
    let s2 = IdentitySubject::new(basic_id(id));
    assert_eq!(s1, s2);
}

#[test]
fn test_subject_inequality() {
    let s1 = IdentitySubject::new(basic_id(Uuid::now_v7()));
    let s2 = IdentitySubject::new(basic_id(Uuid::now_v7()));
    assert_ne!(s1, s2);
}

#[test]
fn test_service_delegation() {
    let caller_id = Uuid::now_v7();
    let service_id = Uuid::now_v7();
    let service = IdentitySubject::new(Identity::Service {
        id: service_id.as_u128(),
        caller: caller_id.as_u128(),
        created_at: utc_now(),
    });
    let caller = IdentitySubject::new(basic_id(caller_id));
    let stranger = IdentitySubject::new(basic_id(Uuid::now_v7()));

    assert!(service.can_delegate_to(&caller));
    assert!(!service.can_delegate_to(&stranger));
}

#[test]
fn test_basic_cannot_delegate() {
    let user = IdentitySubject::new(basic_id(Uuid::now_v7()));
    let other = IdentitySubject::new(basic_id(Uuid::now_v7()));
    assert!(!user.can_delegate_to(&other));
}

#[test]
fn a_stored_id_names_a_user() {
    let id = Uuid::now_v7();
    let read = IdentitySubject::try_from_subject_id(&id.to_string()).unwrap();
    assert_eq!(read, IdentitySubject::new(basic_id(id)));
    assert_eq!(read.subject_type(), "user");
    assert!(matches!(read.identity(), Identity::Basic { id: key, .. } if *key == id.as_u128()));
    let named = IdentitySubject::user(&id.to_string()).unwrap();
    assert_eq!(named, read);
    assert!(named.duplicate() == read);
    assert!(matches!(
        IdentitySubject::user_at(&id.to_string(), 12).unwrap().into_inner(),
        Identity::Basic { created_at: 12, .. }
    ));
}

#[test]
fn a_text_that_is_no_id_names_nobody() {
    assert!(matches!(
        IdentitySubject::try_from_subject_id("not-a-uuid"),
        Err(KirinoError::Validation(_))
    ));
    assert!(IdentitySubject::user("not-a-uuid").is_err());
    // The infallible form falls back to a visitor of its own.
    let fallback = IdentitySubject::from_subject_id("not-a-uuid");
    assert_eq!(fallback.subject_type(), "anonymous");
}

#[test]
fn the_kind_is_part_of_the_identity() {
    let id = Uuid::now_v7();
    let person = IdentitySubject::new(basic_id(id));
    let visitor = IdentitySubject::new(Identity::Anonymous { id: id.as_u128(), created_at: 0 });
    assert_ne!(person, visitor);
    assert!(!person.same(&visitor));
}

#[test]
fn a_temporary_identity_lives_through_its_last_moment() {
    let subject = IdentitySubject::new(Identity::Temporary { id: 1, expires_at: 100 });
    assert!(!subject.is_expired_at(100));
    assert!(subject.is_expired_at(101));
    let lasting = IdentitySubject::new(Identity::Basic { id: 1, created_at: 0 });
    assert!(!lasting.is_expired_at(i128::MAX));
}

#[test]
fn a_user_is_dated_by_the_clock() {
    let id = Uuid::now_v7().to_string();
    let before = utc_now();
    let made = [
        IdentitySubject::user(&id).unwrap(),
        IdentitySubject::from_subject_id(&id),
        IdentitySubject::try_from_subject_id(&id).unwrap(),
    ];
    let after = utc_now();
    for subject in &made {
        match subject.identity() {
            Identity::Basic { created_at, .. } => assert!(before <= *created_at && *created_at <= after),
            _ => panic!("a user is a plain identity"),
        }
    }
}
