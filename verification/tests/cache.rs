//! The decision cache with a time to live.
use kirino::collections::Key;
use kirino::error::KirinoError;
use kirino::rbac::cache::TtlPermissionCache;
use kirino::rbac::traits::{Permission, Subject};
use std::sync::{Arc, Mutex};

#[derive(Debug, Clone, Copy, PartialEq, Eq)]
enum TestPerm {
    Read,
    Write,
    Delete,
    Admin,
}

impl Key for TestPerm {
    type Id = ();

    fn same(&self, other: &Self) -> bool {
        self == other
    }

    fn duplicate(&self) -> Self {
        *self
    }
}

impl Permission for TestPerm {
    fn name(&self) -> &str {
        match self {
            TestPerm::Read => "read",
            TestPerm::Write => "write",
            TestPerm::Delete => "delete",
            TestPerm::Admin => "admin",
        }
    }

    fn domain(&self) -> &str {
        ""
    }

    fn ancestry_names(&self) -> Vec<&str> {
        vec![self.name()]
    }

    fn is_branch(&self) -> bool {
        false
    }

    fn identity_fixes_texts(_: &Self, _: &Self) {}
}

#[derive(Debug, Clone, PartialEq, Eq)]
struct TestSubject(String);

impl Key for TestSubject {
    type Id = ();

    fn same(&self, other: &Self) -> bool {
        self.0 == other.0
    }

    fn duplicate(&self) -> Self {
        self.clone()
    }
}

impl Subject for TestSubject {
    fn subject_id(&self) -> &str {
        &self.0
    }

    fn subject_type(&self) -> &'static str {
        "user"
    }

    fn from_subject_id(id: &str) -> Self {
        TestSubject(id.to_string())
    }

    fn try_from_subject_id(id: &str) -> Result<Self, KirinoError> {
        Ok(TestSubject(id.to_string()))
    }
}

const SECOND: u64 = 1_000_000_000;

fn subject(id: &str) -> TestSubject {
    TestSubject(id.to_string())
}

#[test]
fn test_cache_set_and_get() {
    let mut cache = TtlPermissionCache::new(300 * SECOND);
    let subject = subject("user1");
    let perm = TestPerm::Read;

    assert_eq!(cache.get(&subject, &perm, 0), None);

    cache.set(&subject, &perm, true, 0);
    assert_eq!(cache.get(&subject, &perm, 0), Some(true));
}

#[test]
fn test_cache_ttl_expiry() {
    let mut cache = TtlPermissionCache::new(100_000_000);
    let subject = subject("user1");
    let perm = TestPerm::Read;

    cache.set(&subject, &perm, true, 0);
    assert_eq!(cache.get(&subject, &perm, 0), Some(true));

    assert_eq!(cache.get(&subject, &perm, 200_000_000), None);
}

#[test]
fn test_cache_invalidate_subject() {
    let mut cache = TtlPermissionCache::new(300 * SECOND);
    let subject1 = subject("user1");
    let subject2 = subject("user2");
    let perm = TestPerm::Read;

    cache.set(&subject1, &perm, true, 0);
    cache.set(&subject2, &perm, false, 0);

    cache.invalidate_subject(&subject1);
    assert_eq!(cache.get(&subject1, &perm, 0), None);
    assert_eq!(cache.get(&subject2, &perm, 0), Some(false));
}

#[test]
fn cache_test_cache_invalidate_all() {
    let mut cache = TtlPermissionCache::new(300 * SECOND);
    let subject = subject("user1");
    let perm1 = TestPerm::Read;
    let perm2 = TestPerm::Write;

    cache.set(&subject, &perm1, true, 0);
    cache.set(&subject, &perm2, false, 0);
    cache.invalidate_all();
    assert_eq!(cache.get(&subject, &perm1, 0), None);
    assert_eq!(cache.get(&subject, &perm2, 0), None);
}

#[test]
fn test_cache_overwrite() {
    let mut cache = TtlPermissionCache::new(300 * SECOND);
    let subject = subject("user1");
    let perm = TestPerm::Read;

    cache.set(&subject, &perm, true, 0);
    assert_eq!(cache.get(&subject, &perm, 0), Some(true));

    cache.set(&subject, &perm, false, 0);
    assert_eq!(cache.get(&subject, &perm, 0), Some(false));
}

#[test]
fn test_cache_multiple_permissions() {
    let mut cache = TtlPermissionCache::new(300 * SECOND);
    let subject = subject("user1");
    let read_perm = TestPerm::Read;
    let write_perm = TestPerm::Write;

    cache.set(&subject, &read_perm, true, 0);
    cache.set(&subject, &write_perm, false, 0);

    assert_eq!(cache.get(&subject, &read_perm, 0), Some(true));
    assert_eq!(cache.get(&subject, &write_perm, 0), Some(false));
}

#[test]
fn test_cache_different_subjects_isolated() {
    let mut cache = TtlPermissionCache::new(300 * SECOND);
    let s1 = subject("user1");
    let s2 = subject("user2");
    let perm = TestPerm::Read;

    cache.set(&s1, &perm, true, 0);
    cache.set(&s2, &perm, false, 0);

    assert_eq!(cache.get(&s1, &perm, 0), Some(true));
    assert_eq!(cache.get(&s2, &perm, 0), Some(false));
}

#[test]
fn test_cache_invalidate_one_subject_preserves_others() {
    let mut cache = TtlPermissionCache::new(300 * SECOND);
    let s1 = subject("u1");
    let s2 = subject("u2");
    let s3 = subject("u3");
    let perm = TestPerm::Read;

    cache.set(&s1, &perm, true, 0);
    cache.set(&s2, &perm, false, 0);
    cache.set(&s3, &perm, true, 0);

    cache.invalidate_subject(&s2);

    assert_eq!(cache.get(&s1, &perm, 0), Some(true));
    assert_eq!(cache.get(&s2, &perm, 0), None);
    assert_eq!(cache.get(&s3, &perm, 0), Some(true));
}

#[test]
fn test_cache_get_nonexistent_perm() {
    let cache = TtlPermissionCache::new(300 * SECOND);
    let subject = subject("user1");
    let perm = TestPerm::Read;

    assert_eq!(cache.get(&subject, &perm, 0), None);
}

#[test]
fn test_cache_invalidate_all_drops_everything() {
    let mut cache = TtlPermissionCache::new(300 * SECOND);
    let s1 = subject("u1");
    let s2 = subject("u2");
    let p1 = TestPerm::Read;
    let p2 = TestPerm::Write;

    cache.set(&s1, &p1, true, 0);
    cache.set(&s1, &p2, false, 0);
    cache.set(&s2, &p1, true, 0);

    cache.invalidate_all();

    assert_eq!(cache.get(&s1, &p1, 0), None);
    assert_eq!(cache.get(&s1, &p2, 0), None);
    assert_eq!(cache.get(&s2, &p1, 0), None);
}

#[test]
fn test_cache_concurrent_access_no_deadlock() {
    let runtime = tokio::runtime::Builder::new_multi_thread().build().unwrap();
    let cache = Arc::new(Mutex::new(TtlPermissionCache::new(300 * SECOND)));
    runtime.block_on(async {
        let mut handles = Vec::new();
        for i in 0..10 {
            let c = Arc::clone(&cache);
            handles.push(tokio::spawn(async move {
                let subject = subject("user1");
                for _ in 0..100 {
                    c.lock().unwrap().set(&subject, &TestPerm::Read, true, 0);
                    let _ = c.lock().unwrap().get(&subject, &TestPerm::Read, 0);
                }
                format!("thread-{i} done")
            }));
        }
        for h in handles {
            h.await.expect("task panicked");
        }
    });

    let subject = subject("user1");
    assert_eq!(cache.lock().unwrap().get(&subject, &TestPerm::Read, 0), Some(true));
}

#[test]
fn test_cache_invalidate_nonexistent_subject_is_noop() {
    let mut cache = TtlPermissionCache::new(300 * SECOND);
    let s1 = subject("u1");
    let s2 = subject("u2");
    let perm = TestPerm::Read;

    cache.set(&s1, &perm, true, 0);
    cache.invalidate_subject(&s2);

    assert_eq!(cache.get(&s1, &perm, 0), Some(true));
}

#[test]
fn an_answer_is_kept_until_its_age_reaches_the_time_to_live() {
    let mut cache = TtlPermissionCache::new(100);
    let s = subject("u");
    cache.set(&s, &TestPerm::Read, true, 1000);
    assert_eq!(cache.get(&s, &TestPerm::Read, 1099), Some(true));
    assert_eq!(cache.get(&s, &TestPerm::Read, 1100), None);
}

#[test]
fn the_cap_makes_room_for_a_new_answer() {
    let mut cache = TtlPermissionCache::new(300 * SECOND).with_max_entries(2);
    let s = subject("u");
    cache.set(&s, &TestPerm::Read, true, 0);
    cache.set(&s, &TestPerm::Write, true, 1);
    cache.set(&s, &TestPerm::Delete, true, 2);
    let now = 3;
    let held = [TestPerm::Read, TestPerm::Write, TestPerm::Delete]
        .iter()
        .filter(|p| cache.get(&s, *p, now).is_some())
        .count();
    assert_eq!(held, 2);
    assert_eq!(cache.get(&s, &TestPerm::Delete, now), Some(true));
}
