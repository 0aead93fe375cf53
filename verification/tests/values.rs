//! Scores, moments, texts and tables.
use kirino::collections::{KeySet, Table};
use kirino::error::KirinoError;
use kirino::score::Score;
use kirino::text::{comes_before, decimal, ends_with, starts_with};
use kirino::time::{show_moment, utc_now};

fn score(value: f64) -> Score {
    Score::from_bits(value.to_bits())
}

const SAMPLES: [f64; 14] = [
    0.0,
    -0.0,
    1.0,
    -1.0,
    0.1,
    0.15,
    0.6,
    1e-310,
    -1e-310,
    f64::MAX,
    f64::MIN,
    f64::INFINITY,
    f64::NEG_INFINITY,
    f64::NAN,
];

#[test]
fn scores_compare_as_doubles_do() {
    for a in SAMPLES {
        for b in SAMPLES {
            assert_eq!(score(a).is_below(score(b)), a < b, "{a} < {b}");
            assert_eq!(score(a).is_at_least(score(b)), a >= b, "{a} >= {b}");
        }
        assert_eq!(score(a).place().is_none(), a.is_nan(), "{a}");
    }
    assert_eq!(score(0.0).place(), score(-0.0).place());
}

#[test]
fn a_moment_is_shown_as_the_calendar_has_it() {
    assert_eq!(show_moment(0), "1970-01-01 00:00:00 UTC");
    assert_eq!(show_moment(1_700_000_000_000_000_000), "2023-11-14 22:13:20 UTC");
    assert_eq!(show_moment(-1_000_000_000), "1969-12-31 23:59:59 UTC");
    assert_eq!(show_moment(-1), "1969-12-31 23:59:59.999999999 UTC");
    assert_eq!(show_moment(i128::MAX), i128::MAX.to_string());
    assert_eq!(show_moment(i128::MIN + 1), (i128::MIN + 1).to_string());
}

#[test]
fn the_clock_reads_the_present() {
    let before = chrono::Utc::now().timestamp_nanos_opt().unwrap();
    let read = utc_now();
    let after = chrono::Utc::now().timestamp_nanos_opt().unwrap();
    assert!(i128::from(before) <= read && read <= i128::from(after));
}

#[test]
fn numbers_are_written_in_decimal() {
    for n in [0u128, 7, 10, 12345, u128::MAX] {
        assert_eq!(decimal(n), n.to_string());
    }
}

#[test]
fn texts_compare_as_strings_do() {
    let texts = ["", "a", "ab", "b", "\u{e9}", "\u{1f600}", "a\u{e9}"];
    for a in texts {
        for b in texts {
            assert_eq!(comes_before(a, b), a < b, "{a} {b}");
            assert_eq!(starts_with(a, b), a.starts_with(b));
            assert_eq!(ends_with(a, b), a.ends_with(b));
        }
    }
}

#[test]
fn a_table_holds_one_value_for_a_key() {
    let mut table: Table<String, u64> = Table::new();
    assert_eq!(table.insert("a".to_string(), 1), None);
    assert_eq!(table.insert("b".to_string(), 2), None);
    assert_eq!(table.insert("a".to_string(), 3), Some(1));
    assert_eq!(table.len(), 2);
    assert_eq!(table.get(&"a".to_string()), Some(&3));
    assert_eq!(table.remove(&"a".to_string()), Some(3));
    assert_eq!(table.remove(&"a".to_string()), None);
    assert!(table.contains_key(&"b".to_string()));
    assert_eq!(table.keys_list(), vec!["b".to_string()]);
}

#[test]
fn a_set_holds_an_item_once() {
    let mut set: KeySet<u128> = KeySet::from_items(&vec![1, 2, 1]);
    assert_eq!(set.len(), 2);
    assert!(!set.insert(2));
    assert!(set.insert(3));
    let other: KeySet<u128> = KeySet::from_items(&vec![2, 4]);
    set.insert_all(&other);
    assert_eq!(set.len(), 4);
    set.remove_all(&other);
    assert_eq!(set.to_items(), vec![1, 3]);
    assert!(set.remove(&1));
    assert!(!set.remove(&1));
    assert!(set.duplicate().contains(&3));
}

#[test]
fn failures_say_what_they_are() {
    assert_eq!(KirinoError::AuthenticationFailed.message(), "authentication failed");
    assert_eq!(KirinoError::SessionNotFound.message(), "session not found");
    assert_eq!(KirinoError::SessionExpired.message(), "session expired");
    assert_eq!(KirinoError::Validation("v".to_string()).message(), "v");
    assert_eq!(KirinoError::AuthorizationDenied("d".to_string()).message(), "d");
}
