//! Failed attempts by name, and lockouts.
//!
//! A window opens with the first failure. Once it holds the allowed number of failures, the name
//! is blocked until the window and the lockout behind it have passed.
use crate::collections::{retain_values, Table};
use crate::error::{ErrorView, KirinoError};
use crate::text::decimal;
use vstd::prelude::*;

verus! {

/// How many names are kept before those whose time has passed are dropped.
pub const RATE_LIMITER_MAX_ENTRIES: usize = 10_000;

/// The failures of one name.
#[derive(Debug, Clone, Copy, PartialEq, Eq, Structural)]
pub struct RateLimitEntry {
    /// How many there were.
    pub attempts: u32,
    /// When the window opened, in nanoseconds on a clock that never goes back.
    pub window_start: u64,
}

/// What is allowed.
#[derive(Debug, Clone, Copy, PartialEq, Eq, Structural)]
pub struct Limits {
    /// Failures in a window.
    pub max_attempts: u32,
    /// Seconds of a window.
    pub window_secs: u64,
    /// Seconds of the lockout behind it.
    pub lockout_secs: u64,
}

impl Limits {
    /// Nanoseconds of the window.
    pub open spec fn window(self) -> int {
        self.window_secs * 1_000_000_000
    }

    /// Nanoseconds of the window and the lockout.
    pub open spec fn total(self) -> int {
        (self.window_secs + self.lockout_secs) * 1_000_000_000
    }
}

/// Nanoseconds since a moment; none before it.
pub open spec fn since(start: u64, now: u64) -> int {
    if now >= start {
        now - start
    } else {
        0
    }
}

/// Whether a window and the lockout behind it have passed.
pub open spec fn is_over(limits: Limits, entry: RateLimitEntry, now: u64) -> bool {
    since(entry.window_start, now) > limits.total()
}

/// Whether the failures of a name are forgotten: its time has passed, or its window did with
/// fewer failures than allowed.
pub open spec fn is_forgotten(limits: Limits, entry: RateLimitEntry, now: u64) -> bool {
    is_over(limits, entry, now) || (since(entry.window_start, now) > limits.window() && entry.attempts < limits.max_attempts)
}

/// The failures of a name as a window that opens now.
pub open spec fn opened(now: u64) -> RateLimitEntry {
    RateLimitEntry { attempts: 0, window_start: now }
}

/// What counts against a name when it is tried: a window that is forgotten opens anew.
pub open spec fn current(limits: Limits, known: Option<RateLimitEntry>, now: u64) -> RateLimitEntry {
    match known {
        None => opened(now),
        Some(e) => if is_forgotten(limits, e, now) {
            opened(now)
        } else {
            e
        },
    }
}

/// Nanoseconds since the window of a name opened that was known before; none for a new name.
pub open spec fn passed(known: Option<RateLimitEntry>, now: u64) -> int {
    match known {
        None => 0,
        Some(e) => since(e.window_start, now),
    }
}

/// Whether a name is blocked: it has as many failures as allowed, and the window that was known
/// before and the lockout behind it have not passed.
pub open spec fn is_blocked(limits: Limits, known: Option<RateLimitEntry>, now: u64) -> bool {
    current(limits, known, now).attempts >= limits.max_attempts && passed(known, now) < limits.total()
}

/// Whole seconds until a name is free again.
pub open spec fn wait_secs(limits: Limits, known: Option<RateLimitEntry>, now: u64) -> nat {
    ((limits.total() - passed(known, now)) / 1_000_000_000) as nat
}

/// What an attempt comes to, and what counts against the name afterwards.
pub open spec fn attempt(limits: Limits, known: Option<RateLimitEntry>, now: u64) -> (Result<(), ErrorView>, RateLimitEntry) {
    let e = current(limits, known, now);
    if is_blocked(limits, known, now) {
        (
            Err(
                ErrorView::Validation(
                    "too many login attempts, try again in "@ + crate::text::decimal_text(wait_secs(limits, known, now))
                        + " seconds"@,
                ),
            ),
            e,
        )
    } else if e.attempts >= limits.max_attempts {
        (Ok(()), RateLimitEntry { attempts: 1, window_start: now })
    } else {
        (Ok(()), RateLimitEntry { attempts: (e.attempts + 1) as u32, window_start: e.window_start })
    }
}

/// The test by which entries stay when there are too many.
pub open spec fn still_counts(limits: Limits, now: u64) -> spec_fn(RateLimitEntry) -> bool {
    |e: RateLimitEntry| !is_over(limits, e, now)
}

/// The entries once those whose time has passed are dropped, which happens only when there are
/// too many.
pub open spec fn pruned(entries: Map<Seq<char>, RateLimitEntry>, limits: Limits, now: u64) -> Map<
    Seq<char>,
    RateLimitEntry,
> {
    if entries.dom().len() >= RATE_LIMITER_MAX_ENTRIES {
        Map::new(
            |k: Seq<char>| entries.contains_key(k) && !is_over(limits, entries[k], now),
            |k: Seq<char>| entries[k],
        )
    } else {
        entries
    }
}

/// What is known of a name.
pub open spec fn known_of(entries: Map<Seq<char>, RateLimitEntry>, key: Seq<char>) -> Option<RateLimitEntry> {
    if entries.contains_key(key) {
        Some(entries[key])
    } else {
        None
    }
}

/// Failed attempts by name.
pub struct LoginRateLimiter {
    limits: Limits,
    entries: Table<String, RateLimitEntry>,
}

impl LoginRateLimiter {
    /// What is allowed.
    pub closed spec fn limits(&self) -> Limits {
        self.limits
    }

    /// What counts against each name.
    pub closed spec fn entries(&self) -> Map<Seq<char>, RateLimitEntry> {
        self.entries@
    }

    /// Whether the value is well formed.
    pub closed spec fn wf(&self) -> bool {
        self.entries.wf() && self.limits.window_secs + self.limits.lockout_secs <= u64::MAX
    }

    /// A limiter for the given failures in a window of seconds, with a lockout of seconds.
    #[must_use]
    pub fn new(max_attempts: u32, window_secs: u64, lockout_secs: u64) -> (r: Self)
        requires
            window_secs + lockout_secs <= u64::MAX,
        ensures
            r.wf(),
            r.limits() == (Limits { max_attempts, window_secs, lockout_secs }),
            r.entries() == Map::<Seq<char>, RateLimitEntry>::empty(),
    {
        LoginRateLimiter { limits: Limits { max_attempts, window_secs, lockout_secs }, entries: Table::new() }
    }

    /// Counts a failure against a name, or says how long it is blocked.
    pub fn check_and_record_failure(&mut self, key: &str, now: u64) -> (r: Result<(), KirinoError>)
        requires
            old(self).wf(),
        ensures
            final(self).wf(),
            final(self).limits() == old(self).limits(),
            ({
                let kept = pruned(old(self).entries(), old(self).limits(), now);
                let (outcome, entry) = attempt(old(self).limits(), known_of(kept, key@), now);
                &&& final(self).entries() == kept.insert(key@, entry)
                &&& match r {
                    Ok(()) => outcome == Ok::<(), ErrorView>(()),
                    Err(e) => outcome == Err::<(), ErrorView>(e@),
                }
            }),
    {
        let limits = self.limits;
        let ghost all = self.entries();
        let window: u128 = limits.window_secs as u128 * 1_000_000_000;
        let total: u128 = (limits.window_secs + limits.lockout_secs) as u128 * 1_000_000_000;
        proof {
            self.entries.lemma_len();
        }
        if self.entries.len() >= RATE_LIMITER_MAX_ENTRIES {
            let mut entries: Table<String, RateLimitEntry> = Table::new();
            std::mem::swap(&mut entries, &mut self.entries);
            let keep = |e: &RateLimitEntry| -> (b: bool)
                ensures
                    b == !is_over(limits, *e, now),
                {
                    let elapsed: u64 = if now >= e.window_start {
                        now - e.window_start
                    } else {
                        0
                    };
                    elapsed as u128 <= total
                };
            self.entries = retain_values(entries, keep, Ghost(still_counts(limits, now)));
        }
        let ghost kept = pruned(all, limits, now);
        assert(self.entries() =~= kept);
        let name = key.to_owned();
        let mut entry = match self.entries.get(&name) {
            Some(e) => *e,
            None => RateLimitEntry { attempts: 0, window_start: now },
        };
        let elapsed: u64 = if now >= entry.window_start {
            now - entry.window_start
        } else {
            0
        };
        let should_reset = elapsed as u128 > total || (elapsed as u128 > window && entry.attempts < limits.max_attempts);
        if should_reset {
            entry = RateLimitEntry { attempts: 0, window_start: now };
        }
        let ghost e = current(limits, known_of(kept, key@), now);
        assert(entry == e);
        if entry.attempts >= limits.max_attempts {
            if (elapsed as u128) < total {
                let remaining: u128 = total - elapsed as u128;
                let message = "too many login attempts, try again in ".to_owned().concat(
                    decimal(remaining / 1_000_000_000).as_str(),
                ).concat(" seconds");
                let _ = self.entries.insert(name, entry);
                return Err(KirinoError::Validation(message));
            }
            entry = RateLimitEntry { attempts: 0, window_start: now };
        }
        entry.attempts = entry.attempts + 1;
        let _ = self.entries.insert(name, entry);
        Ok(())
    }

    /// Forgets the failures of a name.
    pub fn reset(&mut self, key: &str)
        requires
            old(self).wf(),
        ensures
            final(self).wf(),
            final(self).limits() == old(self).limits(),
            final(self).entries() == old(self).entries().remove(key@),
    {
        let _ = self.entries.remove(&key.to_owned());
        assert(self.entries() =~= old(self).entries().remove(key@));
    }
}

/// A name with the allowed number of failures stays blocked, and its window as it is, until
/// window and lockout have passed.
pub proof fn law_lockout_lasts(limits: Limits, e: RateLimitEntry, now: u64)
    requires
        e.attempts >= limits.max_attempts,
        since(e.window_start, now) < limits.total(),
    ensures
        attempt(limits, Some(e), now).0 is Err,
        attempt(limits, Some(e), now).1 == e,
{
}

/// Once window and lockout have passed, a name is free again, and a new window opens.
pub proof fn law_lockout_ends(limits: Limits, e: RateLimitEntry, now: u64)
    requires
        since(e.window_start, now) >= limits.total(),
    ensures
        attempt(limits, Some(e), now).0 is Ok,
        e.attempts >= limits.max_attempts || is_over(limits, e, now) ==> attempt(limits, Some(e), now).1 == (
        RateLimitEntry { attempts: 1, window_start: now }),
{
}

/// A name with fewer failures than allowed is let through, and the failure is counted.
pub proof fn law_below_the_limit_is_let_through(limits: Limits, e: RateLimitEntry, now: u64)
    requires
        e.attempts < limits.max_attempts,
    ensures
        attempt(limits, Some(e), now).0 is Ok,
        attempt(limits, Some(e), now).1.attempts == (if is_forgotten(limits, e, now) {
            1
        } else {
            e.attempts + 1
        }),
{
}

/// A name that was reset is let through as long as any failure is allowed.
pub proof fn law_reset_frees(entries: Map<Seq<char>, RateLimitEntry>, limits: Limits, key: Seq<char>, now: u64)
    requires
        limits.max_attempts > 0,
    ensures
        attempt(limits, known_of(pruned(entries.remove(key), limits, now), key), now).0 is Ok,
{
}

/// Dropping entries for want of room never shortens a lockout: an attempt that is refused without
/// it is refused with it in the same way. As long as any failure is allowed, what an attempt comes
/// to is the same altogether.
pub proof fn law_pruning_changes_no_outcome(
    entries: Map<Seq<char>, RateLimitEntry>,
    limits: Limits,
    key: Seq<char>,
    now: u64,
)
    ensures
        attempt(limits, known_of(entries, key), now).0 is Err || limits.max_attempts > 0 ==> attempt(
            limits,
            known_of(pruned(entries, limits, now), key),
            now,
        ) == attempt(limits, known_of(entries, key), now),
{
}

/// An attempt on one name counts against no other.
pub proof fn law_names_are_independent(
    entries: Map<Seq<char>, RateLimitEntry>,
    limits: Limits,
    key: Seq<char>,
    other: Seq<char>,
    now: u64,
)
    requires
        key != other,
    ensures
        known_of(
            pruned(entries, limits, now).insert(key, attempt(limits, known_of(pruned(entries, limits, now), key), now).1),
            other,
        ) == known_of(pruned(entries, limits, now), other),
{
}

/// An attempt is refused exactly while a name has as many failures as allowed and its window and the
/// lockout behind it last; then nothing is counted. Otherwise it is one failure more in the window that
/// is open, or the first in one that opens now. Of the other names, none whose time has not passed is
/// dropped, and none at all while there are few.
pub proof fn law_attempts_are_counted(
    before: LoginRateLimiter,
    after: LoginRateLimiter,
    key: &str,
    now: u64,
    r: Result<(), KirinoError>,
    other: Seq<char>,
)
    requires
        exists|limiter: &mut LoginRateLimiter|
            *limiter == before && *final(limiter) == after && #[trigger] call_ensures(
                LoginRateLimiter::check_and_record_failure,
                (limiter, key, now),
                r,
            ),
        before.limits().max_attempts > 0,
        other != key@,
    ensures
        ({
            let known = before.entries().contains_key(key@);
            let was = before.entries()[key@];
            let is = after.entries()[key@];
            let max = before.limits().max_attempts;
            let age = now - was.window_start;
            let window = before.limits().window_secs * 1_000_000_000;
            let whole = window + before.limits().lockout_secs * 1_000_000_000;
            &&& r is Err <==> known && was.attempts >= max && if age > 0 {
                age < whole
            } else {
                0 < whole
            }
            &&& r matches Err(e) ==> e@ is Validation && is == was
            &&& r is Ok && known && was.attempts < max && age <= window ==> is.attempts == was.attempts + 1
                && is.window_start == was.window_start
            &&& r is Ok && (!known || was.attempts >= max || age > window) ==> is.attempts == 1 && is.window_start == now
        }),
        after.entries().contains_key(key@),
        after.limits() == before.limits(),
        after.entries().contains_key(other) ==> before.entries().contains_key(other) && after.entries()[other]
            == before.entries()[other],
        before.entries().contains_key(other) && !after.entries().contains_key(other) ==> {
            &&& before.entries().dom().len() >= 10_000
            &&& now - before.entries()[other].window_start > (before.limits().window_secs + before.limits().lockout_secs)
                * 1_000_000_000
        },
{
}

/// A refusal says how many whole seconds are left of the window and the lockout.
pub proof fn law_refusal_says_how_long(before: LoginRateLimiter, after: LoginRateLimiter, key: &str, now: u64, e: KirinoError)
    requires
        exists|limiter: &mut LoginRateLimiter|
            *limiter == before && *final(limiter) == after && #[trigger] call_ensures(
                LoginRateLimiter::check_and_record_failure,
                (limiter, key, now),
                Err(e),
            ),
        before.limits().max_attempts > 0,
        before.entries()[key@].window_start <= now,
    ensures
        e@ matches ErrorView::Validation(text) && exists|secs: nat|
            {
                let left = (before.limits().window_secs + before.limits().lockout_secs) * 1_000_000_000 - (now
                    - before.entries()[key@].window_start);
                &&& secs * 1_000_000_000 <= left < (secs + 1) * 1_000_000_000
                &&& text == "too many login attempts, try again in "@ + #[trigger] crate::text::decimal_text(secs)
                    + " seconds"@
            },
{
    let left = (before.limits().window_secs + before.limits().lockout_secs) * 1_000_000_000 - (now
        - before.entries()[key@].window_start);
    let secs = wait_secs(before.limits(), Some(before.entries()[key@]), now);
    assert(secs == left / 1_000_000_000);
    assert(crate::text::decimal_text(secs) == crate::text::decimal_text(secs));
}

/// A new limiter allows what it was made with and counts nothing; a reset takes away the failures of
/// one name alone.
pub proof fn law_fresh_and_reset(
    max: u32,
    window: u64,
    lockout: u64,
    made: LoginRateLimiter,
    before: LoginRateLimiter,
    after: LoginRateLimiter,
    key: &str,
    name: Seq<char>,
)
    requires
        call_ensures(LoginRateLimiter::new, (max, window, lockout), made),
        exists|limiter: &mut LoginRateLimiter|
            *limiter == before && *final(limiter) == after && #[trigger] call_ensures(
                LoginRateLimiter::reset,
                (limiter, key),
                (),
            ),
    ensures
        made.limits().max_attempts == max && made.limits().window_secs == window && made.limits().lockout_secs == lockout,
        !made.entries().contains_key(name),
        after.entries().contains_key(name) <==> before.entries().contains_key(name) && name != key@,
        after.entries().contains_key(name) ==> after.entries()[name] == before.entries()[name],
        after.limits() == before.limits(),
{
}

} // verus!
