//! Short-lived memory of decisions, keyed by subject id and permission name.
//!
//! An entry lives until its end: a read at or past it is a miss. A write past the
//! cap drops what has ended, and then the entries that end soonest.
use crate::collections::{Key, Table};
use crate::rbac::traits::{Permission, Subject};
use vstd::prelude::*;

verus! {

/// The cap on entries unless another is set.
pub const DEFAULT_MAX_CACHE_ENTRIES: usize = 10_000;

/// What a cached decision is found by.
pub struct CacheKey {
    subject: String,
    permission: String,
}

impl Key for CacheKey {
    type Id = (Seq<char>, Seq<char>);

    closed spec fn id(&self) -> (Seq<char>, Seq<char>) {
        (self.subject@, self.permission@)
    }

    fn same(&self, other: &Self) -> (r: bool) {
        self.subject == other.subject && self.permission == other.permission
    }

    fn duplicate(&self) -> (r: Self) {
        CacheKey { subject: self.subject.clone(), permission: self.permission.clone() }
    }
}

/// A decision and the moment at which it ends.
#[derive(Debug, Clone, Copy, PartialEq, Eq, Structural)]
pub struct CacheEntry {
    /// The decision.
    pub granted: bool,
    /// The end, in nanoseconds of the monotonic clock.
    pub expires_at: u128,
}

/// The entries of a cache by subject id and permission name.
pub type Entries = Map<(Seq<char>, Seq<char>), CacheEntry>;

/// Whether one entry leaves before another: it ends sooner, or at the same moment under a smaller key.
pub open spec fn leaves_before(m: Entries, a: (Seq<char>, Seq<char>), b: (Seq<char>, Seq<char>)) -> bool {
    if m[a].expires_at != m[b].expires_at {
        m[a].expires_at < m[b].expires_at
    } else if a.0 != b.0 {
        crate::text::text_before(a.0, b.0)
    } else {
        crate::text::text_before(a.1, b.1)
    }
}

/// The entries that have not ended.
pub open spec fn live(m: Entries, now: u64) -> Entries {
    Map::new(
        |k: (Seq<char>, Seq<char>)| m.contains_key(k) && now < m[k].expires_at,
        |k: (Seq<char>, Seq<char>)| m[k],
    )
}

/// Whether `kept` is what remains of `m` when the first to leave are gone and `n` are left.
pub open spec fn keeps_last(m: Entries, kept: Entries, n: nat) -> bool {
    &&& kept.submap_of(m)
    &&& kept.len() == n
    &&& forall|a: (Seq<char>, Seq<char>), b: (Seq<char>, Seq<char>)|
        #![trigger m.contains_key(a), kept.contains_key(b)]
        m.contains_key(a) && !kept.contains_key(a) && kept.contains_key(b) ==> leaves_before(m, a, b)
}

/// Whether `after` is what a write of one decision makes of `before`.
pub open spec fn written(
    before: Entries,
    after: Entries,
    key: (Seq<char>, Seq<char>),
    entry: CacheEntry,
    now: u64,
    max: nat,
) -> bool {
    let m = before.insert(key, entry);
    if m.len() <= max {
        after == m
    } else if live(m, now).len() <= max {
        after == live(m, now)
    } else {
        keeps_last(live(m, now), after, max)
    }
}

/// Of two keys that differ one leaves first.
proof fn lemma_leaves_total(m: Entries, a: (Seq<char>, Seq<char>), b: (Seq<char>, Seq<char>))
    ensures
        a != b ==> leaves_before(m, a, b) || leaves_before(m, b, a),
        !(leaves_before(m, a, b) && leaves_before(m, b, a)),
{
    crate::text::lemma_text_before_total(a.0, b.0);
    crate::text::lemma_text_before_total(a.1, b.1);
}

proof fn lemma_leaves_trans(
    m: Entries,
    a: (Seq<char>, Seq<char>),
    b: (Seq<char>, Seq<char>),
    c: (Seq<char>, Seq<char>),
)
    requires
        leaves_before(m, a, b),
        leaves_before(m, b, c),
    ensures
        leaves_before(m, a, c),
{
    crate::text::lemma_text_before_total(a.0, b.0);
    crate::text::lemma_text_before_total(b.0, c.0);
    crate::text::lemma_text_before_total(a.0, c.0);
    crate::text::lemma_text_before_total(a.1, b.1);
    crate::text::lemma_text_before_total(b.1, c.1);
    if crate::text::text_before(a.0, b.0) && crate::text::text_before(b.0, c.0) {
        crate::text::lemma_text_before_trans(a.0, b.0, c.0);
    }
    if crate::text::text_before(a.1, b.1) && crate::text::text_before(b.1, c.1) {
        crate::text::lemma_text_before_trans(a.1, b.1, c.1);
    }
}

/// Cache of decisions with a lifetime and a cap.
pub struct TtlPermissionCache {
    cache: Table<CacheKey, CacheEntry>,
    max_entries: usize,
    ttl: u64,
}

impl TtlPermissionCache {
    /// The entries that are held.
    pub closed spec fn view(self) -> Entries {
        self.cache@
    }

    /// The cap on entries.
    pub closed spec fn cap(self) -> usize {
        self.max_entries
    }

    /// The lifetime of an entry, in nanoseconds.
    pub closed spec fn lifetime(self) -> u64 {
        self.ttl
    }

    /// Whether the value is well formed.
    pub closed spec fn wf(self) -> bool {
        self.cache.wf()
    }

    /// An empty cache whose entries live for `ttl` nanoseconds.
    #[must_use]
    pub fn new(ttl: u64) -> (r: Self)
        ensures
            r.wf(),
            r@ == Entries::empty(),
            r.lifetime() == ttl,
            r.cap() == DEFAULT_MAX_CACHE_ENTRIES,
    {
        TtlPermissionCache { cache: Table::new(), max_entries: DEFAULT_MAX_CACHE_ENTRIES, ttl }
    }

    /// The cache with another cap.
    #[must_use]
    pub fn with_max_entries(self, max_entries: usize) -> (r: Self)
        requires
            self.wf(),
        ensures
            r.wf(),
            r@ == self@,
            r.lifetime() == self.lifetime(),
            r.cap() == max_entries,
    {
        TtlPermissionCache { cache: self.cache, max_entries, ttl: self.ttl }
    }

    /// The decision that is remembered and has not ended at `now`.
    pub fn get<S: Subject, P: Permission>(&self, subject: &S, permission: &P, now: u64) -> (r: Option<bool>)
        requires
            self.wf(),
        ensures
            r == cached(self@, subject.id_text(), permission.name_text(), now),
    {
        let key = CacheKey {
            subject: subject.subject_id().to_owned(),
            permission: permission.name().to_owned(),
        };
        match self.cache.get(&key) {
            Some(entry) => if (now as u128) < entry.expires_at {
                Some(entry.granted)
            } else {
                None
            },
            None => None,
        }
    }

    /// Remembers a decision made at `now`, in place of what was remembered for the pair.
    pub fn set<S: Subject, P: Permission>(&mut self, subject: &S, permission: &P, granted: bool, now: u64)
        requires
            old(self).wf(),
        ensures
            final(self).wf(),
            final(self).cap() == old(self).cap(),
            final(self).lifetime() == old(self).lifetime(),
            written(
                old(self)@,
                final(self)@,
                (subject.id_text(), permission.name_text()),
                (CacheEntry { granted, expires_at: (now + old(self).lifetime()) as u128 }),
                now,
                old(self).cap() as nat,
            ),
    {
        let key = CacheKey {
            subject: subject.subject_id().to_owned(),
            permission: permission.name().to_owned(),
        };
        let expires_at: u128 = now as u128 + self.ttl as u128;
        let _ = self.cache.insert(key, CacheEntry { granted, expires_at });
        if self.cache.len() > self.max_entries {
            self.drop_ended(now);
            if self.cache.len() > self.max_entries {
                self.drop_first_to_leave();
            }
        }
    }

    /// Drops the entries that have ended at `now`.
    fn drop_ended(&mut self, now: u64)
        requires
            old(self).wf(),
        ensures
            final(self).wf(),
            final(self).cap() == old(self).cap(),
            final(self).lifetime() == old(self).lifetime(),
            final(self)@ == live(old(self)@, now),
    {
        let ghost m = self.cache@;
        let mut kept: Table<CacheKey, CacheEntry> = Table::new();
        loop
            invariant
                self.cache.wf(),
                kept.wf(),
                self.max_entries == old(self).max_entries,
                self.ttl == old(self).ttl,
                self.cache@.submap_of(m),
                kept@ == live(m.remove_keys(self.cache@.dom()), now),
            ensures
                kept@ == live(m, now),
            decreases self.cache.ids().len(),
        {
            match self.cache.pop() {
                Some((k, entry)) => {
                    if (now as u128) < entry.expires_at {
                        let _ = kept.insert(k, entry);
                    }
                    assert(kept@ =~= live(m.remove_keys(self.cache@.dom()), now));
                },
                None => {
                    assert(kept@ =~= live(m, now));
                    break ;
                },
            }
        }
        self.cache = kept;
    }

    /// The position of the entry that leaves first.
    fn first_to_leave(&self) -> (best: usize)
        requires
            self.wf(),
            self.cache.ids().len() > 0,
        ensures
            best < self.cache.ids().len(),
            forall|i: int|
                0 <= i < self.cache.ids().len() && i != best ==> leaves_before(
                    self.cache@,
                    self.cache.ids()[best as int],
                    #[trigger] self.cache.ids()[i],
                ),
    {
        let mut best: usize = 0;
        let mut i: usize = 1;
        while i < self.cache.len()
            invariant
                self.wf(),
                best < i <= self.cache.ids().len(),
                forall|j: int|
                    0 <= j < i && j != best ==> leaves_before(
                        self.cache@,
                        self.cache.ids()[best as int],
                        #[trigger] self.cache.ids()[j],
                    ),
            decreases self.cache.ids().len() - i,
        {
            let a = self.cache.key_at(i);
            let b = self.cache.key_at(best);
            let x: u128 = self.cache.value_at(i).expires_at;
            let y: u128 = self.cache.value_at(best).expires_at;
            proof {
                self.cache.lemma_at(i as int);
                self.cache.lemma_at(best as int);
            }
            let earlier = if x != y {
                x < y
            } else if a.subject != b.subject {
                crate::text::comes_before(a.subject.as_str(), b.subject.as_str())
            } else {
                crate::text::comes_before(a.permission.as_str(), b.permission.as_str())
            };
            let ghost m = self.cache@;
            let ghost ka = self.cache.ids()[i as int];
            let ghost kb = self.cache.ids()[best as int];
            assert(earlier == leaves_before(m, ka, kb));
            proof {
                lemma_leaves_total(m, ka, kb);
                assert(ka != kb);
            }
            if earlier {
                proof {
                    assert forall|j: int| 0 <= j < i + 1 && j != i implies leaves_before(
                        m,
                        ka,
                        #[trigger] self.cache.ids()[j],
                    ) by {
                        if j != best {
                            lemma_leaves_trans(m, ka, kb, self.cache.ids()[j]);
                        }
                    }
                }
                best = i;
            }
            i = i + 1;
        }
        best
    }

    /// Drops the entries that leave first until the cap is met.
    fn drop_first_to_leave(&mut self)
        requires
            old(self).wf(),
            old(self)@.len() >= old(self).cap(),
        ensures
            final(self).wf(),
            final(self).cap() == old(self).cap(),
            final(self).lifetime() == old(self).lifetime(),
            keeps_last(old(self)@, final(self)@, old(self).cap() as nat),
    {
        let ghost m = self.cache@;
        while self.cache.len() > self.max_entries
            invariant
                self.cache.wf(),
                self.max_entries == old(self).max_entries,
                self.ttl == old(self).ttl,
                self.cache@.len() >= self.max_entries,
                keeps_last(m, self.cache@, self.cache@.len()),
            decreases self.cache@.len(),
        {
            let ghost now = *self;
            let at: usize = self.first_to_leave();
            let key = self.cache.key_at(at).duplicate();
            proof {
                now.cache.lemma_at(at as int);
                now.cache.lemma_len();
            }
            let _ = self.cache.remove(&key);
            proof {
                let gone = key.id();
                assert(self.cache@ == now.cache@.remove(gone));
                assert forall|a: (Seq<char>, Seq<char>), b: (Seq<char>, Seq<char>)|
                    #![trigger m.contains_key(a), self.cache@.contains_key(b)]
                    m.contains_key(a) && !self.cache@.contains_key(a) && self.cache@.contains_key(b) implies leaves_before(
                    m,
                    a,
                    b,
                ) by {
                    if a == gone {
                        let j = now.cache.lemma_position(b);
                        assert(now.cache@.contains_key(gone) && now.cache@.contains_key(b));
                        assert(now.cache@.submap_of(m));
                        assert(m.dom().contains(gone) && m.dom().contains(b));
                        assert(leaves_before(now.cache@, gone, now.cache.ids()[j]));
                    } else {
                        assert(now.cache@.contains_key(b));
                    }
                }
            }
        }
    }

    /// Forgets every decision about a subject.
    pub fn invalidate_subject<S: Subject>(&mut self, subject: &S)
        requires
            old(self).wf(),
        ensures
            final(self).wf(),
            final(self).cap() == old(self).cap(),
            final(self).lifetime() == old(self).lifetime(),
            final(self)@ == without_subject(old(self)@, subject.id_text()),
    {
        let ghost m = self.cache@;
        let sid = subject.subject_id().to_owned();
        let mut kept: Table<CacheKey, CacheEntry> = Table::new();
        loop
            invariant
                self.cache.wf(),
                kept.wf(),
                sid@ == subject.id_text(),
                self.max_entries == old(self).max_entries,
                self.ttl == old(self).ttl,
                forall|x: (Seq<char>, Seq<char>)| #[trigger]
                    self.cache@.contains_key(x) ==> m.contains_key(x) && m[x] == self.cache@[x],
                kept@ == without_subject(m.remove_keys(self.cache@.dom()), sid@),
            ensures
                kept@ == without_subject(m, sid@),
            decreases self.cache.ids().len(),
        {
            let ghost rest = self.cache@;
            match self.cache.pop() {
                Some((k, entry)) => {
                    let ghost id = k.id();
                    let ghost had = kept@;
                    assert(rest.contains_key(id) && rest[id] == entry);
                    assert(m.contains_key(id) && m[id] == entry);
                    if k.subject != sid {
                        let _ = kept.insert(k, entry);
                    }
                    proof {
                        let left = self.cache@;
                        let passed = m.remove_keys(left.dom());
                        assert(left == rest.remove(id));
                        assert(kept@ == if id.0 != sid@ {
                            had.insert(id, entry)
                        } else {
                            had
                        });
                        assert forall|x: (Seq<char>, Seq<char>)| #[trigger]
                            kept@.contains_key(x) <==> without_subject(passed, sid@).contains_key(x) by {
                            assert(had.contains_key(x) <==> m.contains_key(x) && !rest.contains_key(x) && x.0 != sid@);
                        }
                        assert(kept@ =~= without_subject(passed, sid@));
                    }
                },
                None => {
                    assert(kept@ =~= without_subject(m, sid@));
                    break ;
                },
            }
        }
        self.cache = kept;
    }

    /// Forgets every decision.
    pub fn invalidate_all(&mut self)
        requires
            old(self).wf(),
        ensures
            final(self).wf(),
            final(self).cap() == old(self).cap(),
            final(self).lifetime() == old(self).lifetime(),
            final(self)@ == Entries::empty(),
    {
        self.cache = Table::new();
    }
}

/// Where decisions are remembered, by the id of the subject and the name of the permission.
///
/// No answer means that nothing is known, and is never a denial. What was written may be forgotten
/// at any time; until then it is answered as it was written.
pub trait PermissionCache<S: Subject, P: Permission>: Sized {
    /// Whether the value is well formed.
    open spec fn valid(&self) -> bool {
        true
    }

    /// What is remembered of a subject and a permission at a moment.
    open spec fn recalled(&self, subject: Seq<char>, permission: Seq<char>, now: u64) -> Option<bool> {
        arbitrary()
    }

    /// Whether a write at a moment can lead to another state.
    open spec fn wrote(
        &self,
        after: &Self,
        subject: Seq<char>,
        permission: Seq<char>,
        granted: bool,
        now: u64,
    ) -> bool {
        true
    }

    /// Whether forgetting a subject can lead to another state.
    open spec fn forgot(&self, after: &Self, subject: Seq<char>) -> bool {
        true
    }

    /// Whether forgetting everything can lead to another state.
    open spec fn cleared(&self, after: &Self) -> bool {
        true
    }

    /// The decision that is remembered at `now`.
    fn get(&self, subject: &S, permission: &P, now: u64) -> (r: Option<bool>)
        requires
            self.valid(),
        ensures
            r == self.recalled(subject.id_text(), permission.name_text(), now),
    ;

    /// Remembers a decision made at `now`.
    fn set(&mut self, subject: &S, permission: &P, granted: bool, now: u64)
        requires
            old(self).valid(),
        ensures
            final(self).valid(),
            old(self).wrote(final(self), subject.id_text(), permission.name_text(), granted, now),
            forall|s: Seq<char>, p: Seq<char>, later: u64|
                #![trigger final(self).recalled(s, p, later)]
                final(self).recalled(s, p, later) is None || final(self).recalled(s, p, later) == (if s
                    == subject.id_text() && p == permission.name_text() {
                    Some(granted)
                } else {
                    old(self).recalled(s, p, later)
                }),
    ;

    /// Forgets every decision about a subject.
    fn invalidate_subject(&mut self, subject: &S)
        requires
            old(self).valid(),
        ensures
            final(self).valid(),
            old(self).forgot(final(self), subject.id_text()),
            forall|s: Seq<char>, p: Seq<char>, later: u64|
                #![trigger final(self).recalled(s, p, later)]
                final(self).recalled(s, p, later) is None || (s != subject.id_text() && final(self).recalled(
                    s,
                    p,
                    later,
                ) == old(self).recalled(s, p, later)),
    ;

    /// Forgets every decision.
    fn invalidate_all(&mut self)
        requires
            old(self).valid(),
        ensures
            final(self).valid(),
            old(self).cleared(final(self)),
            forall|s: Seq<char>, p: Seq<char>, later: u64|
                (#[trigger] final(self).recalled(s, p, later)) is None,
    ;
}

/// Whether what is remembered of one pair is what was written, if anything, and what is remembered
/// of every other pair is what it was, if anything.
pub open spec fn adds_only<S: Subject, P: Permission, C: PermissionCache<S, P>>(
    before: C,
    after: C,
    subject: Seq<char>,
    permission: Seq<char>,
    granted: bool,
) -> bool {
    forall|s: Seq<char>, p: Seq<char>, later: u64|
        #![trigger after.recalled(s, p, later)]
        after.recalled(s, p, later) is None || after.recalled(s, p, later) == (if s == subject && p
            == permission {
            Some(granted)
        } else {
            before.recalled(s, p, later)
        })
}

/// Whether nothing is remembered of one subject, and of the others nothing new.
pub open spec fn drops_subject<S: Subject, P: Permission, C: PermissionCache<S, P>>(
    before: C,
    after: C,
    subject: Seq<char>,
) -> bool {
    forall|s: Seq<char>, p: Seq<char>, later: u64|
        #![trigger after.recalled(s, p, later)]
        after.recalled(s, p, later) is None || (s != subject && after.recalled(s, p, later) == before.recalled(
            s,
            p,
            later,
        ))
}

/// Whether nothing is remembered.
pub open spec fn knows_nothing<S: Subject, P: Permission, C: PermissionCache<S, P>>(cache: C) -> bool {
    forall|s: Seq<char>, p: Seq<char>, later: u64| (#[trigger] cache.recalled(s, p, later)) is None
}

impl<S: Subject, P: Permission> PermissionCache<S, P> for TtlPermissionCache {
    open spec fn valid(&self) -> bool {
        self.wf()
    }

    open spec fn recalled(&self, subject: Seq<char>, permission: Seq<char>, now: u64) -> Option<bool> {
        cached(self@, subject, permission, now)
    }

    open spec fn wrote(
        &self,
        after: &Self,
        subject: Seq<char>,
        permission: Seq<char>,
        granted: bool,
        now: u64,
    ) -> bool {
        &&& after.cap() == self.cap()
        &&& after.lifetime() == self.lifetime()
        &&& written(
            self@,
            after@,
            (subject, permission),
            CacheEntry { granted, expires_at: (now + self.lifetime()) as u128 },
            now,
            self.cap() as nat,
        )
    }

    open spec fn forgot(&self, after: &Self, subject: Seq<char>) -> bool {
        &&& after.cap() == self.cap()
        &&& after.lifetime() == self.lifetime()
        &&& after@ == without_subject(self@, subject)
    }

    open spec fn cleared(&self, after: &Self) -> bool {
        &&& after.cap() == self.cap()
        &&& after.lifetime() == self.lifetime()
        &&& after@ == Entries::empty()
    }

    fn get(&self, subject: &S, permission: &P, now: u64) -> (r: Option<bool>) {
        TtlPermissionCache::get(self, subject, permission, now)
    }

    fn set(&mut self, subject: &S, permission: &P, granted: bool, now: u64) {
        let ghost before = self@;
        let ghost entry = CacheEntry { granted, expires_at: (now + self.lifetime()) as u128 };
        let ghost key = (subject.id_text(), permission.name_text());
        let ghost max = self.cap() as nat;
        TtlPermissionCache::set(self, subject, permission, granted, now);
        proof {
            assert forall|s: Seq<char>, p: Seq<char>, later: u64|
                cached(self@, s, p, later) is None || cached(self@, s, p, later) == (if (s, p) == key {
                    Some(granted)
                } else {
                    cached(before, s, p, later)
                }) by {
                if (s, p) != key {
                    law_write_keeps_or_forgets_others(before, self@, key, entry, now, max, (s, p), later);
                } else if self@.contains_key(key) {
                    let m = before.insert(key, entry);
                    if m.len() > max && live(m, now).len() > max {
                        assert(live(m, now).dom().contains(key));
                    }
                }
            }
        }
    }

    fn invalidate_subject(&mut self, subject: &S) {
        TtlPermissionCache::invalidate_subject(self, subject)
    }

    fn invalidate_all(&mut self) {
        TtlPermissionCache::invalidate_all(self)
    }
}

/// The entries of every other subject.
pub open spec fn without_subject(m: Entries, subject: Seq<char>) -> Entries {
    Map::new(
        |k: (Seq<char>, Seq<char>)| m.contains_key(k) && k.0 != subject,
        |k: (Seq<char>, Seq<char>)| m[k],
    )
}

/// What a read of the entries gives.
pub open spec fn cached(m: Entries, subject: Seq<char>, permission: Seq<char>, now: u64) -> Option<bool> {
    if m.contains_key((subject, permission)) && now < m[(subject, permission)].expires_at {
        Some(m[(subject, permission)].granted)
    } else {
        None
    }
}

/// A decision is read back until it ends, provided that the cap left room for it or every
/// other entry ends sooner.
pub proof fn law_read_after_write(
    before: Entries,
    after: Entries,
    subject: Seq<char>,
    permission: Seq<char>,
    entry: CacheEntry,
    now: u64,
    max: nat,
    later: u64,
)
    requires
        written(before, after, (subject, permission), entry, now, max),
        now < entry.expires_at,
        before.insert((subject, permission), entry).len() <= max || (max > 0 && forall|k: (Seq<char>, Seq<char>)|
            #[trigger] before.contains_key(k) && k != (subject, permission) ==> before[k].expires_at < entry.expires_at),
    ensures
        later < entry.expires_at ==> cached(after, subject, permission, later) == Some(entry.granted),
        later >= entry.expires_at ==> cached(after, subject, permission, later) == None::<bool>,
{
    let key = (subject, permission);
    let m = before.insert(key, entry);
    if m.len() > max && live(m, now).len() > max {
        let l = live(m, now);
        assert(l.contains_key(key));
        if !after.contains_key(key) {
            assert(!after.dom().is_empty()) by {
                assert(after.dom().len() == max);
                if after.dom().is_empty() {
                    assert(after.dom() =~= Set::empty());
                }
            }
            let b = after.dom().choose();
            assert(after.dom().contains(b));
            assert(after.contains_key(b));
            assert(l.dom().contains(b));
            assert(leaves_before(l, key, b));
            assert(before.contains_key(b));
        }
        assert(l.dom().contains(key));
    }
}

/// A write never changes what is remembered of another pair into its opposite: it is left
/// as it was, or forgotten.
pub proof fn law_write_keeps_or_forgets_others(
    before: Entries,
    after: Entries,
    key: (Seq<char>, Seq<char>),
    entry: CacheEntry,
    now: u64,
    max: nat,
    other: (Seq<char>, Seq<char>),
    later: u64,
)
    requires
        written(before, after, key, entry, now, max),
        other != key,
    ensures
        cached(after, other.0, other.1, later) == cached(before, other.0, other.1, later) || cached(
            after,
            other.0,
            other.1,
            later,
        ) == None::<bool>,
{
    let m = before.insert(key, entry);
    if m.len() > max && live(m, now).len() > max && after.contains_key(other) {
        assert(live(m, now).dom().contains(other));
    }
}

/// A write leaves no more entries than the cap.
pub proof fn law_cap_holds(
    before: Entries,
    after: Entries,
    key: (Seq<char>, Seq<char>),
    entry: CacheEntry,
    now: u64,
    max: nat,
)
    requires
        written(before, after, key, entry, now, max),
    ensures
        after.len() <= max,
{
}

/// What was remembered of a subject is gone once it is invalidated, and nothing else is.
pub proof fn law_invalidated_subject_is_forgotten(
    m: Entries,
    subject: Seq<char>,
    other: Seq<char>,
    permission: Seq<char>,
    now: u64,
)
    ensures
        cached(without_subject(m, subject), subject, permission, now) == None::<bool>,
        other != subject ==> cached(without_subject(m, subject), other, permission, now) == cached(
            m,
            other,
            permission,
            now,
        ),
{
}

/// A decision is read back before its lifetime has passed and not from then on, and what is remembered
/// of every other pair stays, as long as there is room for one more entry.
pub proof fn law_decision_is_remembered<S: Subject, P: Permission>(
    before: TtlPermissionCache,
    after: TtlPermissionCache,
    subject: &S,
    permission: &P,
    granted: bool,
    now: u64,
    who: &S,
    what: &P,
    later: u64,
    was: Option<bool>,
    is: Option<bool>,
)
    requires
        exists|cache: &mut TtlPermissionCache|
            *cache == before && *final(cache) == after && #[trigger] call_ensures(
                TtlPermissionCache::set::<S, P>,
                (cache, subject, permission, granted, now),
                (),
            ),
        call_ensures(TtlPermissionCache::get::<S, P>, (&before, who, what, later), was),
        call_ensures(TtlPermissionCache::get::<S, P>, (&after, who, what, later), is),
        before@.dom().finite(),
        before@.len() < before.cap(),
    ensures
        who.id_text() == subject.id_text() && what.name_text() == permission.name_text() ==> is == (if later < now
            + before.lifetime() {
            Some(granted)
        } else {
            None
        }),
        who.id_text() != subject.id_text() || what.name_text() != permission.name_text() ==> is == was,
{
    let key = (subject.id_text(), permission.name_text());
    let entry = CacheEntry { granted, expires_at: (now + before.lifetime()) as u128 };
    assert(before@.insert(key, entry).dom() =~= before@.dom().insert(key));
}

/// Never are more entries held than the cap. Where there is no room for all, what has ended leaves; and
/// where that is not enough, an entry leaves only while no entry that stays ends sooner. What stays is
/// as it was.
pub proof fn law_what_leaves_a_full_cache<S: Subject, P: Permission>(
    before: TtlPermissionCache,
    after: TtlPermissionCache,
    subject: &S,
    permission: &P,
    granted: bool,
    now: u64,
    a: (Seq<char>, Seq<char>),
    b: (Seq<char>, Seq<char>),
)
    requires
        exists|cache: &mut TtlPermissionCache|
            *cache == before && *final(cache) == after && #[trigger] call_ensures(
                TtlPermissionCache::set::<S, P>,
                (cache, subject, permission, granted, now),
                (),
            ),
    ensures
        ({
            let all = before@.insert(
                (subject.id_text(), permission.name_text()),
                CacheEntry { granted, expires_at: (now + before.lifetime()) as u128 },
            );
            &&& after.cap() == before.cap() && after.lifetime() == before.lifetime()
            &&& after@.len() <= before.cap()
            &&& after@.contains_key(a) ==> all.contains_key(a) && after@[a] == all[a]
            &&& all.len() <= before.cap() && all.contains_key(a) ==> after@.contains_key(a)
            &&& all.len() > before.cap() && after@.contains_key(a) ==> now < all[a].expires_at
            &&& all.contains_key(a) && !after@.contains_key(a) && now < all[a].expires_at ==> after@.len()
                == before.cap()
            &&& all.contains_key(a) && !after@.contains_key(a) && now < all[a].expires_at && after@.contains_key(b)
                ==> all[a].expires_at <= all[b].expires_at
        }),
{
    let key = (subject.id_text(), permission.name_text());
    let entry = CacheEntry { granted, expires_at: (now + before.lifetime()) as u128 };
    let all = before@.insert(key, entry);
    if all.len() > before.cap() && live(all, now).len() > before.cap() {
        if after@.contains_key(a) {
            assert(live(all, now).dom().contains(a));
        }
        if after@.contains_key(b) {
            assert(live(all, now).dom().contains(b));
        }
        if all.contains_key(a) && !after@.contains_key(a) && now < all[a].expires_at {
            assert(live(all, now).contains_key(a));
        }
    }
}

/// Forgetting a subject forgets what is remembered of it and nothing else, and forgetting everything
/// leaves nothing.
pub proof fn law_what_is_forgotten<S: Subject, P: Permission>(
    before: TtlPermissionCache,
    after: TtlPermissionCache,
    emptied: TtlPermissionCache,
    subject: &S,
    who: &S,
    what: &P,
    now: u64,
    was: Option<bool>,
    is: Option<bool>,
    at_last: Option<bool>,
)
    requires
        exists|cache: &mut TtlPermissionCache|
            *cache == before && *final(cache) == after && #[trigger] call_ensures(
                TtlPermissionCache::invalidate_subject::<S>,
                (cache, subject),
                (),
            ),
        exists|cache: &mut TtlPermissionCache|
            *cache == before && *final(cache) == emptied && #[trigger] call_ensures(
                TtlPermissionCache::invalidate_all,
                (cache,),
                (),
            ),
        call_ensures(TtlPermissionCache::get::<S, P>, (&before, who, what, now), was),
        call_ensures(TtlPermissionCache::get::<S, P>, (&after, who, what, now), is),
        call_ensures(TtlPermissionCache::get::<S, P>, (&emptied, who, what, now), at_last),
    ensures
        who.id_text() == subject.id_text() ==> is is None,
        who.id_text() != subject.id_text() ==> is == was,
        at_last is None,
{
}

/// A new cache is empty, with room for ten thousand decisions unless it is told otherwise.
pub proof fn law_new_cache_is_empty(ttl: u64, max: usize, r: TtlPermissionCache, other: TtlPermissionCache)
    requires
        call_ensures(TtlPermissionCache::new, (ttl,), r),
        call_ensures(TtlPermissionCache::with_max_entries, (r, max), other),
    ensures
        r@.dom() == Set::<(Seq<char>, Seq<char>)>::empty() && other@ == r@,
        r.lifetime() == ttl && other.lifetime() == ttl,
        r.cap() == 10_000 && other.cap() == max,
{
}

} // verus!
