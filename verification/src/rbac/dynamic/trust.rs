//! Trust records, and where they are kept.
//!
//! Who is unknown has no trust. The arithmetic on a record is done by whoever holds it; here are
//! the records that things start from, their retention, and the cycle that ages them all.
use crate::collections::Table;
use crate::error::KirinoError;
use crate::score::Score;
use crate::time::utc_now;
use vstd::prelude::*;

verus! {

/// The bits of 0.01, the trust that is lost in an hour.
pub const DEGRADATION_RATE_BITS: u64 = 0x3F84_7AE1_47AE_147B;

/// The bits of 0.5, the most confidence that a seed gets.
pub const SEED_CONFIDENCE_BITS: u64 = 0x3FE0_0000_0000_0000;

/// The longest retention that is taken at its word, in nanoseconds.
pub const MAX_RETENTION: u128 = 9_223_372_036_854_775_807_000_000;

/// The retention in place of one that is too long: a year of 365 days, in nanoseconds.
pub const CAPPED_RETENTION: u128 = 31_536_000_000_000_000;

/// What is known of someone's past behaviour.
#[derive(Debug, Clone, Copy, PartialEq, Eq, Structural)]
pub struct TrustScore {
    /// Trust, from zero to one.
    pub value: Score,
    /// How much the trust counts, from zero to one.
    pub confidence: Score,
    /// How many observations it rests on.
    pub evidence_count: u64,
    /// When it was last changed.
    pub last_updated: i128,
    /// Trust that is lost in an hour.
    pub degradation_rate: Score,
}

/// The record of someone unknown.
pub open spec fn unknown_at(now: i128) -> TrustScore {
    TrustScore {
        value: crate::score::zero(),
        confidence: crate::score::zero(),
        evidence_count: 0,
        last_updated: now,
        degradation_rate: Score { bits: DEGRADATION_RATE_BITS },
    }
}

/// The lesser of a number and one half; one half where there is no number.
pub open spec fn at_most_half(x: Score) -> Score {
    if x.below(Score { bits: SEED_CONFIDENCE_BITS }) {
        x
    } else {
        Score { bits: SEED_CONFIDENCE_BITS }
    }
}

/// The record of someone with a seed of trust.
pub open spec fn seeded_at(initial_value: Score, now: i128) -> TrustScore {
    TrustScore {
        value: crate::rbac::dynamic::domain::clamped(initial_value),
        confidence: at_most_half(initial_value),
        ..unknown_at(now)
    }
}

impl TrustScore {
    /// The record of someone unknown: no trust, and none of it counts.
    pub fn unknown(now: i128) -> (r: Self)
        ensures
            r == unknown_at(now),
    {
        TrustScore {
            value: Score::from_bits(0),
            confidence: Score::from_bits(0),
            evidence_count: 0,
            last_updated: now,
            degradation_rate: Score::from_bits(DEGRADATION_RATE_BITS),
        }
    }

    /// The record of someone with a seed of trust, of which at most half counts.
    #[must_use]
    pub fn new_at(initial_value: Score, now: i128) -> (r: Self)
        ensures
            r == seeded_at(initial_value, now),
    {
        let value = if initial_value.is_below(Score::from_bits(0)) {
            Score::from_bits(0)
        } else if Score::from_bits(crate::rbac::dynamic::domain::FULL_TRUST_BITS).is_below(initial_value) {
            Score::from_bits(crate::rbac::dynamic::domain::FULL_TRUST_BITS)
        } else {
            initial_value
        };
        let confidence = if initial_value.is_below(Score::from_bits(SEED_CONFIDENCE_BITS)) {
            initial_value
        } else {
            Score::from_bits(SEED_CONFIDENCE_BITS)
        };
        TrustScore {
            value,
            confidence,
            evidence_count: 0,
            last_updated: now,
            degradation_rate: Score::from_bits(DEGRADATION_RATE_BITS),
        }
    }

    /// The record of someone with a seed of trust, as of this moment.
    #[must_use]
    pub fn new(initial_value: Score) -> (r: Self)
        ensures
            exists|now: i128| #[trigger] crate::time::is_now(now) && r == seeded_at(initial_value, now),
    {
        Self::new_at(initial_value, utc_now())
    }

    /// The record after one more observation, with the trust and the confidence that it came to.
    pub fn recorded(self, value: Score, confidence: Score, now: i128) -> (r: Self)
        requires
            self.evidence_count < u64::MAX,
        ensures
            r == (TrustScore {
                value,
                confidence,
                evidence_count: (self.evidence_count + 1) as u64,
                last_updated: now,
                degradation_rate: self.degradation_rate,
            }),
    {
        TrustScore {
            value,
            confidence,
            evidence_count: self.evidence_count + 1,
            last_updated: now,
            degradation_rate: self.degradation_rate,
        }
    }

    /// The record after some time without observations, with the trust and the confidence that
    /// are left.
    pub fn decayed(self, value: Score, confidence: Score, now: i128) -> (r: Self)
        ensures
            r == (TrustScore { value, confidence, last_updated: now, ..self }),
    {
        TrustScore {
            value,
            confidence,
            evidence_count: self.evidence_count,
            last_updated: now,
            degradation_rate: self.degradation_rate,
        }
    }
}

/// A seed counts for at most half, whatever it is, and its trust is in range if it is a number.
pub proof fn law_seed_counts_at_most_half(initial_value: Score, now: i128)
    ensures
        (Score { bits: SEED_CONFIDENCE_BITS }).reaches(seeded_at(initial_value, now).confidence),
        initial_value.rank() is Some ==> seeded_at(initial_value, now).value.reaches(crate::score::zero()),
        initial_value.rank() is Some ==> (Score {
            bits: crate::rbac::dynamic::domain::FULL_TRUST_BITS,
        }).reaches(seeded_at(initial_value, now).value),
{
}

/// How long records are kept, as it is taken.
pub open spec fn retention(max_age: u128) -> int {
    if max_age > MAX_RETENTION {
        CAPPED_RETENTION as int
    } else {
        max_age as int
    }
}

/// Whether a record is too old at a moment; with no retention none is.
pub open spec fn is_stale(score: TrustScore, max_age: u128, now: i128) -> bool {
    max_age != 0 && score.last_updated < now - retention(max_age)
}

/// Where trust is kept. A read that fails is a failure, never an absence.
pub trait TrustScoreStore: Sized {
    /// Whether the value is well formed.
    open spec fn wf(&self) -> bool {
        true
    }

    /// The record of each person, whether it can be read or not.
    open spec fn held(&self) -> Map<Seq<char>, TrustScore> {
        arbitrary()
    }

    /// The record of someone.
    fn get(&self, delegator_id: &String) -> (r: Result<Option<TrustScore>, KirinoError>)
        requires
            self.wf(),
        ensures
            r matches Ok(score) ==> score == record_of(self.held(), delegator_id@),
    ;

    /// Puts a record in place of the one that was there. A write that fails may have been done.
    fn set(&mut self, delegator_id: String, score: TrustScore) -> (r: Result<(), KirinoError>)
        requires
            old(self).wf(),
        ensures
            final(self).wf(),
            final(self).held() == old(self).held().insert(delegator_id@, score) || r is Err && final(self).held()
                == old(self).held(),
    ;

    /// Removes a record. A removal that fails may have been done.
    fn delete(&mut self, delegator_id: &String) -> (r: Result<(), KirinoError>)
        requires
            old(self).wf(),
        ensures
            final(self).wf(),
            final(self).held() == old(self).held().remove(delegator_id@) || r is Err && final(self).held()
                == old(self).held(),
    ;

    /// Removes the records that are too old, and names them. A retention of zero removes nothing.
    fn sweep_stale(&mut self, max_age: u128) -> (r: Result<Vec<String>, KirinoError>)
        requires
            old(self).wf(),
        ensures
            final(self).wf(),
            r matches Ok(ids) ==> {
                &&& max_age == 0 ==> ids@.len() == 0
                &&& crate::rbac::traits::texts_of(ids@).to_set().subset_of(old(self).held().dom())
                &&& final(self).held() == old(self).held().remove_keys(crate::rbac::traits::texts_of(ids@).to_set())
            },
    ;

    /// Who has a record, each once.
    fn list_ids(&self) -> (r: Result<Vec<String>, KirinoError>)
        requires
            self.wf(),
        ensures
            r matches Ok(ids) ==> {
                &&& crate::rbac::traits::texts_of(ids@).no_duplicates()
                &&& crate::rbac::traits::texts_of(ids@).to_set() == self.held().dom()
            },
    ;
}

/// The record of someone; none where there is none.
pub open spec fn record_of(held: Map<Seq<char>, TrustScore>, id: Seq<char>) -> Option<TrustScore> {
    if held.contains_key(id) {
        Some(held[id])
    } else {
        None
    }
}

/// Whether every record went through a step once, and nobody gained or lost a record.
pub open spec fn all_stepped<F: Fn(TrustScore) -> TrustScore>(
    step: F,
    before: Map<Seq<char>, TrustScore>,
    after: Map<Seq<char>, TrustScore>,
) -> bool {
    &&& after.dom() == before.dom()
    &&& forall|id: Seq<char>| #[trigger] before.contains_key(id) ==> call_ensures(step, (before[id],), after[id])
}

/// Whether every record went through a step at most once, and nobody gained or lost a record.
pub open spec fn some_stepped<F: Fn(TrustScore) -> TrustScore>(
    step: F,
    before: Map<Seq<char>, TrustScore>,
    after: Map<Seq<char>, TrustScore>,
) -> bool {
    &&& after.dom() == before.dom()
    &&& forall|id: Seq<char>| #[trigger]
        before.contains_key(id) ==> after[id] == before[id] || call_ensures(step, (before[id],), after[id])
}

/// Whether writing a record to a store as it is can come to this.
pub open spec fn set_as<T: TrustScoreStore>(
    before: T,
    id: Seq<char>,
    score: TrustScore,
    r: Result<(), KirinoError>,
) -> bool {
    exists|store: &mut T, name: String|
        *store == before && name@ == id && #[trigger] call_ensures(T::set, (store, name, score), r)
}

/// Whether going through the records of a store can end in a failure: the list of them, a record,
/// or the write of one failed.
pub open spec fn step_failed<T: TrustScoreStore>(before: T, after: T, e: KirinoError) -> bool {
    ||| call_ensures(T::list_ids, (&before,), Err(e))
    ||| exists|name: String| before.held().contains_key(name@) && #[trigger] call_ensures(T::get, (&after, &name), Err(e))
    ||| exists|last: T, id: Seq<char>, score: TrustScore|
        {
            &&& before.held().contains_key(id)
            &&& after.held() == last.held() || after.held() == last.held().insert(id, score)
            &&& #[trigger] set_as(last, id, score, Err(e))
        }
}

/// Whether the records of some were written one by one, each to the store that the one before left,
/// and each time with success.
pub open spec fn set_in_turn<T: TrustScoreStore>(run: Seq<T>, names: Seq<Seq<char>>) -> bool {
    &&& run.len() == names.len() + 1
    &&& forall|i: int|
        0 <= i < names.len() ==> {
            &&& set_as(run[i], #[trigger] names[i], run[i + 1].held()[names[i]], Ok(()))
            &&& run[i + 1].held() == run[i].held().insert(names[i], run[i + 1].held()[names[i]])
        }
}

/// Whether every record of a store was written once.
pub open spec fn all_set<T: TrustScoreStore>(before: T, after: T) -> bool {
    exists|run: Seq<T>, names: Seq<Seq<char>>|
        {
            &&& names.no_duplicates()
            &&& names.to_set() == before.held().dom()
            &&& run[0] == before
            &&& run.last() == after
            &&& #[trigger] set_in_turn(run, names)
        }
}

/// Puts every record through a step, one by one, and counts them. The first failure of the store
/// ends it, with what was done until then left as it is.
pub fn decay_once<T: TrustScoreStore, F: Fn(TrustScore) -> TrustScore>(store: &mut T, step: F) -> (r: Result<
    usize,
    KirinoError,
>)
    requires
        old(store).wf(),
        forall|t: TrustScore| call_requires(step, (t,)),
    ensures
        final(store).wf(),
        match r {
            Ok(n) => {
                &&& n == old(store).held().dom().len()
                &&& all_stepped(step, old(store).held(), final(store).held())
                &&& all_set(*old(store), *final(store))
            },
            Err(e) => some_stepped(step, old(store).held(), final(store).held()) && step_failed(
                *old(store),
                *final(store),
                e,
            ),
        },
{
    let ghost before = store.held();
    let ids = match store.list_ids() {
        Ok(ids) => ids,
        Err(e) => {
            return Err(e);
        },
    };
    let ghost names = crate::rbac::traits::texts_of(ids@);
    let ghost mut run: Seq<T> = seq![*store];
    let mut done: usize = 0;
    let mut i: usize = 0;
    while i < ids.len()
        invariant
            store.wf(),
            run[0] == *old(store),
            run.last() == *store,
            set_in_turn(run, names.take(i as int)),
            before == old(store).held(),
            names == crate::rbac::traits::texts_of(ids@),
            names.no_duplicates(),
            names.to_set() == before.dom(),
            forall|t: TrustScore| call_requires(step, (t,)),
            i <= ids@.len(),
            done == i,
            store.held().dom() == before.dom(),
            forall|j: int| 0 <= j < i ==> call_ensures(step, (before[#[trigger] names[j]],), store.held()[names[j]]),
            forall|j: int| i <= j < names.len() ==> store.held()[#[trigger] names[j]] == before[names[j]],
        decreases ids.len() - i,
    {
        let ghost id = names[i as int];
        proof {
            assert(names.to_set().contains(id));
            lemma_partly_stepped(step, before, store.held(), names, i as int);
        }
        let read = match store.get(&ids[i]) {
            Ok(read) => read,
            Err(e) => {
                return Err(e);
            },
        };
        match read {
            Some(score) => {
                let next = step(score);
                let ghost last = *store;
                let ghost held = store.held();
                let written = store.set(ids[i].clone(), next);
                assert(set_as(last, id, next, written));
                proof {
                    assert(held.insert(id, next).dom() =~= before.dom());
                    assert(some_stepped(step, before, held.insert(id, next))) by {
                        assert forall|x: Seq<char>| #[trigger] before.contains_key(x) implies held.insert(id, next)[x]
                            == before[x] || call_ensures(step, (before[x],), held.insert(id, next)[x]) by {}
                    }
                }
                match written {
                    Ok(()) => {
                        assert(written->Ok_0 == ());
                    },
                    Err(e) => {
                        return Err(e);
                    },
                }
                proof {
                    let longer = run.push(*store);
                    let set = names.take(i + 1);
                    assert forall|k: int| 0 <= k < set.len() implies set_as(
                        longer[k],
                        #[trigger] set[k],
                        longer[k + 1].held()[set[k]],
                        Ok(()),
                    ) && longer[k + 1].held() == longer[k].held().insert(set[k], longer[k + 1].held()[set[k]]) by {
                        if k < i {
                            assert(set[k] == names.take(i as int)[k]);
                            assert(longer[k] == run[k] && longer[k + 1] == run[k + 1]);
                        } else {
                            assert(longer[k] == last);
                        }
                    }
                    run = longer;
                }
                done = done + 1;
            },
            None => {},
        }
        i = i + 1;
    }
    proof {
        assert(names.take(names.len() as int) =~= names);
        assert(set_in_turn(run, names));
        names.unique_seq_to_set();
        assert forall|id: Seq<char>| #[trigger] before.contains_key(id) implies call_ensures(
            step,
            (before[id],),
            store.held()[id],
        ) by {
            assert(names.to_set().contains(id));
            let j = choose|j: int| 0 <= j < names.len() && names[j] == id;
            assert(names[j] == id);
        }
    }
    Ok(done)
}

/// A store whose first records went through a step, and whose others are as they were, went
/// through it in part.
proof fn lemma_partly_stepped<F: Fn(TrustScore) -> TrustScore>(
    step: F,
    before: Map<Seq<char>, TrustScore>,
    after: Map<Seq<char>, TrustScore>,
    names: Seq<Seq<char>>,
    i: int,
)
    requires
        0 <= i <= names.len(),
        names.to_set() == before.dom(),
        after.dom() == before.dom(),
        forall|j: int| 0 <= j < i ==> call_ensures(step, (before[#[trigger] names[j]],), after[names[j]]),
        forall|j: int| i <= j < names.len() ==> after[#[trigger] names[j]] == before[names[j]],
    ensures
        some_stepped(step, before, after),
{
    assert forall|id: Seq<char>| #[trigger] before.contains_key(id) implies after[id] == before[id] || call_ensures(
        step,
        (before[id],),
        after[id],
    ) by {
        assert(names.to_set().contains(id));
        let j = choose|j: int| 0 <= j < names.len() && names[j] == id;
        assert(names[j] == id);
    }
}

/// Trust records in memory.
pub struct InMemoryTrustScoreStore {
    scores: Table<String, TrustScore>,
}

impl InMemoryTrustScoreStore {
    /// The record of each person.
    pub closed spec fn records(&self) -> Map<Seq<char>, TrustScore> {
        self.scores@
    }

    /// A store without records.
    #[must_use]
    pub fn new() -> (r: Self)
        ensures
            r.wf(),
            r.records() == Map::<Seq<char>, TrustScore>::empty(),
    {
        InMemoryTrustScoreStore { scores: Table::new() }
    }

    /// Removes the records that are too old at a moment, and names them. A retention of zero
    /// removes nothing, and one that is too long is taken as a year.
    pub fn sweep_stale_at(&mut self, max_age: u128, now: i128) -> (r: Vec<String>)
        requires
            old(self).wf(),
            crate::time::is_moment(now),
        ensures
            final(self).wf(),
            crate::rbac::traits::texts_of(r@).no_duplicates(),
            forall|id: Seq<char>| #[trigger]
                crate::rbac::traits::texts_of(r@).contains(id) <==> old(self).records().contains_key(id) && is_stale(
                    old(self).records()[id],
                    max_age,
                    now,
                ),
            final(self).records() == old(self).records().remove_keys(crate::rbac::traits::texts_of(r@).to_set()),
    {
        let mut stale: Vec<String> = Vec::new();
        let ghost before = self.records();
        if max_age == 0 {
            assert(before.remove_keys(crate::rbac::traits::texts_of(stale@).to_set()) =~= before);
            return stale;
        }
        let kept: u128 = if max_age > MAX_RETENTION {
            CAPPED_RETENTION
        } else {
            max_age
        };
        let cutoff: i128 = now - kept as i128;
        let ghost ids = self.scores.ids();
        let mut i: usize = 0;
        while i < self.scores.len()
            invariant
                self.scores.wf(),
                ids == self.scores.ids(),
                before == self.records(),
                max_age != 0,
                cutoff == now - retention(max_age),
                i <= ids.len(),
                crate::rbac::traits::texts_of(stale@).no_duplicates(),
                forall|id: Seq<char>| #[trigger]
                    crate::rbac::traits::texts_of(stale@).contains(id) <==> ids.take(i as int).contains(id) && is_stale(
                        before[id],
                        max_age,
                        now,
                    ),
            decreases ids.len() - i,
        {
            let ghost found = crate::rbac::traits::texts_of(stale@);
            let ghost id = ids[i as int];
            proof {
                self.scores.lemma_at(i as int);
                crate::collections::lemma_take_next_to_set(ids, i as int);
                assert forall|x: Seq<char>| #[trigger] ids.take(i + 1).contains(x) <==> (ids.take(i as int).contains(x) || x == id) by {
                    assert(ids.take(i + 1).to_set().contains(x) == ids.take(i as int).to_set().insert(id).contains(x));
                }
                assert(!ids.take(i as int).contains(id)) by {
                    if ids.take(i as int).contains(id) {
                        let j = choose|j: int| 0 <= j < i && ids.take(i as int)[j] == id;
                        assert(ids[j] == ids[i as int]);
                    }
                }
            }
            if self.scores.value_at(i).last_updated < cutoff {
                stale.push(self.scores.key_at(i).clone());
                proof {
                    let longer = crate::rbac::traits::texts_of(stale@);
                    assert(longer =~= found.push(id));
                    assert(!found.contains(id));
                    assert forall|x: Seq<char>| #[trigger] longer.contains(x) <==> (found.contains(x) || x == id) by {
                        if found.contains(x) {
                            let j = choose|j: int| 0 <= j < found.len() && found[j] == x;
                            assert(longer[j] == x);
                        }
                        if x == id {
                            assert(longer[found.len() as int] == x);
                        }
                    }
                }
            }
            i = i + 1;
        }
        proof {
            assert(ids.take(ids.len() as int) =~= ids);
        }
        let ghost names = crate::rbac::traits::texts_of(stale@);
        let mut k: usize = 0;
        assert(before =~= before.remove_keys(names.take(0).to_set()));
        while k < stale.len()
            invariant
                self.scores.wf(),
                names == crate::rbac::traits::texts_of(stale@),
                k <= stale@.len(),
                self.records() == before.remove_keys(names.take(k as int).to_set()),
            decreases stale.len() - k,
        {
            let ghost so_far = self.records();
            let _ = self.scores.remove(&stale[k]);
            proof {
                crate::collections::lemma_take_next_to_set(names, k as int);
                assert(self.records() =~= so_far.remove(names[k as int]));
                assert(self.records() =~= before.remove_keys(names.take(k + 1).to_set()));
            }
            k = k + 1;
        }
        assert(names.take(names.len() as int) =~= names);
        stale
    }
}

impl Default for InMemoryTrustScoreStore {
    /// A store without records.
    fn default() -> (r: Self)
        ensures
            r.wf(),
            r.records() == Map::<Seq<char>, TrustScore>::empty(),
    {
        Self::new()
    }
}

impl TrustScoreStore for InMemoryTrustScoreStore {
    closed spec fn wf(&self) -> bool {
        self.scores.wf()
    }

    open spec fn held(&self) -> Map<Seq<char>, TrustScore> {
        self.records()
    }

    fn get(&self, delegator_id: &String) -> (r: Result<Option<TrustScore>, KirinoError>)
        ensures
            r is Ok,
    {
        match self.scores.get(delegator_id) {
            Some(t) => Ok(Some(*t)),
            None => Ok(None),
        }
    }

    fn set(&mut self, delegator_id: String, score: TrustScore) -> (r: Result<(), KirinoError>)
        ensures
            r is Ok,
    {
        let _ = self.scores.insert(delegator_id, score);
        Ok(())
    }

    fn delete(&mut self, delegator_id: &String) -> (r: Result<(), KirinoError>)
        ensures
            r is Ok,
    {
        let _ = self.scores.remove(delegator_id);
        assert(self.records() =~= old(self).records().remove(delegator_id@));
        Ok(())
    }

    fn sweep_stale(&mut self, max_age: u128) -> (r: Result<Vec<String>, KirinoError>)
        ensures
            r is Ok,
            crate::rbac::traits::texts_of(r->Ok_0@).no_duplicates(),
            final(self).records() == old(self).records().remove_keys(
                crate::rbac::traits::texts_of(r->Ok_0@).to_set(),
            ),
            exists|now: i128| #[trigger]
                crate::time::is_now(now) && forall|id: Seq<char>| #[trigger]
                    crate::rbac::traits::texts_of(r->Ok_0@).contains(id) <==> old(self).records().contains_key(id)
                        && is_stale(old(self).records()[id], max_age, now),
    {
        let now: i128 = utc_now();
        let swept = self.sweep_stale_at(max_age, now);
        proof {
            if max_age == 0 && swept@.len() > 0 {
                assert(crate::rbac::traits::texts_of(swept@)[0] == swept@[0]@);
                assert(crate::rbac::traits::texts_of(swept@).contains(swept@[0]@));
            }
            assert forall|i: int| 0 <= i < swept@.len() implies !self.records().contains_key((#[trigger] swept@[i])@) by {
                assert(crate::rbac::traits::texts_of(swept@)[i] == swept@[i]@);
                assert(crate::rbac::traits::texts_of(swept@).to_set().contains(swept@[i]@));
            }
        }
        Ok(swept)
    }

    fn list_ids(&self) -> (r: Result<Vec<String>, KirinoError>)
        ensures
            r is Ok,
    {
        let ids = self.scores.keys_list();
        proof {
            assert(crate::rbac::traits::texts_of(ids@) =~= self.scores.ids());
            assert(self.scores.ids().to_set() =~= self.records().dom());
            assert forall|id: Seq<char>| crate::rbac::traits::texts_of(ids@).contains(id) <==> self.records().contains_key(
                id,
            ) by {
                assert(self.scores.ids().to_set().contains(id) <==> self.records().dom().contains(id));
            }
        }
        Ok(ids)
    }
}

/// A record that was changed within the retention, or at a later moment, is kept.
pub proof fn law_recent_records_are_kept(score: TrustScore, max_age: u128, now: i128)
    requires
        score.last_updated >= now - retention(max_age),
    ensures
        !is_stale(score, max_age, now),
{
}

/// The record of someone unknown has no trust, none of which counts. A seed is brought into the range
/// from zero to one, and counts by itself up to one half; it rests on no observation, and 0.01 of it is
/// lost in an hour.
pub proof fn law_records_that_things_start_from(seed: Score, now: i128, unknown: TrustScore, seeded: TrustScore)
    requires
        call_ensures(TrustScore::unknown, (now,), unknown),
        call_ensures(TrustScore::new_at, (seed, now), seeded),
    ensures
        unknown.value.bits == 0 && unknown.confidence.bits == 0 && unknown.evidence_count == 0,
        unknown.last_updated == now && seeded.last_updated == now,
        unknown.degradation_rate.bits == 0x3F84_7AE1_47AE_147B,
        seeded.degradation_rate.bits == 0x3F84_7AE1_47AE_147B,
        seeded.evidence_count == 0,
        seed.below(Score { bits: 0 }) ==> seeded.value.bits == 0,
        (Score { bits: 0x3FF0_0000_0000_0000 }).below(seed) ==> seeded.value.bits == 0x3FF0_0000_0000_0000,
        !seed.below(Score { bits: 0 }) && !(Score { bits: 0x3FF0_0000_0000_0000 }).below(seed) ==> seeded.value == seed,
        seed.below(Score { bits: 0x3FE0_0000_0000_0000 }) ==> seeded.confidence == seed,
        !seed.below(Score { bits: 0x3FE0_0000_0000_0000 }) ==> seeded.confidence.bits == 0x3FE0_0000_0000_0000,
{
}

/// An observation is counted and time that passes is not; either sets the trust, the confidence and
/// the moment, and leaves the rate.
pub proof fn law_observations_are_counted(
    t: TrustScore,
    value: Score,
    confidence: Score,
    now: i128,
    recorded: TrustScore,
    decayed: TrustScore,
)
    requires
        t.evidence_count < u64::MAX,
        call_ensures(TrustScore::recorded, (t, value, confidence, now), recorded),
        call_ensures(TrustScore::decayed, (t, value, confidence, now), decayed),
    ensures
        recorded.evidence_count == t.evidence_count + 1,
        decayed.evidence_count == t.evidence_count,
        recorded.value == value && decayed.value == value,
        recorded.confidence == confidence && decayed.confidence == confidence,
        recorded.last_updated == now && decayed.last_updated == now,
        recorded.degradation_rate == t.degradation_rate && decayed.degradation_rate == t.degradation_rate,
{
}

/// A sweep removes and names exactly the records that were last changed before the retention began,
/// each once. A retention of zero removes nothing, and one of more than 2^63 - 1 milliseconds counts as
/// 365 days.
pub proof fn law_sweep_removes_what_is_too_old(
    before: InMemoryTrustScoreStore,
    after: InMemoryTrustScoreStore,
    max_age: u128,
    now: i128,
    r: Vec<String>,
    id: Seq<char>,
)
    requires
        exists|store: &mut InMemoryTrustScoreStore|
            *store == before && *final(store) == after && #[trigger] call_ensures(
                InMemoryTrustScoreStore::sweep_stale_at,
                (store, max_age, now),
                r,
            ),
    ensures
        ({
            let kept_for: int = if max_age > 9_223_372_036_854_775_807_000_000 {
                31_536_000_000_000_000
            } else {
                max_age as int
            };
            let old_one = before.records().contains_key(id) && max_age != 0 && before.records()[id].last_updated < now
                - kept_for;
            let named = exists|i: int| 0 <= i < r@.len() && #[trigger] r@[i]@ == id;
            &&& named <==> old_one
            &&& after.records().contains_key(id) <==> before.records().contains_key(id) && !old_one
            &&& after.records().contains_key(id) ==> after.records()[id] == before.records()[id]
        }),
        forall|i: int, j: int| 0 <= i < j < r@.len() ==> #[trigger] r@[i]@ != #[trigger] r@[j]@,
{
    let names = crate::rbac::traits::texts_of(r@);
    if names.contains(id) {
        let i = choose|i: int| 0 <= i < names.len() && names[i] == id;
        assert(r@[i]@ == id);
        assert(names.to_set().contains(id));
    }
    if exists|i: int| 0 <= i < r@.len() && #[trigger] r@[i]@ == id {
        let i = choose|i: int| 0 <= i < r@.len() && #[trigger] r@[i]@ == id;
        assert(names[i] == id);
        assert(names.contains(id));
    }
    assert(names.to_set().contains(id) <==> names.contains(id));
    assert forall|i: int, j: int| 0 <= i < j < r@.len() implies #[trigger] r@[i]@ != #[trigger] r@[j]@ by {
        assert(names[i] == r@[i]@ && names[j] == r@[j]@);
    }
}

/// A record that is written is read back, and one that is removed is not; nobody else's changes.
pub proof fn law_record_is_read_back(
    before: InMemoryTrustScoreStore,
    written: InMemoryTrustScoreStore,
    removed: InMemoryTrustScoreStore,
    name: String,
    score: TrustScore,
    asked: &String,
    at_first: Result<Option<TrustScore>, KirinoError>,
    then: Result<Option<TrustScore>, KirinoError>,
    at_last: Result<Option<TrustScore>, KirinoError>,
)
    requires
        exists|store: &mut InMemoryTrustScoreStore|
            *store == before && *final(store) == written && #[trigger] call_ensures(
                InMemoryTrustScoreStore::set,
                (store, name, score),
                Ok(()),
            ),
        exists|store: &mut InMemoryTrustScoreStore|
            *store == written && *final(store) == removed && #[trigger] call_ensures(
                InMemoryTrustScoreStore::delete,
                (store, &name),
                Ok(()),
            ),
        call_ensures(InMemoryTrustScoreStore::get, (&before, asked), at_first),
        call_ensures(InMemoryTrustScoreStore::get, (&written, asked), then),
        call_ensures(InMemoryTrustScoreStore::get, (&removed, asked), at_last),
    ensures
        asked@ == name@ ==> then == Ok::<Option<TrustScore>, KirinoError>(Some(score)),
        asked@ == name@ ==> at_last == Ok::<Option<TrustScore>, KirinoError>(None),
        asked@ != name@ ==> then == at_first && at_last == at_first,
{
}

/// Where a cycle succeeds, every record went through the step once, and nobody gained or lost one.
pub proof fn law_cycle_steps_every_record<T: TrustScoreStore, F: Fn(TrustScore) -> TrustScore>(
    before: T,
    after: T,
    step: F,
    n: usize,
    id: Seq<char>,
)
    requires
        exists|store: &mut T|
            *store == before && *final(store) == after && #[trigger] call_ensures(decay_once::<T, F>, (store, step), Ok(n)),
    ensures
        n == before.held().dom().len(),
        after.held().contains_key(id) <==> before.held().contains_key(id),
        before.held().contains_key(id) ==> call_ensures(step, (before.held()[id],), after.held()[id]),
{
    assert(after.held().dom().contains(id) <==> before.held().dom().contains(id));
}

/// Those who are listed are exactly those whose record can be read, each once.
pub proof fn law_listed_records_can_be_read(
    store: &InMemoryTrustScoreStore,
    ids: Vec<String>,
    id: &String,
    record: Option<TrustScore>,
)
    requires
        call_ensures(InMemoryTrustScoreStore::list_ids, (store,), Ok(ids)),
        call_ensures(InMemoryTrustScoreStore::get, (store, id), Ok(record)),
    ensures
        crate::rbac::memory::is_among(ids@, id@) <==> record is Some,
        forall|i: int, j: int| 0 <= i < j < ids@.len() ==> (#[trigger] ids@[i])@ != (#[trigger] ids@[j])@,
{
    crate::rbac::memory::lemma_among(ids@, id@);
    let texts = crate::rbac::traits::texts_of(ids@);
    assert forall|i: int, j: int| 0 <= i < j < ids@.len() implies (#[trigger] ids@[i])@ != (#[trigger] ids@[j])@ by {
        assert(texts[i] != texts[j]);
    }
}

/// A new store holds the record of no one.
pub proof fn law_new_store_knows_no_one(
    made: InMemoryTrustScoreStore,
    usual: InMemoryTrustScoreStore,
    id: Seq<char>,
)
    requires
        call_ensures(InMemoryTrustScoreStore::new, (), made),
        call_ensures(InMemoryTrustScoreStore::default, (), usual),
    ensures
        !made.records().contains_key(id) && !usual.records().contains_key(id),
{
}

/// A record that is made now is one that is made at some moment that the clock reads: without evidence, last
/// changed then, and trusted as much as a record with that seed is.
pub proof fn law_record_is_made_now(seed: Score, r: TrustScore, then: i128, made: TrustScore)
    requires
        call_ensures(TrustScore::new, (seed,), r),
        call_ensures(TrustScore::new_at, (seed, then), made),
    ensures
        crate::time::is_now(r.last_updated),
        r.evidence_count == 0,
        r.value == made.value && r.confidence == made.confidence && r.degradation_rate == made.degradation_rate,
{
}

/// Where a cycle fails, nobody has gained or lost a record, and each is as it was or went through the step once.
pub proof fn law_failed_cycle_steps_at_most_once<T: TrustScoreStore, F: Fn(TrustScore) -> TrustScore>(
    before: T,
    after: T,
    step: F,
    e: KirinoError,
    id: Seq<char>,
)
    requires
        exists|store: &mut T|
            *store == before && *final(store) == after && #[trigger] call_ensures(decay_once::<T, F>, (store, step), Err(e)),
    ensures
        after.held().contains_key(id) <==> before.held().contains_key(id),
        before.held().contains_key(id) ==> after.held()[id] == before.held()[id] || call_ensures(
            step,
            (before.held()[id],),
            after.held()[id],
        ),
{
    assert(after.held().dom().contains(id) <==> before.held().dom().contains(id));
}

/// A sweep takes the records away that it names and no others; with a retention of zero there are none. Of two
/// records the one that was changed last is never taken alone.
pub proof fn law_sweep_now(
    before: InMemoryTrustScoreStore,
    after: InMemoryTrustScoreStore,
    max_age: u128,
    r: Result<Vec<String>, KirinoError>,
    id: Seq<char>,
    newer: Seq<char>,
)
    requires
        exists|store: &mut InMemoryTrustScoreStore|
            *store == before && *final(store) == after && #[trigger] call_ensures(
                InMemoryTrustScoreStore::sweep_stale,
                (store, max_age),
                r,
            ),
        before.records().contains_key(id) && before.records().contains_key(newer),
        before.records()[id].last_updated <= before.records()[newer].last_updated,
    ensures
        r is Ok,
        max_age == 0 ==> after.records().contains_key(id),
        !after.records().contains_key(id) <==> exists|i: int| 0 <= i < r->Ok_0@.len() && #[trigger] r->Ok_0@[i]@ == id,
        after.records().contains_key(id) ==> after.records()[id] == before.records()[id],
        !after.records().contains_key(newer) ==> !after.records().contains_key(id),
{
    let names = crate::rbac::traits::texts_of(r->Ok_0@);
    assert(names.to_set().contains(id) <==> names.contains(id));
    assert(names.to_set().contains(newer) <==> names.contains(newer));
    if names.contains(id) {
        let i = choose|i: int| 0 <= i < names.len() && names[i] == id;
        assert(r->Ok_0@[i]@ == id);
    }
    if exists|i: int| 0 <= i < r->Ok_0@.len() && #[trigger] r->Ok_0@[i]@ == id {
        let i = choose|i: int| 0 <= i < r->Ok_0@.len() && #[trigger] r->Ok_0@[i]@ == id;
        assert(names[i] == id);
    }
}

} // verus!
