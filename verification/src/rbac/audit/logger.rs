//! The front door: record a decision, then go through the rules.
use crate::rbac::audit::analyzer::{AuditAnalysisResult, AuditAnalyzer, DefaultAuditAnalyzer};
use crate::rbac::audit::entry::AuditEntry;
use crate::rbac::audit::policy::{AuditAlert, AuditPolicyEngine, InMemoryAuditPolicyEngine};
use crate::rbac::audit::sink::{AuditFilter, AuditSink, InMemoryAuditSink};
use crate::time::utc_now;
use vstd::prelude::*;

verus! {

/// A sink, with rules and summaries where they are wanted.
pub struct AuditLogger<K = InMemoryAuditSink, E = InMemoryAuditPolicyEngine, N = DefaultAuditAnalyzer> {
    sink: K,
    policy_engine: Option<E>,
    analyzer: Option<N>,
}

impl<K: AuditSink> AuditLogger<K> {
    /// A logger over a sink, without rules and summaries.
    pub fn new(sink: K) -> (r: Self)
        requires
            sink.wf(),
        ensures
            r.wf(),
            r.store() == sink,
            r.engine() is None,
            r.summaries() is None,
    {
        AuditLogger { sink, policy_engine: None, analyzer: None }
    }
}

impl<K: AuditSink, E: AuditPolicyEngine, N: AuditAnalyzer> AuditLogger<K, E, N> {
    /// The sink.
    pub closed spec fn store(&self) -> K {
        self.sink
    }

    /// The rules, where there are any.
    pub closed spec fn engine(&self) -> Option<E> {
        self.policy_engine
    }

    /// What makes summaries, where something does.
    pub closed spec fn summaries(&self) -> Option<N> {
        self.analyzer
    }

    /// Whether the value is well formed.
    pub open spec fn wf(&self) -> bool {
        self.store().wf() && (self.engine() is Some ==> self.engine()->Some_0.valid())
    }

    /// The logger with rules.
    #[must_use]
    pub fn with_policy_engine<F: AuditPolicyEngine>(self, engine: F) -> (r: AuditLogger<K, F, N>)
        requires
            self.wf(),
            engine.valid(),
        ensures
            r.wf(),
            r.store() == self.store(),
            r.engine() == Some(engine),
            r.summaries() == self.summaries(),
    {
        AuditLogger { sink: self.sink, policy_engine: Some(engine), analyzer: self.analyzer }
    }

    /// The logger with summaries.
    #[must_use]
    pub fn with_analyzer<M: AuditAnalyzer>(self, analyzer: M) -> (r: AuditLogger<K, E, M>)
        requires
            self.wf(),
        ensures
            r.wf(),
            r.store() == self.store(),
            r.engine() == self.engine(),
            r.summaries() == Some(analyzer),
    {
        AuditLogger { sink: self.sink, policy_engine: self.policy_engine, analyzer: Some(analyzer) }
    }

    /// Records an entry at a moment and returns the alerts that it raises. The entry is in the
    /// sink before any rule is looked at, and no rule changes it.
    #[must_use]
    pub fn log_at(&mut self, entry: AuditEntry, now: i128) -> (r: Vec<AuditAlert>)
        requires
            old(self).wf(),
            crate::time::is_moment(now),
        ensures
            final(self).wf(),
            logged(old(self), final(self), entry@, crate::rbac::audit::policy::alerts_shown(r@), now),
    {
        self.sink.append(entry.duplicate());
        let mut engine: Option<E> = None;
        std::mem::swap(&mut engine, &mut self.policy_engine);
        match engine {
            Some(engine) => {
                let mut engine = engine;
                let alerts = engine.evaluate_at(&entry, &self.sink, now);
                self.policy_engine = Some(engine);
                alerts
            },
            None => {
                let alerts: Vec<AuditAlert> = Vec::new();
                assert(crate::rbac::audit::policy::alerts_shown(alerts@) =~= Seq::empty());
                alerts
            },
        }
    }

    /// Records an entry and returns the alerts that it raises.
    #[must_use]
    pub fn log(&mut self, entry: AuditEntry) -> (r: Vec<AuditAlert>)
        requires
            old(self).wf(),
        ensures
            final(self).wf(),
            exists|now: i128| #[trigger]
                crate::time::is_now(now) && logged(
                    old(self),
                    final(self),
                    entry@,
                    crate::rbac::audit::policy::alerts_shown(r@),
                    now,
                ),
    {
        let now: i128 = utc_now();
        self.log_at(entry, now)
    }

    /// The entries that pass a filter, newest first, up to its cap.
    #[must_use]
    pub fn query(&self, filter: &AuditFilter) -> (r: Vec<AuditEntry>)
        requires
            self.wf(),
        ensures
            crate::rbac::audit::entry::entries_shown(r@) == self.store().found(filter@),
    {
        self.sink.query(filter)
    }

    /// How many entries pass a filter.
    #[must_use]
    pub fn count(&self, filter: &AuditFilter) -> (r: u64)
        requires
            self.wf(),
        ensures
            r == self.store().counted(filter@),
            r == self.store().found(filter@.uncapped()).len(),
    {
        self.sink.count(filter)
    }

    /// The summary of the entries that pass a filter; none without summaries.
    #[must_use]
    pub fn analyze_recent(&self, filter: &AuditFilter) -> (r: Option<AuditAnalysisResult>)
        requires
            self.wf(),
        ensures
            match self.summaries() {
                Some(n) => r is Some && n.summed_up(self.store().found(filter@), r->Some_0),
                None => r is None,
            },
    {
        match &self.analyzer {
            Some(analyzer) => {
                let entries = self.sink.query(filter);
                Some(analyzer.analyze(&entries))
            },
            None => None,
        }
    }
}

/// Whether one logger came from another by recording an entry.
pub open spec fn logged<K: AuditSink, E: AuditPolicyEngine, N: AuditAnalyzer>(
    from: &AuditLogger<K, E, N>,
    to: &AuditLogger<K, E, N>,
    e: crate::rbac::audit::entry::EntryView,
    alerts: Seq<crate::rbac::audit::policy::AlertView>,
    now: i128,
) -> bool {
    &&& from.store().recorded(&to.store(), e)
    &&& to.summaries() == from.summaries()
    &&& to.engine() is Some <==> from.engine() is Some
    &&& match from.engine() {
        Some(engine) => engine.raised(
            &to.engine()->Some_0,
            e,
            crate::rbac::audit::policy::history_of(&to.store()),
            alerts,
            now,
        ),
        None => alerts == Seq::<crate::rbac::audit::policy::AlertView>::empty(),
    }
}

/// Whatever the rules say, an entry that was logged to memory is held, its decision unchanged, as
/// long as the sink holds anything at all.
pub proof fn law_logged_entry_is_held<E: AuditPolicyEngine, N: AuditAnalyzer>(
    from: &AuditLogger<InMemoryAuditSink, E, N>,
    to: &AuditLogger<InMemoryAuditSink, E, N>,
    e: crate::rbac::audit::entry::EntryView,
    alerts: Seq<crate::rbac::audit::policy::AlertView>,
    now: i128,
)
    requires
        logged(from, to, e, alerts, now),
        from.store().cap() > 0,
    ensures
        to.store().held().len() > 0,
        to.store().held().last() == crate::rbac::audit::sink::numbered(e, from.store().upcoming()),
        to.store().held().last().granted == e.granted,
{
}

/// An entry that is logged is recorded before the rules are gone through: it counts in the history
/// that they look at, and the alerts are those of exactly the rules that are to fire on it.
pub proof fn law_logged_entry_goes_through_the_rules<N: AuditAnalyzer>(
    before: AuditLogger<InMemoryAuditSink, InMemoryAuditPolicyEngine, N>,
    after: AuditLogger<InMemoryAuditSink, InMemoryAuditPolicyEngine, N>,
    entry: AuditEntry,
    now: i128,
    r: Vec<AuditAlert>,
)
    requires
        exists|logger: &mut AuditLogger<InMemoryAuditSink, InMemoryAuditPolicyEngine, N>|
            *logger == before && *final(logger) == after && #[trigger] call_ensures(
                AuditLogger::<InMemoryAuditSink, InMemoryAuditPolicyEngine, N>::log_at,
                (logger, entry, now),
                r,
            ),
        before.engine() matches Some(engine) ==> forall|i: int, j: int|
            0 <= i < j < engine.rules().len() ==> (#[trigger] engine.rules()[i]).id@ != (#[trigger] engine.rules()[j]).id@,
        crate::time::is_moment(now),
    ensures
        before.store().cap() > 0 ==> after.store().held().len() > 0 && after.store().held().last() == (
        crate::rbac::audit::entry::EntryView { id: before.store().upcoming(), ..entry@ }),
        before.engine() is None ==> r@.len() == 0,
        before.engine() matches Some(engine) ==> exists|at: Seq<int>|
            {
                &&& #[trigger] crate::rbac::audit::policy::are_alerts_of(r@, engine.rules(), at, entry, now)
                &&& forall|i: int|
                    0 <= i < engine.rules().len() ==> (at.contains(i) <==> crate::rbac::audit::policy::is_to_fire(
                        #[trigger] engine.rules()[i],
                        engine.history(),
                        engine.last(),
                        after.store().held(),
                        entry@,
                        now,
                    ))
            },
{
    if let Some(engine) = before.engine() {
        crate::rbac::audit::policy::lemma_rules_fire(
            engine,
            after.engine()->Some_0,
            &entry,
            &after.store(),
            now,
            r@,
        );
    } else {
        assert(crate::rbac::audit::policy::alerts_shown(r@).len() == r@.len());
    }
}

/// A summary is of exactly what the sink finds for the filter, and there is none without an analyzer; a
/// logger has the sink, the rules and the analyzer that it was made with.
pub proof fn law_summary_of_what_is_found<K: AuditSink, E: AuditPolicyEngine, N: AuditAnalyzer, F: AuditPolicyEngine>(
    logger: &AuditLogger<K, E, N>,
    filter: &AuditFilter,
    r: Option<AuditAnalysisResult>,
    engine: F,
    ruled: AuditLogger<K, F, N>,
    analyzer: N,
    summing: AuditLogger<K, E, N>,
)
    requires
        call_ensures(AuditLogger::<K, E, N>::analyze_recent, (logger, filter), r),
        call_ensures(AuditLogger::<K, E, N>::with_policy_engine::<F>, (*logger, engine), ruled),
        call_ensures(AuditLogger::<K, E, N>::with_analyzer::<N>, (*logger, analyzer), summing),
    ensures
        r is Some <==> logger.summaries() is Some,
        r matches Some(summary) ==> logger.summaries()->Some_0.summed_up(logger.store().found(filter@), summary),
        ruled.engine() == Some(engine) && ruled.store() == logger.store() && ruled.summaries() == logger.summaries(),
        summing.summaries() == Some(analyzer) && summing.store() == logger.store() && summing.engine() == logger.engine(),
{
}

/// What is asked of a logger is asked of its sink.
pub proof fn law_logger_asks_its_sink<K: AuditSink, E: AuditPolicyEngine, N: AuditAnalyzer>(
    logger: &AuditLogger<K, E, N>,
    filter: &AuditFilter,
    found: Vec<AuditEntry>,
    n: u64,
    held: Vec<AuditEntry>,
    m: u64,
)
    requires
        call_ensures(AuditLogger::<K, E, N>::query, (logger, filter), found),
        call_ensures(AuditLogger::<K, E, N>::count, (logger, filter), n),
        call_ensures(K::query, (&logger.store(), filter), held),
        call_ensures(K::count, (&logger.store(), filter), m),
    ensures
        n == m,
        found@.len() == held@.len(),
        forall|i: int| 0 <= i < found@.len() ==> (#[trigger] found@[i])@ == held@[i]@,
{
    let a = crate::rbac::audit::entry::entries_shown(found@);
    let b = crate::rbac::audit::entry::entries_shown(held@);
    assert(a == b);
    assert(a.len() == found@.len() && b.len() == held@.len());
    assert forall|i: int| 0 <= i < found@.len() implies (#[trigger] found@[i])@ == held@[i]@ by {
        assert(a[i] == b[i]);
    }
}

/// An entry that is logged now goes through the rules as at some moment that the clock reads.
pub proof fn law_entry_is_logged_now<N: AuditAnalyzer>(
    before: AuditLogger<InMemoryAuditSink, InMemoryAuditPolicyEngine, N>,
    after: AuditLogger<InMemoryAuditSink, InMemoryAuditPolicyEngine, N>,
    entry: AuditEntry,
    r: Vec<AuditAlert>,
)
    requires
        exists|logger: &mut AuditLogger<InMemoryAuditSink, InMemoryAuditPolicyEngine, N>|
            *logger == before && *final(logger) == after && #[trigger] call_ensures(
                AuditLogger::<InMemoryAuditSink, InMemoryAuditPolicyEngine, N>::log,
                (logger, entry),
                r,
            ),
        before.engine() matches Some(engine) ==> forall|i: int, j: int|
            0 <= i < j < engine.rules().len() ==> (#[trigger] engine.rules()[i]).id@ != (#[trigger] engine.rules()[j]).id@,
    ensures
        before.store().cap() > 0 ==> after.store().held().len() > 0 && after.store().held().last() == (
        crate::rbac::audit::entry::EntryView { id: before.store().upcoming(), ..entry@ }),
        before.engine() is None ==> r@.len() == 0,
        before.engine() matches Some(engine) ==> exists|now: i128, at: Seq<int>|
            {
                &&& crate::time::is_now(now)
                &&& #[trigger] crate::rbac::audit::policy::are_alerts_of(r@, engine.rules(), at, entry, now)
                &&& forall|i: int|
                    0 <= i < engine.rules().len() ==> (at.contains(i) <==> crate::rbac::audit::policy::is_to_fire(
                        #[trigger] engine.rules()[i],
                        engine.history(),
                        engine.last(),
                        after.store().held(),
                        entry@,
                        now,
                    ))
            },
{
    let now = choose|now: i128| #[trigger]
        crate::time::is_now(now) && logged(
            &before,
            &after,
            entry@,
            crate::rbac::audit::policy::alerts_shown(r@),
            now,
        );
    let (secs, nanos) = choose|secs: i64, nanos: u32| #[trigger]
        crate::time::clock_reads(secs, nanos) && now == crate::time::moment_at(secs, nanos);
    assert(crate::time::is_moment(now));
    if let Some(engine) = before.engine() {
        crate::rbac::audit::policy::lemma_rules_fire(
            engine,
            after.engine()->Some_0,
            &entry,
            &after.store(),
            now,
            r@,
        );
    } else {
        assert(crate::rbac::audit::policy::alerts_shown(r@).len() == r@.len());
    }
}

/// A new logger writes to the sink that it was made over; it has no rules and makes no summaries until it is
/// given what does.
pub proof fn law_new_logger<K: AuditSink>(sink: K, made: AuditLogger<K>, filter: &AuditFilter, r: Option<AuditAnalysisResult>)
    requires
        call_ensures(AuditLogger::<K>::new, (sink,), made),
        call_ensures(AuditLogger::<K>::analyze_recent, (&made, filter), r),
    ensures
        made.store() == sink,
        made.engine() is None && made.summaries() is None,
        r is None,
{
}

} // verus!
