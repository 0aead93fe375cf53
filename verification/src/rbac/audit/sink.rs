//! Where entries are kept: a ring of the newest ones.
use crate::order::order_descending;
use crate::rbac::audit::entry::{AuditEntry, EntryView};
use crate::score::Score;
use std::collections::VecDeque;
use vstd::prelude::*;

verus! {

/// How many entries a sink keeps unless it is told otherwise.
pub const DEFAULT_MAX_AUDIT_ENTRIES: usize = 10000;

/// What is asked of a sink. Each part that is set narrows the answer.
pub struct AuditFilter {
    /// One subject.
    pub subject_id: Option<String>,
    /// Grants or denials.
    pub granted: Option<bool>,
    /// One permission.
    pub permission: Option<String>,
    /// The first moment.
    pub since: Option<i128>,
    /// The last moment.
    pub until: Option<i128>,
    /// The least risk; an unscored entry counts as zero.
    pub min_risk: Option<Score>,
    /// The most entries that a query returns.
    pub limit: Option<usize>,
}

/// A filter with its texts as characters.
pub struct FilterView {
    /// See [`AuditFilter::subject_id`].
    pub subject_id: Option<Seq<char>>,
    /// See [`AuditFilter::granted`].
    pub granted: Option<bool>,
    /// See [`AuditFilter::permission`].
    pub permission: Option<Seq<char>>,
    /// See [`AuditFilter::since`].
    pub since: Option<i128>,
    /// See [`AuditFilter::until`].
    pub until: Option<i128>,
    /// See [`AuditFilter::min_risk`].
    pub min_risk: Option<Score>,
    /// See [`AuditFilter::limit`].
    pub limit: Option<usize>,
}

impl View for AuditFilter {
    type V = FilterView;

    open spec fn view(&self) -> FilterView {
        FilterView {
            subject_id: crate::text::optional_text(self.subject_id),
            granted: self.granted,
            permission: crate::text::optional_text(self.permission),
            since: self.since,
            until: self.until,
            min_risk: self.min_risk,
            limit: self.limit,
        }
    }
}

impl FilterView {
    /// Whether an entry passes every part that is set.
    pub open spec fn passes(self, e: EntryView) -> bool {
        &&& self.subject_id is Some ==> e.subject_id == self.subject_id->Some_0
        &&& self.granted is Some ==> e.granted == self.granted->Some_0
        &&& self.permission is Some ==> e.permission == self.permission->Some_0
        &&& self.since is Some ==> e.created_at >= self.since->Some_0
        &&& self.until is Some ==> e.created_at <= self.until->Some_0
        &&& self.min_risk is Some ==> !e.risk().below(self.min_risk->Some_0)
    }

    /// The test on entries.
    pub open spec fn test(self) -> spec_fn(EntryView) -> bool {
        |e: EntryView| self.passes(e)
    }

    /// The same filter without its cap.
    pub open spec fn uncapped(self) -> FilterView {
        FilterView { limit: None, ..self }
    }
}

impl Default for AuditFilter {
    /// The filter that every entry passes.
    fn default() -> (r: Self)
        ensures
            r@ == (FilterView {
                subject_id: None,
                granted: None,
                permission: None,
                since: None,
                until: None,
                min_risk: None,
                limit: None,
            }),
    {
        AuditFilter {
            subject_id: None,
            granted: None,
            permission: None,
            since: None,
            until: None,
            min_risk: None,
            limit: None,
        }
    }
}

/// A filter with no part set passes every entry.
pub proof fn law_empty_filter_passes_everything(f: FilterView, e: EntryView)
    requires
        f.subject_id is None,
        f.granted is None,
        f.permission is None,
        f.since is None,
        f.until is None,
        f.min_risk is None,
    ensures
        f.passes(e),
{
}

/// A bound on the risk above zero passes no entry without a verdict.
pub proof fn law_risk_bound_excludes_unscored(f: FilterView, e: EntryView)
    requires
        f.min_risk is Some,
        crate::score::zero().below(f.min_risk->Some_0),
        e.verdict is None,
    ensures
        !f.passes(e),
{
}

/// Whether an entry passes a filter.
fn matches_filter(entry: &AuditEntry, filter: &AuditFilter) -> (r: bool)
    ensures
        r == filter@.passes(entry@),
{
    if let Some(sid) = &filter.subject_id {
        if entry.subject_id != *sid {
            return false;
        }
    }
    if let Some(g) = filter.granted {
        if entry.granted != g {
            return false;
        }
    }
    if let Some(perm) = &filter.permission {
        if entry.permission != *perm {
            return false;
        }
    }
    if let Some(since) = filter.since {
        if entry.created_at < since {
            return false;
        }
    }
    if let Some(until) = filter.until {
        if entry.created_at > until {
            return false;
        }
    }
    if let Some(min_risk) = filter.min_risk {
        if entry.risk().is_below(min_risk) {
            return false;
        }
    }
    true
}

/// When each entry was made.
pub open spec fn times_of(entries: Seq<EntryView>) -> Seq<i128> {
    Seq::new(entries.len(), |i: int| entries[i].created_at)
}

/// Entries with the newest first; those of one moment in the order in which they came.
pub open spec fn newest_first(entries: Seq<EntryView>) -> Seq<EntryView> {
    crate::order::picked(entries, crate::order::descending(times_of(entries)))
}

/// The first entries, up to a cap.
pub open spec fn capped(entries: Seq<EntryView>, limit: Option<usize>) -> Seq<EntryView> {
    if limit is Some && limit->Some_0 < entries.len() {
        entries.take(limit->Some_0 as int)
    } else {
        entries
    }
}

/// What a query on some entries returns.
pub open spec fn query_answer(entries: Seq<EntryView>, f: FilterView) -> Seq<EntryView> {
    capped(newest_first(entries.filter(f.test())), f.limit)
}

/// Where decisions are recorded.
pub trait AuditSink: Sized {
    /// Whether the value is well formed.
    open spec fn wf(&self) -> bool {
        true
    }

    /// What a query returns.
    open spec fn found(&self, f: FilterView) -> Seq<EntryView> {
        arbitrary()
    }

    /// What a count comes to.
    open spec fn counted(&self, f: FilterView) -> u64 {
        arbitrary()
    }

    /// Whether recording an entry can lead to another state.
    open spec fn recorded(&self, after: &Self, e: EntryView) -> bool {
        true
    }

    /// Records an entry, under an identifier of the sink's own.
    fn append(&mut self, entry: AuditEntry)
        requires
            old(self).wf(),
        ensures
            final(self).wf(),
            old(self).recorded(final(self), entry@),
    ;

    /// The entries that pass a filter, newest first, up to its cap.
    fn query(&self, filter: &AuditFilter) -> (r: Vec<AuditEntry>)
        requires
            self.wf(),
        ensures
            crate::rbac::audit::entry::entries_shown(r@) == self.found(filter@),
    ;

    /// How many entries pass a filter, whatever its cap.
    fn count(&self, filter: &AuditFilter) -> (r: u64)
        requires
            self.wf(),
        ensures
            r == self.counted(filter@),
            self.counted(filter@) == self.found(filter@.uncapped()).len(),
    ;
}

/// The newest entries, kept in memory.
pub struct InMemoryAuditSink {
    entries: VecDeque<AuditEntry>,
    next_id: u64,
    max_entries: usize,
}

/// An entry under another identifier.
pub open spec fn numbered(e: EntryView, id: u64) -> EntryView {
    EntryView { id, ..e }
}

/// The last entries of a list, up to a number of them.
pub open spec fn last_of(entries: Seq<EntryView>, max: nat) -> Seq<EntryView> {
    if entries.len() > max {
        entries.skip(entries.len() - max)
    } else {
        entries
    }
}

/// The identifier that was given some steps before another.
pub open spec fn id_before(next_id: u64, steps: int) -> int {
    if next_id >= steps {
        next_id - steps
    } else {
        next_id - steps + u64::MAX + 1
    }
}

impl InMemoryAuditSink {
    /// The entries that are held, oldest first.
    pub closed spec fn held(&self) -> Seq<EntryView> {
        crate::rbac::audit::entry::entries_shown(self.entries@)
    }

    /// The identifier of the next entry.
    pub closed spec fn upcoming(&self) -> u64 {
        self.next_id
    }

    /// The most entries that are held.
    pub closed spec fn cap(&self) -> usize {
        self.max_entries
    }

    /// An empty sink for the default number of entries.
    #[must_use]
    pub fn new() -> (r: Self)
        ensures
            r.wf(),
            r.held() == Seq::<EntryView>::empty(),
            r.upcoming() == 1,
            r.cap() == DEFAULT_MAX_AUDIT_ENTRIES,
    {
        Self::with_max_entries(DEFAULT_MAX_AUDIT_ENTRIES)
    }

    /// An empty sink for at most the given number of entries.
    #[must_use]
    pub fn with_max_entries(max_entries: usize) -> (r: Self)
        ensures
            r.wf(),
            r.held() == Seq::<EntryView>::empty(),
            r.upcoming() == 1,
            r.cap() == max_entries,
    {
        InMemoryAuditSink { entries: VecDeque::new(), next_id: 1, max_entries }
    }

    /// Copies of the entries that pass a filter, oldest first.
    fn passing(&self, filter: &AuditFilter) -> (r: Vec<AuditEntry>)
        ensures
            crate::rbac::audit::entry::entries_shown(r@) == self.held().filter(filter@.test()),
    {
        let ghost held = self.held();
        let ghost test = filter@.test();
        let mut r: Vec<AuditEntry> = Vec::new();
        let mut i: usize = 0;
        assert(held.take(0).filter(test) =~= Seq::<EntryView>::empty()) by {
            reveal(Seq::filter);
        }
        while i < self.entries.len()
            invariant
                held == self.held(),
                test == filter@.test(),
                i <= self.entries@.len(),
                crate::rbac::audit::entry::entries_shown(r@) == held.take(i as int).filter(test),
            decreases self.entries.len() - i,
        {
            let ghost before = crate::rbac::audit::entry::entries_shown(r@);
            proof {
                crate::collections::lemma_filter_next(held, i as int, test);
            }
            if matches_filter(&self.entries[i], filter) {
                r.push(self.entries[i].duplicate());
                assert(crate::rbac::audit::entry::entries_shown(r@) =~= before.push(held[i as int]));
            }
            i = i + 1;
        }
        assert(held.take(held.len() as int) =~= held);
        r
    }
}

impl Default for InMemoryAuditSink {
    /// An empty sink for the default number of entries.
    fn default() -> (r: Self)
        ensures
            r.wf(),
            r.held() == Seq::<EntryView>::empty(),
            r.upcoming() == 1,
            r.cap() == DEFAULT_MAX_AUDIT_ENTRIES,
    {
        Self::new()
    }
}

impl AuditSink for InMemoryAuditSink {
    closed spec fn wf(&self) -> bool {
        &&& self.held().len() <= self.cap()
        &&& forall|i: int|
            0 <= i < self.held().len() ==> (#[trigger] self.held()[i]).id == id_before(self.next_id, self.held().len() - i)
    }

    open spec fn found(&self, f: FilterView) -> Seq<EntryView> {
        query_answer(self.held(), f)
    }

    open spec fn counted(&self, f: FilterView) -> u64 {
        self.held().filter(f.test()).len() as u64
    }

    /// The entry is held under the next identifier, and the oldest leave where there is no room.
    open spec fn recorded(&self, after: &Self, e: EntryView) -> bool {
        &&& after.held() == last_of(self.held().push(numbered(e, self.upcoming())), self.cap() as nat)
        &&& after.upcoming() == self.upcoming().wrapping_add(1)
        &&& after.cap() == self.cap()
    }

    fn append(&mut self, entry: AuditEntry) {
        let ghost was = self.held();
        let ghost grown = was.push(numbered(entry@, self.next_id));
        let id: u64 = self.next_id;
        self.next_id = self.next_id.wrapping_add(1);
        let mut entry = entry;
        entry.id = id;
        self.entries.push_back(entry);
        let ghost mut dropped: int = 0;
        assert(self.held() =~= grown.skip(0));
        while self.entries.len() > self.max_entries
            invariant
                self.max_entries == old(self).max_entries,
                self.next_id == old(self).next_id.wrapping_add(1),
                0 <= dropped <= grown.len(),
                self.held() == grown.skip(dropped),
                dropped > 0 ==> grown.len() - dropped >= self.max_entries,
            decreases self.entries.len(),
        {
            let ghost was_held = self.held();
            let ghost was_entries = self.entries@;
            assert(was_held.len() == was_entries.len() && was_entries.len() > 0);
            let _ = self.entries.pop_front();
            proof {
                dropped = dropped + 1;
                assert(self.entries@ == was_entries.skip(1));
                assert(self.held() =~= was_held.skip(1));
                assert(self.held() =~= grown.skip(dropped));
            }
        }
        assert(self.held() =~= last_of(grown, self.cap() as nat));
        assert forall|i: int| 0 <= i < self.held().len() implies (#[trigger] self.held()[i]).id == id_before(
            self.next_id,
            self.held().len() - i,
        ) by {
            let j = i + dropped;
            assert(self.held()[i] == grown[j]);
            if j < was.len() {
                assert(grown[j] == was[j]);
                assert(was[j].id == id_before(id, was.len() - j));
            }
        }
    }

    fn query(&self, filter: &AuditFilter) -> (r: Vec<AuditEntry>) {
        let found = self.passing(filter);
        let ghost shown = crate::rbac::audit::entry::entries_shown(found@);
        let mut keys: Vec<Option<i128>> = Vec::new();
        let mut k: usize = 0;
        while k < found.len()
            invariant
                k <= found@.len(),
                keys@.len() == k,
                forall|j: int| 0 <= j < keys@.len() ==> #[trigger] keys@[j] == Some(found@[j].created_at),
            decreases found.len() - k,
        {
            keys.push(Some(found[k].created_at));
            k = k + 1;
        }
        let places = order_descending(&keys);
        proof {
            assert(crate::order::known(keys@) =~= times_of(shown));
        }
        let mut r: Vec<AuditEntry> = Vec::new();
        let most: usize = match filter.limit {
            Some(limit) => limit,
            None => found.len(),
        };
        let ghost sorted = newest_first(shown);
        let mut i: usize = 0;
        while i < places.len() && i < most
            invariant
                i <= places@.len(),
                i <= most || i == 0,
                shown == crate::rbac::audit::entry::entries_shown(found@),
                crate::order::rearranges(found@.len(), crate::order::as_places(places@)),
                sorted == crate::order::picked(shown, crate::order::as_places(places@)),
                crate::rbac::audit::entry::entries_shown(r@) == sorted.take(i as int),
            decreases places.len() - i,
        {
            let ghost before = crate::rbac::audit::entry::entries_shown(r@);
            assert(crate::order::as_places(places@)[i as int] < found@.len());
            let e = &found[places[i]];
            r.push(e.duplicate());
            assert(crate::rbac::audit::entry::entries_shown(r@) =~= before.push(sorted[i as int]));
            assert(sorted.take(i + 1) =~= sorted.take(i as int).push(sorted[i as int]));
            i = i + 1;
        }
        assert(crate::rbac::audit::entry::entries_shown(r@) =~= capped(sorted, filter.limit));
        r
    }

    fn count(&self, filter: &AuditFilter) -> (r: u64) {
        let ghost held = self.held();
        let ghost test = filter@.test();
        let mut n: u64 = 0;
        let mut i: usize = 0;
        assert(held.take(0).filter(test).len() == 0) by {
            reveal(Seq::filter);
        }
        while i < self.entries.len()
            invariant
                held == self.held(),
                test == filter@.test(),
                i <= self.entries@.len(),
                n == held.take(i as int).filter(test).len(),
                n <= i,
            decreases self.entries.len() - i,
        {
            proof {
                crate::collections::lemma_filter_next(held, i as int, test);
            }
            if matches_filter(&self.entries[i], filter) {
                n = n + 1;
            }
            i = i + 1;
        }
        assert(held.take(held.len() as int) =~= held);
        proof {
            law_count_agrees_with_query(self, filter@);
        }
        n
    }
}

/// No more entries are held than the cap.
pub proof fn law_retention_is_bounded(sink: &InMemoryAuditSink)
    requires
        sink.wf(),
    ensures
        sink.held().len() <= sink.cap(),
{
}

/// No two entries that are held have the same identifier.
pub proof fn law_identifiers_are_unique(sink: &InMemoryAuditSink, i: int, j: int)
    requires
        sink.wf(),
        0 <= i < j < sink.held().len(),
    ensures
        sink.held()[i].id != sink.held()[j].id,
{
}

/// A query returns no entry before a newer one.
pub proof fn law_query_is_newest_first(entries: Seq<EntryView>, f: FilterView, i: int, j: int)
    requires
        0 <= i < j < query_answer(entries, f).len(),
    ensures
        query_answer(entries, f)[i].created_at >= query_answer(entries, f)[j].created_at,
{
    let times = times_of(entries.filter(f.test()));
    let places = crate::order::descending(times);
    crate::order::law_descending_order_exists(times);
    assert(crate::order::precedes(times, places[i], places[j]));
}

/// What a query returns was held and passes the filter.
pub proof fn law_query_returns_what_passes(entries: Seq<EntryView>, f: FilterView, i: int)
    requires
        0 <= i < query_answer(entries, f).len(),
    ensures
        entries.contains(query_answer(entries, f)[i]),
        f.passes(query_answer(entries, f)[i]),
{
    let found = entries.filter(f.test());
    let places = crate::order::descending(times_of(found));
    crate::order::law_descending_order_exists(times_of(found));
    let k = places[i];
    crate::collections::lemma_filter_shape(entries, f.test());
    assert(f.test()(found[k]));
    let at = choose|at: spec_fn(int) -> int| crate::collections::filtered_from(entries, found, at);
    assert(found[k] == entries[at(k)]);
}

/// A query returns no more than its cap.
pub proof fn law_query_keeps_to_its_cap(entries: Seq<EntryView>, f: FilterView)
    requires
        f.limit is Some,
    ensures
        query_answer(entries, f).len() <= f.limit->Some_0,
{
}

/// A count is the number of entries that a query without a cap returns.
pub proof fn law_count_agrees_with_query(sink: &InMemoryAuditSink, f: FilterView)
    requires
        sink.wf(),
    ensures
        sink.counted(f) == sink.found(f.uncapped()).len(),
{
    assert(f.test() =~= f.uncapped().test());
    let found = sink.held().filter(f.test());
    crate::order::law_descending_order_exists(times_of(found));
    crate::collections::lemma_filter_shape(sink.held(), f.test());
    assert(found.len() <= sink.held().len() <= usize::MAX);
}

/// Whether an entry is asked for: it is of the subject, the decision and the permission that are named,
/// not before the first moment and not after the last, and its risk is not below the least; what is
/// not named does not matter, and an entry without a verdict has no risk.
pub open spec fn is_asked_for(f: AuditFilter, e: EntryView) -> bool {
    &&& f.subject_id matches Some(id) ==> e.subject_id == id@
    &&& f.granted matches Some(g) ==> e.granted == g
    &&& f.permission matches Some(p) ==> e.permission == p@
    &&& f.since matches Some(t) ==> t <= e.created_at
    &&& f.until matches Some(t) ==> e.created_at <= t
    &&& f.min_risk matches Some(least) ==> match e.verdict {
        Some(v) => !v.risk_score.below(least),
        None => !(Score { bits: 0 }).below(least),
    }
}

/// An entry that is recorded is the last one held, under the next identifier; the others stay in their
/// order, and the oldest leave as far as there is no room.
pub proof fn law_recorded_entry_is_held_last(before: InMemoryAuditSink, after: InMemoryAuditSink, entry: AuditEntry)
    requires
        exists|sink: &mut InMemoryAuditSink|
            *sink == before && *final(sink) == after && #[trigger] call_ensures(
                InMemoryAuditSink::append,
                (sink, entry),
                (),
            ),
    ensures
        after.cap() == before.cap(),
        after.upcoming() == (if before.upcoming() == u64::MAX {
            0
        } else {
            before.upcoming() + 1
        }),
        after.held().len() == (if before.held().len() + 1 <= before.cap() {
            (before.held().len() + 1) as int
        } else {
            before.cap() as int
        }),
        after.held().len() > 0 ==> after.held().last() == (EntryView { id: before.upcoming(), ..entry@ }),
        forall|i: int|
            0 <= i < after.held().len() - 1 ==> #[trigger] after.held()[i] == before.held()[i + before.held().len() + 1
                - after.held().len()],
{
}

/// A query returns what is asked for, newest first and in the order of arrival within a moment, each
/// entry once, up to the limit; what is left out for the limit is no newer than anything returned.
pub proof fn law_query_returns_the_newest_asked_for(sink: &InMemoryAuditSink, filter: &AuditFilter, r: Vec<AuditEntry>)
    requires
        call_ensures(InMemoryAuditSink::query, (sink, filter), r),
    ensures
        exists|src: Seq<int>| #[trigger] is_answer(sink.held(), *filter, src, r@),
{
    let held = sink.held();
    let f = filter@;
    let found = held.filter(f.test());
    let at = crate::collections::lemma_filter_places(held, f.test());
    let times = times_of(found);
    let places = crate::order::descending(times);
    crate::order::law_descending_order_exists(times);
    let answer = query_answer(held, f);
    let src = Seq::new(answer.len(), |k: int| at[places[k]]);
    let shown = crate::rbac::audit::entry::entries_shown(r@);
    assert(shown == answer);
    assert forall|e: EntryView| f.passes(e) <==> is_asked_for(*filter, e) by {}
    assert forall|k: int| 0 <= k < src.len() implies 0 <= #[trigger] src[k] < held.len() && r@[k]@ == held[src[k]]
        && is_asked_for(*filter, held[src[k]]) by {
        assert(0 <= places[k] < found.len());
        assert(answer[k] == found[places[k]]);
        assert(shown[k] == r@[k]@);
        assert(f.test()(held[at[places[k]]]));
    }
    assert forall|a: int, b: int| 0 <= a < b < src.len() implies newer(held, #[trigger] src[a], #[trigger] src[b]) by {
        assert(0 <= places[a] < found.len() && 0 <= places[b] < found.len());
        assert(crate::order::precedes(times, places[a], places[b]));
        if places[a] < places[b] {
            assert(at[places[a]] < at[places[b]]);
        }
    }
    assert forall|i: int| 0 <= i < held.len() && is_asked_for(*filter, #[trigger] held[i]) implies src.contains(i) || (
    filter.limit == Some(r@.len() as usize) && forall|k: int| 0 <= k < src.len() ==> newer(held, #[trigger] src[k], i)) by {
        assert(f.test()(held[i]));
        let j = choose|j: int| 0 <= j < at.len() && at[j] == i;
        crate::order::lemma_every_place_occurs(found.len(), places, j);
        let p = choose|p: int| 0 <= p < places.len() && places[p] == j;
        if p < answer.len() {
            assert(src[p] == i);
        } else {
            assert forall|k: int| 0 <= k < src.len() implies newer(held, #[trigger] src[k], i) by {
                assert(crate::order::precedes(times, places[k], places[p]));
                assert(0 <= places[k] < found.len());
                if places[k] < places[p] {
                    assert(at[places[k]] < at[places[p]]);
                }
            }
        }
    }
    assert(is_answer(held, *filter, src, r@));
}

/// Whether one of the entries held comes before another in an answer: it is newer, or of the same
/// moment and arrived first.
pub open spec fn newer(held: Seq<EntryView>, a: int, b: int) -> bool {
    held[a].created_at > held[b].created_at || held[a].created_at == held[b].created_at && a < b
}

/// Whether some entries, taken from the places of those held, are the answer to a filter.
pub open spec fn is_answer(held: Seq<EntryView>, f: AuditFilter, src: Seq<int>, r: Seq<AuditEntry>) -> bool {
    &&& src.len() == r.len()
    &&& f.limit matches Some(most) ==> r.len() <= most
    &&& forall|k: int|
        0 <= k < src.len() ==> 0 <= #[trigger] src[k] < held.len() && r[k]@ == held[src[k]] && is_asked_for(
            f,
            held[src[k]],
        )
    &&& forall|a: int, b: int| 0 <= a < b < src.len() ==> newer(held, #[trigger] src[a], #[trigger] src[b])
    &&& forall|i: int|
        0 <= i < held.len() && is_asked_for(f, #[trigger] held[i]) ==> src.contains(i) || (f.limit == Some(
            r.len() as usize,
        ) && forall|k: int| 0 <= k < src.len() ==> newer(held, #[trigger] src[k], i))
}

/// A count is the number of entries held that are asked for, whatever the limit.
pub proof fn law_count_is_of_what_is_asked_for(sink: &InMemoryAuditSink, filter: &AuditFilter, n: u64)
    requires
        call_ensures(InMemoryAuditSink::count, (sink, filter), n),
        sink.wf(),
    ensures
        n == sink.held().filter(|e: EntryView| is_asked_for(*filter, e)).len(),
{
    let wanted = |e: EntryView| is_asked_for(*filter, e);
    assert(filter@.test() =~= wanted);
    crate::collections::lemma_filter_shape(sink.held(), wanted);
}

/// A new sink holds nothing and counts identifiers from one, with room for as many entries as it was told,
/// or ten thousand; a filter that asks for nothing in particular has no part set.
pub proof fn law_new_sink_is_empty(
    made: InMemoryAuditSink,
    usual: InMemoryAuditSink,
    max: usize,
    sized: InMemoryAuditSink,
    filter: AuditFilter,
)
    requires
        call_ensures(InMemoryAuditSink::new, (), made),
        call_ensures(InMemoryAuditSink::default, (), usual),
        call_ensures(InMemoryAuditSink::with_max_entries, (max,), sized),
        call_ensures(AuditFilter::default, (), filter),
    ensures
        made.held().len() == 0 && usual.held().len() == 0 && sized.held().len() == 0,
        made.upcoming() == 1 && usual.upcoming() == 1 && sized.upcoming() == 1,
        made.cap() == 10_000 && usual.cap() == 10_000 && sized.cap() == max,
        filter.subject_id is None && filter.granted is None && filter.permission is None,
        filter.since is None && filter.until is None && filter.min_risk is None && filter.limit is None,
{
    assert(filter@.subject_id is None && filter@.permission is None);
}

} // verus!
