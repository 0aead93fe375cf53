//! Summaries of a batch of entries.
use crate::collections::Table;
use crate::order::order_descending;
use crate::rbac::audit::entry::{AuditEntry, EntryView};
use crate::score::Score;
use vstd::prelude::*;

verus! {

/// How many of the riskiest entries a summary keeps.
pub const TOP_RISK_ENTRIES: usize = 10;

/// What a batch says of one subject.
pub struct SubjectStats {
    /// Decisions.
    pub total: u64,
    /// Denials among them.
    pub denied: u64,
    /// The risk of each decision, in their order, unscored ones as zero. The mean risk is their
    /// sum from zero on, taken in this order, over `total`.
    pub risks: Vec<Score>,
    /// The highest risk.
    pub max_risk: Score,
}

/// The figures of a subject, with the risks as a sequence.
pub struct StatsView {
    /// See [`SubjectStats::total`].
    pub total: u64,
    /// See [`SubjectStats::denied`].
    pub denied: u64,
    /// See [`SubjectStats::risks`].
    pub risks: Seq<Score>,
    /// See [`SubjectStats::max_risk`].
    pub max_risk: Score,
}

impl View for SubjectStats {
    type V = StatsView;

    open spec fn view(&self) -> StatsView {
        StatsView { total: self.total, denied: self.denied, risks: self.risks@, max_risk: self.max_risk }
    }
}

/// A summary of a batch.
pub struct AuditAnalysisResult {
    /// Entries in the batch.
    pub total_entries: u64,
    /// Denials among them; their rate is this over `total_entries`, and zero for an empty batch.
    pub denied_count: u64,
    /// Entries with a high risk.
    pub high_risk_count: u64,
    /// Figures by subject.
    pub by_subject: Table<String, SubjectStats>,
    /// Decisions by permission.
    pub by_permission: Table<String, u64>,
    /// The riskiest entries, in descending order.
    pub top_risk_entries: Vec<AuditEntry>,
}

/// The sum of an amount for each of some keys.
pub open spec fn summed(keys: Set<Seq<char>>, amount: spec_fn(Seq<char>) -> int) -> int
    decreases keys.len(),
    when keys.finite()
{
    if keys.len() == 0 {
        0
    } else {
        amount(keys.choose()) + summed(keys.remove(keys.choose()), amount)
    }
}

/// The test for denials.
pub open spec fn denial() -> spec_fn(EntryView) -> bool {
    |e: EntryView| !e.granted
}

/// The test for high risk.
pub open spec fn risky() -> spec_fn(EntryView) -> bool {
    |e: EntryView| e.high_risk()
}

/// The test for one subject.
pub open spec fn of_subject(s: Seq<char>) -> spec_fn(EntryView) -> bool {
    |e: EntryView| e.subject_id == s
}

/// The test for one permission.
pub open spec fn of_permission(p: Seq<char>) -> spec_fn(EntryView) -> bool {
    |e: EntryView| e.permission == p
}

/// How many entries pass a test.
pub open spec fn how_many(entries: Seq<EntryView>, test: spec_fn(EntryView) -> bool) -> nat {
    entries.filter(test).len()
}

/// The risk of each entry.
pub open spec fn risks_of(entries: Seq<EntryView>) -> Seq<Score> {
    Seq::new(entries.len(), |i: int| entries[i].risk())
}

/// Whether some entry has the subject.
pub open spec fn has_subject(entries: Seq<EntryView>, s: Seq<char>) -> bool {
    exists|i: int| 0 <= i < entries.len() && (#[trigger] entries[i]).subject_id == s
}

/// Whether some entry has the permission.
pub open spec fn has_permission(entries: Seq<EntryView>, p: Seq<char>) -> bool {
    exists|i: int| 0 <= i < entries.len() && (#[trigger] entries[i]).permission == p
}

/// The figures of a subject.
pub open spec fn stats_of(entries: Seq<EntryView>, s: Seq<char>) -> StatsView {
    let own = entries.filter(of_subject(s));
    StatsView {
        total: own.len() as u64,
        denied: how_many(own, denial()) as u64,
        risks: risks_of(own),
        max_risk: crate::score::largest(risks_of(own)),
    }
}

/// Whether each risk is a number.
pub open spec fn risks_known(entries: Seq<EntryView>) -> bool {
    forall|i: int| 0 <= i < entries.len() ==> (#[trigger] entries[i]).risk().rank() is Some
}

/// Where the risk of each entry stands among numbers.
pub open spec fn ranks_of(entries: Seq<EntryView>) -> Seq<i128> {
    Seq::new(entries.len(), |i: int| entries[i].risk().rank()->Some_0 as i128)
}

/// The entries with the riskiest first; those of one risk in the order in which they came.
pub open spec fn riskiest_first(entries: Seq<EntryView>) -> Seq<EntryView> {
    crate::order::picked(entries, crate::order::descending(ranks_of(entries)))
}

/// The first entries of a list, up to the number that a summary keeps.
pub open spec fn top_of(entries: Seq<EntryView>) -> Seq<EntryView> {
    if entries.len() > TOP_RISK_ENTRIES {
        entries.take(TOP_RISK_ENTRIES as int)
    } else {
        entries
    }
}

impl AuditAnalysisResult {
    /// Whether the value is well formed.
    pub open spec fn wf(&self) -> bool {
        self.by_subject.wf() && self.by_permission.wf()
    }

    /// Whether this is the summary of a batch. Where a risk is not a number, the riskiest
    /// entries are some entries of the batch, in some order.
    pub open spec fn summarizes(&self, entries: Seq<EntryView>) -> bool {
        let top = crate::rbac::audit::entry::entries_shown(self.top_risk_entries@);
        &&& self.total_entries == entries.len()
        &&& self.denied_count == how_many(entries, denial())
        &&& self.high_risk_count == how_many(entries, risky())
        &&& forall|s: Seq<char>| #[trigger] self.by_subject@.contains_key(s) <==> has_subject(entries, s)
        &&& forall|s: Seq<char>| #[trigger] self.by_subject@.contains_key(s) ==> self.by_subject@[s]@ == stats_of(entries, s)
        &&& forall|p: Seq<char>| #[trigger] self.by_permission@.contains_key(p) <==> has_permission(entries, p)
        &&& forall|p: Seq<char>| #[trigger]
            self.by_permission@.contains_key(p) ==> self.by_permission@[p] == how_many(entries, of_permission(p))
        &&& if risks_known(entries) {
            top == top_of(riskiest_first(entries))
        } else {
            exists|places: Seq<int>| #[trigger]
                crate::order::rearranges(entries.len(), places) && top == top_of(crate::order::picked(entries, places))
        }
    }
}

proof fn lemma_stats_next(entries: Seq<EntryView>, i: int, s: Seq<char>)
    requires
        0 <= i < entries.len(),
    ensures
        ({
            let e = entries[i];
            let was = entries.take(i).filter(of_subject(s));
            let now = entries.take(i + 1).filter(of_subject(s));
            if e.subject_id == s {
                &&& now == was.push(e)
                &&& now.len() == was.len() + 1
                &&& how_many(now, denial()) == how_many(was, denial()) + (if e.granted {
                    0int
                } else {
                    1int
                })
                &&& risks_of(now) == risks_of(was).push(e.risk())
                &&& crate::score::largest(risks_of(now)) == crate::score::larger(
                    crate::score::largest(risks_of(was)),
                    e.risk(),
                )
            } else {
                now == was
            }
        }),
{
    let e = entries[i];
    let was = entries.take(i).filter(of_subject(s));
    let now = entries.take(i + 1).filter(of_subject(s));
    crate::collections::lemma_filter_next(entries, i, of_subject(s));
    if e.subject_id == s {
        assert(now == was.push(e));
        crate::collections::lemma_filter_next(now, was.len() as int, denial());
        assert(now.take(was.len() as int) =~= was);
        assert(now.take(now.len() as int) =~= now);
        assert(risks_of(now) =~= risks_of(was).push(e.risk()));
        assert(risks_of(now).drop_last() =~= risks_of(was));
        assert(crate::score::largest(risks_of(now)) == crate::score::larger(
            crate::score::largest(risks_of(now).drop_last()),
            risks_of(now).last(),
        ));
    }
}

proof fn lemma_counts_bounded(entries: Seq<EntryView>, s: Seq<char>)
    ensures
        entries.filter(of_subject(s)).len() <= entries.len(),
        how_many(entries.filter(of_subject(s)), denial()) <= entries.len(),
{
    crate::collections::lemma_filter_shape(entries, of_subject(s));
    crate::collections::lemma_filter_shape(entries.filter(of_subject(s)), denial());
}

/// The figures of a subject with no entry.
fn no_stats() -> (r: SubjectStats)
    ensures
        r@.total == 0 && r@.denied == 0 && r@.risks.len() == 0 && r@.max_risk == crate::score::zero(),
{
    SubjectStats { total: 0, denied: 0, risks: Vec::new(), max_risk: Score::from_bits(0) }
}

/// Adds an entry to the figures by subject.
fn add_to_subject(
    by_subject: &mut Table<String, SubjectStats>,
    entry: &AuditEntry,
    Ghost(entries): Ghost<Seq<EntryView>>,
    Ghost(i): Ghost<int>,
)
    requires
        old(by_subject).wf(),
        0 <= i < entries.len() <= usize::MAX,
        entry@ == entries[i],
        forall|s: Seq<char>| #[trigger] old(by_subject)@.contains_key(s) <==> has_subject(entries.take(i), s),
        forall|s: Seq<char>| #[trigger]
            old(by_subject)@.contains_key(s) ==> old(by_subject)@[s]@ == stats_of(entries.take(i), s),
    ensures
        final(by_subject).wf(),
        forall|s: Seq<char>| #[trigger] final(by_subject)@.contains_key(s) <==> has_subject(entries.take(i + 1), s),
        forall|s: Seq<char>| #[trigger]
            final(by_subject)@.contains_key(s) ==> final(by_subject)@[s]@ == stats_of(entries.take(i + 1), s),
{
    let ghost was = by_subject@;
    let ghost prefix = entries.take(i);
    let ghost longer = entries.take(i + 1);
    let ghost own = entry@.subject_id;
    let mut stats = match by_subject.remove(&entry.subject_id) {
        Some(stats) => stats,
        None => no_stats(),
    };
    proof {
        lemma_stats_next(entries, i, own);
        lemma_counts_bounded(prefix, own);
        if !was.contains_key(own) {
            let none = prefix.filter(of_subject(own));
            crate::collections::lemma_filter_shape(prefix, of_subject(own));
            if none.len() > 0 {
                let at = choose|at: spec_fn(int) -> int| crate::collections::filtered_from(prefix, none, at);
                assert(of_subject(own)(none[0]));
                assert(none[0] == prefix[at(0)]);
                assert(has_subject(prefix, own));
            }
            assert(none =~= Seq::<EntryView>::empty());
            assert(how_many(none, denial()) == 0) by {
                reveal(Seq::filter);
            }
            assert(risks_of(none) =~= Seq::<Score>::empty());
            assert(stats@.risks =~= risks_of(none));
        }
        assert(stats@ == stats_of(prefix, own));
    }
    stats.total = stats.total + 1;
    if entry.is_denied() {
        stats.denied = stats.denied + 1;
    }
    let risk = entry.risk();
    stats.risks.push(risk);
    if stats.max_risk.is_below(risk) {
        stats.max_risk = risk;
    }
    let ghost added = stats@;
    assert(added == stats_of(longer, own));
    let _ = by_subject.insert(entry.subject_id.clone(), stats);
    proof {
        assert forall|s: Seq<char>| #[trigger] by_subject@.contains_key(s) <==> has_subject(longer, s) by {
            if has_subject(prefix, s) {
                let j = choose|j: int| 0 <= j < prefix.len() && (#[trigger] prefix[j]).subject_id == s;
                assert(longer[j].subject_id == s);
            }
            assert(longer[i].subject_id == own);
            if has_subject(longer, s) && s != own {
                let j = choose|j: int| 0 <= j < longer.len() && (#[trigger] longer[j]).subject_id == s;
                assert(prefix[j].subject_id == s);
            }
            assert(was.contains_key(s) <==> has_subject(prefix, s));
        }
        assert forall|s: Seq<char>| #[trigger] by_subject@.contains_key(s) implies by_subject@[s]@ == stats_of(longer, s) by {
            if s != own {
                assert(was.contains_key(s));
                lemma_stats_next(entries, i, s);
            }
        }
    }
}

/// Adds an entry to the counts by permission.
fn add_to_permission(
    by_permission: &mut Table<String, u64>,
    entry: &AuditEntry,
    Ghost(entries): Ghost<Seq<EntryView>>,
    Ghost(i): Ghost<int>,
)
    requires
        old(by_permission).wf(),
        0 <= i < entries.len() <= usize::MAX,
        entry@ == entries[i],
        forall|p: Seq<char>| #[trigger] old(by_permission)@.contains_key(p) <==> has_permission(entries.take(i), p),
        forall|p: Seq<char>| #[trigger]
            old(by_permission)@.contains_key(p) ==> old(by_permission)@[p] == how_many(entries.take(i), of_permission(p)),
    ensures
        final(by_permission).wf(),
        forall|p: Seq<char>| #[trigger] final(by_permission)@.contains_key(p) <==> has_permission(entries.take(i + 1), p),
        forall|p: Seq<char>| #[trigger]
            final(by_permission)@.contains_key(p) ==> final(by_permission)@[p] == how_many(
                entries.take(i + 1),
                of_permission(p),
            ),
{
    let ghost was = by_permission@;
    let ghost prefix = entries.take(i);
    let ghost longer = entries.take(i + 1);
    let ghost own = entry@.permission;
    let n: u64 = match by_permission.get(&entry.permission) {
        Some(n) => *n,
        None => 0,
    };
    proof {
        let some = prefix.filter(of_permission(own));
        crate::collections::lemma_filter_shape(prefix, of_permission(own));
        crate::collections::lemma_filter_next(entries, i, of_permission(own));
        if !was.contains_key(own) && some.len() > 0 {
            let at = choose|at: spec_fn(int) -> int| crate::collections::filtered_from(prefix, some, at);
            assert(of_permission(own)(some[0]));
            assert(some[0] == prefix[at(0)]);
            assert(has_permission(prefix, own));
        }
        assert(n == how_many(prefix, of_permission(own)));
    }
    let _ = by_permission.insert(entry.permission.clone(), n + 1);
    proof {
        assert forall|p: Seq<char>| #[trigger] by_permission@.contains_key(p) <==> has_permission(longer, p) by {
            if has_permission(prefix, p) {
                let j = choose|j: int| 0 <= j < prefix.len() && (#[trigger] prefix[j]).permission == p;
                assert(longer[j].permission == p);
            }
            assert(longer[i].permission == own);
            if has_permission(longer, p) && p != own {
                let j = choose|j: int| 0 <= j < longer.len() && (#[trigger] longer[j]).permission == p;
                assert(prefix[j].permission == p);
            }
            assert(was.contains_key(p) <==> has_permission(prefix, p));
        }
        assert forall|p: Seq<char>| #[trigger] by_permission@.contains_key(p) implies by_permission@[p] == how_many(
            longer,
            of_permission(p),
        ) by {
            if p != own {
                assert(was.contains_key(p));
                crate::collections::lemma_filter_next(entries, i, of_permission(p));
            }
        }
    }
}

/// Copies of the riskiest entries.
fn riskiest(entries: &Vec<AuditEntry>) -> (r: Vec<AuditEntry>)
    ensures
        ({
            let shown = crate::rbac::audit::entry::entries_shown(entries@);
            let top = crate::rbac::audit::entry::entries_shown(r@);
            if risks_known(shown) {
                top == top_of(riskiest_first(shown))
            } else {
                exists|places: Seq<int>| #[trigger]
                    crate::order::rearranges(shown.len(), places) && top == top_of(crate::order::picked(shown, places))
            }
        }),
{
    let ghost shown = crate::rbac::audit::entry::entries_shown(entries@);
    let mut keys: Vec<Option<i128>> = Vec::new();
    let mut k: usize = 0;
    while k < entries.len()
        invariant
            k <= entries@.len(),
            keys@.len() == k,
            forall|j: int|
                0 <= j < k ==> {
                    &&& (#[trigger] keys@[j]) is Some <==> entries@[j]@.risk().rank() is Some
                    &&& keys@[j] is Some ==> entries@[j]@.risk().rank() == Some(keys@[j]->Some_0 as int)
                },
        decreases entries.len() - k,
    {
        keys.push(entries[k].risk().place());
        k = k + 1;
    }
    let places = order_descending(&keys);
    let ghost order = crate::order::as_places(places@);
    let ghost sorted = crate::order::picked(shown, order);
    proof {
        if risks_known(shown) {
            assert forall|j: int| 0 <= j < keys@.len() implies (#[trigger] keys@[j]) is Some by {
                assert(shown[j].risk().rank() is Some);
            }
            assert(crate::order::known(keys@) =~= ranks_of(shown));
            assert(sorted == riskiest_first(shown));
        }
    }
    let mut r: Vec<AuditEntry> = Vec::new();
    let mut i: usize = 0;
    assert(crate::rbac::audit::entry::entries_shown(r@) =~= sorted.take(0));
    while i < places.len() && i < TOP_RISK_ENTRIES
        invariant
            i <= places@.len(),
            i <= TOP_RISK_ENTRIES,
            shown == crate::rbac::audit::entry::entries_shown(entries@),
            order == crate::order::as_places(places@),
            crate::order::rearranges(entries@.len(), order),
            sorted == crate::order::picked(shown, order),
            crate::rbac::audit::entry::entries_shown(r@) == sorted.take(i as int),
        decreases places.len() - i,
    {
        let ghost before = crate::rbac::audit::entry::entries_shown(r@);
        assert(order[i as int] < entries@.len());
        r.push(entries[places[i]].duplicate());
        assert(crate::rbac::audit::entry::entries_shown(r@) =~= before.push(sorted[i as int]));
        assert(sorted.take(i + 1) =~= sorted.take(i as int).push(sorted[i as int]));
        i = i + 1;
    }
    assert(crate::rbac::audit::entry::entries_shown(r@) =~= top_of(sorted));
    assert(crate::order::rearranges(shown.len(), order));
    r
}

/// Summaries of batches; they are never an input to a decision.
pub trait AuditAnalyzer: Sized {
    /// Whether a batch can be summarized so.
    open spec fn summed_up(&self, entries: Seq<EntryView>, r: AuditAnalysisResult) -> bool {
        true
    }

    /// Summarizes a batch.
    fn analyze(&self, entries: &Vec<AuditEntry>) -> (r: AuditAnalysisResult)
        ensures
            self.summed_up(crate::rbac::audit::entry::entries_shown(entries@), r),
    ;
}

/// The summaries that come with this library; there is no state.
#[derive(Debug, Clone, Copy, PartialEq, Eq, Structural)]
pub struct DefaultAuditAnalyzer;

impl DefaultAuditAnalyzer {
    /// The analyzer.
    #[must_use]
    pub fn new() -> (r: Self)
        ensures
            r == DefaultAuditAnalyzer,
    {
        DefaultAuditAnalyzer
    }

    /// Summarizes a batch.
    pub fn analyze(&self, entries: &Vec<AuditEntry>) -> (r: AuditAnalysisResult)
        ensures
            r.wf(),
            r.summarizes(crate::rbac::audit::entry::entries_shown(entries@)),
    {
        let ghost shown = crate::rbac::audit::entry::entries_shown(entries@);
        let mut denied_count: u64 = 0;
        let mut high_risk_count: u64 = 0;
        let mut by_subject: Table<String, SubjectStats> = Table::new();
        let mut by_permission: Table<String, u64> = Table::new();
        let mut i: usize = 0;
        proof {
            assert(shown.take(0).filter(denial()).len() == 0 && shown.take(0).filter(risky()).len() == 0) by {
                reveal(Seq::filter);
            }
        }
        while i < entries.len()
            invariant
                shown == crate::rbac::audit::entry::entries_shown(entries@),
                i <= entries@.len(),
                denied_count == how_many(shown.take(i as int), denial()),
                high_risk_count == how_many(shown.take(i as int), risky()),
                denied_count <= i,
                high_risk_count <= i,
                by_subject.wf(),
                by_permission.wf(),
                forall|s: Seq<char>| #[trigger] by_subject@.contains_key(s) <==> has_subject(shown.take(i as int), s),
                forall|s: Seq<char>| #[trigger]
                    by_subject@.contains_key(s) ==> by_subject@[s]@ == stats_of(shown.take(i as int), s),
                forall|p: Seq<char>| #[trigger] by_permission@.contains_key(p) <==> has_permission(shown.take(i as int), p),
                forall|p: Seq<char>| #[trigger]
                    by_permission@.contains_key(p) ==> by_permission@[p] == how_many(shown.take(i as int), of_permission(p)),
            decreases entries.len() - i,
        {
            let entry = &entries[i];
            proof {
                crate::collections::lemma_filter_next(shown, i as int, denial());
                crate::collections::lemma_filter_next(shown, i as int, risky());
            }
            if entry.is_denied() {
                denied_count = denied_count + 1;
            }
            if entry.is_high_risk() {
                high_risk_count = high_risk_count + 1;
            }
            add_to_subject(&mut by_subject, entry, Ghost(shown), Ghost(i as int));
            add_to_permission(&mut by_permission, entry, Ghost(shown), Ghost(i as int));
            i = i + 1;
        }
        assert(shown.take(shown.len() as int) =~= shown);
        AuditAnalysisResult {
            total_entries: entries.len() as u64,
            denied_count,
            high_risk_count,
            by_subject,
            by_permission,
            top_risk_entries: riskiest(entries),
        }
    }
}

impl AuditAnalyzer for DefaultAuditAnalyzer {
    open spec fn summed_up(&self, entries: Seq<EntryView>, r: AuditAnalysisResult) -> bool {
        r.wf() && r.summarizes(entries)
    }

    fn analyze(&self, entries: &Vec<AuditEntry>) -> (r: AuditAnalysisResult) {
        DefaultAuditAnalyzer::analyze(self, entries)
    }
}

impl Default for DefaultAuditAnalyzer {
    /// The analyzer.
    fn default() -> (r: Self)
        ensures
            r == DefaultAuditAnalyzer,
    {
        Self::new()
    }
}

/// In a summary the denials and the entries with high risk are among the entries of the batch,
/// and so are those of each subject.
pub proof fn law_counts_are_bounded(r: &AuditAnalysisResult, entries: Seq<EntryView>, s: Seq<char>)
    requires
        r.summarizes(entries),
    ensures
        r.denied_count <= r.total_entries,
        r.high_risk_count <= r.total_entries,
        r.by_subject@.contains_key(s) ==> 0 < r.by_subject@[s]@.total <= r.total_entries && r.by_subject@[s]@.denied
            <= r.by_subject@[s]@.total,
{
    crate::collections::lemma_filter_shape(entries, denial());
    crate::collections::lemma_filter_shape(entries, risky());
    crate::collections::lemma_filter_shape(entries, of_subject(s));
    let own = entries.filter(of_subject(s));
    crate::collections::lemma_filter_shape(own, denial());
    if r.by_subject@.contains_key(s) {
        let i = choose|i: int| 0 <= i < entries.len() && (#[trigger] entries[i]).subject_id == s;
        lemma_kept(entries, i, of_subject(s));
    }
}

proof fn lemma_kept(entries: Seq<EntryView>, i: int, keep: spec_fn(EntryView) -> bool)
    requires
        0 <= i < entries.len(),
        keep(entries[i]),
    ensures
        entries.filter(keep).len() > 0,
    decreases entries.len(),
{
    reveal(Seq::filter);
    if i < entries.len() - 1 {
        lemma_kept(entries.drop_last(), i, keep);
    }
}

/// Entries stand in descending order of risk, so that one that is cut off is no riskier than one
/// that is kept.
pub proof fn law_top_entries_descend(entries: Seq<EntryView>, i: int, j: int)
    requires
        risks_known(entries),
        0 <= i < j < riskiest_first(entries).len(),
    ensures
        riskiest_first(entries)[i].risk().reaches(riskiest_first(entries)[j].risk()),
        top_of(riskiest_first(entries)).len() <= TOP_RISK_ENTRIES,
{
    let ranks = ranks_of(entries);
    crate::order::law_descending_order_exists(ranks);
    let places = crate::order::descending(ranks);
    assert(crate::order::precedes(ranks, places[i], places[j]));
    lemma_rank_fits(entries[places[i]].risk());
    lemma_rank_fits(entries[places[j]].risk());
}

proof fn lemma_rank_fits(s: Score)
    requires
        s.rank() is Some,
    ensures
        (s.rank()->Some_0 as i128) == s.rank()->Some_0,
{
}

/// What passes one of two tests that exclude each other is counted by the one or by the other.
proof fn lemma_counts_add_up(
    entries: Seq<EntryView>,
    one: spec_fn(EntryView) -> bool,
    other: spec_fn(EntryView) -> bool,
    either: spec_fn(EntryView) -> bool,
)
    requires
        forall|e: EntryView| #[trigger] either(e) <==> one(e) || other(e),
        forall|e: EntryView| !(#[trigger] one(e) && #[trigger] other(e)),
    ensures
        how_many(entries, either) == how_many(entries, one) + how_many(entries, other),
    decreases entries.len(),
{
    reveal(Seq::filter);
    if entries.len() > 0 {
        lemma_counts_add_up(entries.drop_last(), one, other, either);
        assert(one(entries.last()) || !one(entries.last()));
        assert(either(entries.last()) || !either(entries.last()));
    }
}

spec fn has_key(key_of: spec_fn(EntryView) -> Seq<char>, k: Seq<char>) -> spec_fn(EntryView) -> bool {
    |e: EntryView| key_of(e) == k
}

spec fn has_key_of(key_of: spec_fn(EntryView) -> Seq<char>, keys: Set<Seq<char>>) -> spec_fn(EntryView) -> bool {
    |e: EntryView| keys.contains(key_of(e))
}

/// Counts of what has each key of a set come to the count of what has some key of it.
proof fn lemma_counts_by_key(
    entries: Seq<EntryView>,
    keys: Set<Seq<char>>,
    key_of: spec_fn(EntryView) -> Seq<char>,
    amount: spec_fn(Seq<char>) -> int,
)
    requires
        keys.finite(),
        forall|k: Seq<char>| #[trigger] keys.contains(k) ==> amount(k) == how_many(entries, has_key(key_of, k)),
    ensures
        summed(keys, amount) == how_many(entries, has_key_of(key_of, keys)),
    decreases keys.len(),
{
    if keys.len() == 0 {
        assert(keys =~= Set::empty());
        lemma_none_pass(entries, has_key_of(key_of, keys));
    } else {
        let k = keys.choose();
        let rest = keys.remove(k);
        lemma_counts_by_key(entries, rest, key_of, amount);
        lemma_counts_add_up(entries, has_key(key_of, k), has_key_of(key_of, rest), has_key_of(key_of, keys));
    }
}

proof fn lemma_none_pass(entries: Seq<EntryView>, test: spec_fn(EntryView) -> bool)
    requires
        forall|e: EntryView| !#[trigger] test(e),
    ensures
        how_many(entries, test) == 0,
    decreases entries.len(),
{
    reveal(Seq::filter);
    if entries.len() > 0 {
        lemma_none_pass(entries.drop_last(), test);
    }
}

proof fn lemma_all_pass(entries: Seq<EntryView>, test: spec_fn(EntryView) -> bool)
    requires
        forall|i: int| 0 <= i < entries.len() ==> test(#[trigger] entries[i]),
    ensures
        how_many(entries, test) == entries.len(),
    decreases entries.len(),
{
    reveal(Seq::filter);
    if entries.len() > 0 {
        assert forall|i: int| 0 <= i < entries.drop_last().len() implies test(#[trigger] entries.drop_last()[i]) by {
            assert(entries.drop_last()[i] == entries[i]);
        }
        lemma_all_pass(entries.drop_last(), test);
        assert(test(entries[entries.len() - 1]));
    }
}

/// In a summary the decisions of all subjects, and those of all permissions, add up to the entries
/// of the batch.
pub proof fn law_groups_add_up(r: &AuditAnalysisResult, entries: Seq<EntryView>)
    requires
        r.summarizes(entries),
    ensures
        summed(r.by_subject@.dom(), |s: Seq<char>| r.by_subject@[s]@.total as int) == r.total_entries,
        summed(r.by_permission@.dom(), |p: Seq<char>| r.by_permission@[p] as int) == r.total_entries,
{
    let subject = |e: EntryView| e.subject_id;
    let permission = |e: EntryView| e.permission;
    let subjects = r.by_subject@.dom();
    let permissions = r.by_permission@.dom();
    let totals = |s: Seq<char>| r.by_subject@[s]@.total as int;
    let counts = |p: Seq<char>| r.by_permission@[p] as int;
    assert(subjects.finite()) by {
        let listed = entries.map_values(subject);
        vstd::seq_lib::seq_to_set_is_finite(listed);
        assert forall|s: Seq<char>| #[trigger] subjects.contains(s) implies listed.to_set().contains(s) by {
            assert(r.by_subject@.contains_key(s));
            let i = choose|i: int| 0 <= i < entries.len() && (#[trigger] entries[i]).subject_id == s;
            assert(listed[i] == s);
        }
        vstd::set_lib::lemma_set_subset_finite(listed.to_set(), subjects);
    }
    assert(permissions.finite()) by {
        let listed = entries.map_values(permission);
        vstd::seq_lib::seq_to_set_is_finite(listed);
        assert forall|p: Seq<char>| #[trigger] permissions.contains(p) implies listed.to_set().contains(p) by {
            assert(r.by_permission@.contains_key(p));
            let i = choose|i: int| 0 <= i < entries.len() && (#[trigger] entries[i]).permission == p;
            assert(listed[i] == p);
        }
        vstd::set_lib::lemma_set_subset_finite(listed.to_set(), permissions);
    }
    assert forall|s: Seq<char>| #[trigger] subjects.contains(s) implies totals(s) == how_many(
        entries,
        has_key(subject, s),
    ) by {
        assert(r.by_subject@.contains_key(s));
        lemma_counts_bounded(entries, s);
        assert(of_subject(s) =~= has_key(subject, s));
    }
    assert forall|p: Seq<char>| #[trigger] permissions.contains(p) implies counts(p) == how_many(
        entries,
        has_key(permission, p),
    ) by {
        assert(r.by_permission@.contains_key(p));
        assert(of_permission(p) =~= has_key(permission, p));
    }
    lemma_counts_by_key(entries, subjects, subject, totals);
    lemma_counts_by_key(entries, permissions, permission, counts);
    assert forall|i: int| 0 <= i < entries.len() implies subjects.contains((#[trigger] entries[i]).subject_id)
        && permissions.contains(entries[i].permission) by {
        assert(has_subject(entries, entries[i].subject_id));
        assert(has_permission(entries, entries[i].permission));
        assert(r.by_subject@.contains_key(entries[i].subject_id));
        assert(r.by_permission@.contains_key(entries[i].permission));
    }
    lemma_all_pass(entries, has_key_of(subject, subjects));
    lemma_all_pass(entries, has_key_of(permission, permissions));
}

/// A summary counts the entries of a batch, the denials among them and those whose risk is at least
/// 0.6.
pub proof fn law_summary_counts(
    analyzer: &DefaultAuditAnalyzer,
    entries: &Vec<AuditEntry>,
    r: AuditAnalysisResult,
)
    requires
        call_ensures(DefaultAuditAnalyzer::analyze, (analyzer, entries), r),
    ensures
        ({
            let shown = entries@.map_values(|e: AuditEntry| e@);
            &&& r.total_entries == entries@.len()
            &&& r.denied_count == shown.filter(|e: EntryView| !e.granted).len()
            &&& r.high_risk_count == shown.filter(
                |e: EntryView|
                    e.verdict matches Some(v) && v.risk_score.reaches(Score { bits: 0x3FE3_3333_3333_3333 }),
            ).len()
        }),
{
    let shown = crate::rbac::audit::entry::entries_shown(entries@);
    assert(shown =~= entries@.map_values(|e: AuditEntry| e@));
    assert(denial() =~= (|e: EntryView| !e.granted));
    assert(risky() =~= (|e: EntryView|
        e.verdict matches Some(v) && v.risk_score.reaches(Score { bits: 0x3FE3_3333_3333_3333 })));
}

/// The figures of a subject are on exactly the subjects that occur: how many entries are of the
/// subject, how many of those are denials, the risk of each in their order, and the highest of these.
/// An entry without a verdict has no risk.
pub proof fn law_summary_by_subject(
    analyzer: &DefaultAuditAnalyzer,
    entries: &Vec<AuditEntry>,
    r: AuditAnalysisResult,
    s: Seq<char>,
)
    requires
        call_ensures(DefaultAuditAnalyzer::analyze, (analyzer, entries), r),
        entries@.len() <= usize::MAX,
    ensures
        r.by_subject@.contains_key(s) <==> exists|i: int| 0 <= i < entries@.len() && (#[trigger] entries@[i]).subject_id@ == s,
        r.by_subject@.contains_key(s) ==> {
            let shown = entries@.map_values(|e: AuditEntry| e@);
            let own = shown.filter(|e: EntryView| e.subject_id == s);
            let stats = r.by_subject@[s];
            &&& stats.total == own.len()
            &&& stats.denied == shown.filter(|e: EntryView| e.subject_id == s && !e.granted).len()
            &&& stats.risks@.len() == own.len()
            &&& forall|k: int|
                0 <= k < own.len() ==> #[trigger] stats.risks@[k] == (match own[k].verdict {
                    Some(v) => v.risk_score,
                    None => Score { bits: 0 },
                })
            &&& stats.max_risk == (Score { bits: 0 }) || stats.risks@.contains(stats.max_risk)
            &&& stats.max_risk.reaches(Score { bits: 0 })
            &&& forall|k: int|
                0 <= k < own.len() ==> !stats.max_risk.below(#[trigger] stats.risks@[k])
        },
{
    let shown = crate::rbac::audit::entry::entries_shown(entries@);
    assert(shown =~= entries@.map_values(|e: AuditEntry| e@));
    if has_subject(shown, s) {
        let i = choose|i: int| 0 <= i < shown.len() && (#[trigger] shown[i]).subject_id == s;
        assert(entries@[i].subject_id@ == s);
    }
    if exists|i: int| 0 <= i < entries@.len() && (#[trigger] entries@[i]).subject_id@ == s {
        let i = choose|i: int| 0 <= i < entries@.len() && (#[trigger] entries@[i]).subject_id@ == s;
        assert(shown[i].subject_id == s);
    }
    if r.by_subject@.contains_key(s) {
        let own = shown.filter(of_subject(s));
        assert(of_subject(s) =~= (|e: EntryView| e.subject_id == s));
        lemma_counts_bounded(shown, s);
        crate::collections::lemma_filter_twice(shown, of_subject(s), denial());
        assert((|e: EntryView| of_subject(s)(e) && denial()(e)) =~= (|e: EntryView| e.subject_id == s && !e.granted));
        let stats = r.by_subject@[s];
        assert(stats@ == stats_of(shown, s));
        crate::score::law_largest_bounds(risks_of(own));
        assert forall|k: int| 0 <= k < own.len() implies !stats.max_risk.below(#[trigger] stats.risks@[k]) by {
            assert(stats.risks@[k] == risks_of(own)[k]);
        }
    }
}

/// The decisions by permission are on exactly the permissions that occur, and count the entries of
/// each.
pub proof fn law_summary_by_permission(
    analyzer: &DefaultAuditAnalyzer,
    entries: &Vec<AuditEntry>,
    r: AuditAnalysisResult,
    p: Seq<char>,
)
    requires
        call_ensures(DefaultAuditAnalyzer::analyze, (analyzer, entries), r),
    ensures
        r.by_permission@.contains_key(p) <==> exists|i: int|
            0 <= i < entries@.len() && (#[trigger] entries@[i]).permission@ == p,
        r.by_permission@.contains_key(p) ==> r.by_permission@[p] == entries@.map_values(|e: AuditEntry| e@).filter(
            |e: EntryView| e.permission == p,
        ).len(),
{
    let shown = crate::rbac::audit::entry::entries_shown(entries@);
    assert(shown =~= entries@.map_values(|e: AuditEntry| e@));
    assert(of_permission(p) =~= (|e: EntryView| e.permission == p));
    if has_permission(shown, p) {
        let i = choose|i: int| 0 <= i < shown.len() && (#[trigger] shown[i]).permission == p;
        assert(entries@[i].permission@ == p);
    }
    if exists|i: int| 0 <= i < entries@.len() && (#[trigger] entries@[i]).permission@ == p {
        let i = choose|i: int| 0 <= i < entries@.len() && (#[trigger] entries@[i]).permission@ == p;
        assert(shown[i].permission == p);
    }
}

/// Whether one entry of a batch comes before another among the riskiest: it is riskier, or as risky and
/// comes first in the batch.
pub open spec fn riskier(entries: Seq<EntryView>, a: int, b: int) -> bool {
    entries[b].risk().below(entries[a].risk()) || entries[a].risk().rank() == entries[b].risk().rank() && a < b
}

/// The riskiest entries are at most ten of the batch, each once, the riskiest first; where every risk is
/// a number, none that is left out is riskier than one that is not.
pub proof fn law_summary_keeps_the_riskiest(
    analyzer: &DefaultAuditAnalyzer,
    entries: &Vec<AuditEntry>,
    r: AuditAnalysisResult,
)
    requires
        call_ensures(DefaultAuditAnalyzer::analyze, (analyzer, entries), r),
    ensures
        r.top_risk_entries@.len() == (if entries@.len() < 10 {
            entries@.len()
        } else {
            10
        }),
        exists|src: Seq<int>| #[trigger] are_riskiest(
            crate::rbac::audit::entry::entries_shown(entries@),
            src,
            r.top_risk_entries@,
        ),
{
    let shown = crate::rbac::audit::entry::entries_shown(entries@);
    assert(shown =~= entries@.map_values(|e: AuditEntry| e@));
    let top = crate::rbac::audit::entry::entries_shown(r.top_risk_entries@);
    let ranks = ranks_of(shown);
    let places = if risks_known(shown) {
        crate::order::descending(ranks)
    } else {
        choose|places: Seq<int>| #[trigger]
            crate::order::rearranges(shown.len(), places) && top == top_of(crate::order::picked(shown, places))
    };
    if risks_known(shown) {
        crate::order::law_descending_order_exists(ranks);
    }
    assert(crate::order::rearranges(shown.len(), places));
    assert(top == top_of(crate::order::picked(shown, places)));
    let src = Seq::new(top.len(), |k: int| places[k]);
    assert forall|k: int| 0 <= k < src.len() implies 0 <= #[trigger] src[k] < shown.len() && r.top_risk_entries@[k]@
        == shown[src[k]] by {
        assert(0 <= places[k] < shown.len());
        assert(top[k] == r.top_risk_entries@[k]@);
    }
    assert(src.no_duplicates());
    if risks_known(shown) {
        assert forall|a: int, b: int| 0 <= a < b < places.len() implies riskier(
            shown,
            #[trigger] places[a],
            #[trigger] places[b],
        ) by {
            assert(crate::order::precedes(ranks, places[a], places[b]));
            assert(0 <= places[a] < shown.len() && 0 <= places[b] < shown.len());
            assert(shown[places[a]].risk().rank() is Some && shown[places[b]].risk().rank() is Some);
            lemma_rank_fits(shown[places[a]].risk());
            lemma_rank_fits(shown[places[b]].risk());
        }
        assert forall|a: int, b: int| 0 <= a < b < src.len() implies riskier(shown, #[trigger] src[a], #[trigger] src[b]) by {
            assert(src[a] == places[a] && src[b] == places[b]);
        }
        assert forall|i: int| 0 <= i < shown.len() && !src.contains(i) implies forall|k: int|
            0 <= k < src.len() ==> #[trigger] riskier(shown, src[k], i) by {
            crate::order::lemma_every_place_occurs(shown.len(), places, i);
            let p = choose|p: int| 0 <= p < places.len() && places[p] == i;
            if p < src.len() {
                assert(src[p] == i);
            }
            assert forall|k: int| 0 <= k < src.len() implies #[trigger] riskier(shown, src[k], i) by {
                assert(src[k] == places[k]);
                assert(riskier(shown, places[k], places[p]));
            }
        }
    }
    assert(are_riskiest(shown, src, r.top_risk_entries@));
}

/// Whether some entries, taken from places of a batch, are its riskiest.
pub open spec fn are_riskiest(entries: Seq<EntryView>, src: Seq<int>, top: Seq<AuditEntry>) -> bool {
    &&& src.len() == top.len()
    &&& src.no_duplicates()
    &&& forall|k: int| 0 <= k < src.len() ==> 0 <= #[trigger] src[k] < entries.len() && top[k]@ == entries[src[k]]
    &&& (forall|i: int| 0 <= i < entries.len() ==> (#[trigger] entries[i]).risk().rank() is Some) ==> {
        &&& forall|a: int, b: int| 0 <= a < b < src.len() ==> riskier(entries, #[trigger] src[a], #[trigger] src[b])
        &&& forall|i: int|
            0 <= i < entries.len() && !src.contains(i) ==> forall|k: int|
                0 <= k < src.len() ==> #[trigger] riskier(entries, src[k], i)
    }
}

} // verus!
