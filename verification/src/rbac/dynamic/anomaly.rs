//! Behaviour by category: a window of recent actions against a baseline.
//!
//! Here is what is counted, and when; the deviation is computed from the counts by whoever asks.
use crate::collections::Table;
use crate::rbac::dynamic::metrics::{ActionCategory, ActionRequest};
use crate::score::Score;
use std::collections::VecDeque;
use vstd::prelude::*;

verus! {

/// How many actions a window holds unless it is told otherwise.
pub const DEFAULT_WINDOW_SIZE: usize = 20;

/// How many observations a baseline takes.
pub const BASELINE_MIN_SAMPLES: usize = 100;

/// The bits of 0.1, the score before there are enough observations.
pub const COLD_SCORE_BITS: u64 = 0x3FB9_9999_9999_999A;

/// The bits of 0.4, above which a deviation counts as moderate.
pub const MODERATE_DEVIATION_BITS: u64 = 0x3FD9_9999_9999_999A;

/// The bits of 0.7, above which a deviation counts as high.
pub const HIGH_DEVIATION_BITS: u64 = 0x3FE6_6666_6666_6666;

/// How unusual an action is.
pub struct AnomalyScore {
    /// The deviation.
    pub value: Score,
    /// What it was found to be.
    pub reason: String,
}

/// What a deviation is called.
pub open spec fn deviation_label(deviation: Score) -> Seq<char> {
    if (Score { bits: HIGH_DEVIATION_BITS }).below(deviation) {
        "high-pattern-deviation"@
    } else if (Score { bits: MODERATE_DEVIATION_BITS }).below(deviation) {
        "moderate-pattern-deviation"@
    } else {
        "normal"@
    }
}

impl AnomalyScore {
    /// The score of a deviation; the label says how large it is and changes nothing.
    pub fn of_deviation(deviation: Score) -> (r: Self)
        ensures
            r.value == deviation,
            r.reason@ == deviation_label(deviation),
    {
        if Score::from_bits(HIGH_DEVIATION_BITS).is_below(deviation) {
            AnomalyScore { value: deviation, reason: "high-pattern-deviation".to_owned() }
        } else if Score::from_bits(MODERATE_DEVIATION_BITS).is_below(deviation) {
            AnomalyScore { value: deviation, reason: "moderate-pattern-deviation".to_owned() }
        } else {
            AnomalyScore { value: deviation, reason: "normal".to_owned() }
        }
    }
}

/// An action that was observed.
pub struct ActionRecord {
    /// Its name.
    pub action: String,
    /// Its category.
    pub category: ActionCategory,
    /// When the caller says it was asked for.
    pub timestamp: i128,
}

/// A record with its text as characters.
pub struct RecordView {
    /// See [`ActionRecord::action`].
    pub action: Seq<char>,
    /// See [`ActionRecord::category`].
    pub category: ActionCategory,
    /// See [`ActionRecord::timestamp`].
    pub timestamp: i128,
}

impl View for ActionRecord {
    type V = RecordView;

    open spec fn view(&self) -> RecordView {
        RecordView { action: self.action@, category: self.category, timestamp: self.timestamp }
    }
}

/// Records with their texts as characters.
pub open spec fn records_shown(records: Seq<ActionRecord>) -> Seq<RecordView> {
    Seq::new(records.len(), |i: int| records[i]@)
}

/// The record of a request.
pub open spec fn record_of(request: &ActionRequest) -> RecordView {
    RecordView { action: request.action@, category: request.category, timestamp: request.timestamp }
}

/// The test for one category.
pub open spec fn of_category(category: ActionCategory) -> spec_fn(RecordView) -> bool {
    |r: RecordView| r.category == category
}

/// How many records there are of each category that occurs.
pub open spec fn tallied(records: Seq<RecordView>) -> Map<ActionCategory, u64> {
    Map::new(
        |c: ActionCategory| records.filter(of_category(c)).len() > 0,
        |c: ActionCategory| records.filter(of_category(c)).len() as u64,
    )
}

/// What is normal.
pub enum BehaviorBaseline {
    /// Given from outside: the share of each category that is expected, and how far it strays.
    Given {
        /// Expected shares.
        category_means: Table<ActionCategory, Score>,
        /// Standard deviations.
        category_stdevs: Table<ActionCategory, Score>,
    },
    /// Learned: how many of some observations were of each category. The expected share is the
    /// count over the total.
    Learned {
        /// Observations by category.
        category_counts: Table<ActionCategory, u64>,
        /// All observations.
        total: u64,
    },
}

/// The behaviour of one person.
pub struct AnomalyDetector {
    recent_actions: VecDeque<ActionRecord>,
    window_size: usize,
    category_profile: Table<ActionCategory, u64>,
    baseline: Option<BehaviorBaseline>,
    total_observed: u64,
    history: VecDeque<ActionRecord>,
}

/// The last records of a list, up to a number of them.
pub open spec fn last_records(records: Seq<RecordView>, max: nat) -> Seq<RecordView> {
    if records.len() > max {
        records.skip(records.len() - max)
    } else {
        records
    }
}

/// One more, as far as it can be counted.
pub open spec fn one_more(n: u64) -> u64 {
    if n < u64::MAX {
        (n + 1) as u64
    } else {
        n
    }
}

proof fn lemma_tallied_next(records: Seq<RecordView>, i: int)
    requires
        0 <= i < records.len() <= usize::MAX,
    ensures
        ({
            let c = records[i].category;
            let was = tallied(records.take(i));
            tallied(records.take(i + 1)) == was.insert(
                c,
                (if was.contains_key(c) {
                    was[c] + 1
                } else {
                    1
                }) as u64,
            )
        }),
        records.take(i).filter(of_category(records[i].category)).len() <= i,
{
    let c = records[i].category;
    let was = tallied(records.take(i));
    let now = tallied(records.take(i + 1));
    let next = was.insert(
        c,
        (if was.contains_key(c) {
            was[c] + 1
        } else {
            1
        }) as u64,
    );
    crate::collections::lemma_filter_shape(records.take(i), of_category(c));
    assert forall|d: ActionCategory| #[trigger] now.contains_key(d) == next.contains_key(d) by {
        crate::collections::lemma_filter_next(records, i, of_category(d));
    }
    assert forall|d: ActionCategory| #[trigger] now.contains_key(d) implies now[d] == next[d] by {
        crate::collections::lemma_filter_next(records, i, of_category(d));
    }
    assert(now =~= next);
}

/// How many records there are of each category that occurs.
fn tally(records: &VecDeque<ActionRecord>) -> (r: Table<ActionCategory, u64>)
    ensures
        r.wf(),
        r@ == tallied(records_shown(records@)),
{
    let ghost shown = records_shown(records@);
    let mut counts: Table<ActionCategory, u64> = Table::new();
    let mut i: usize = 0;
    assert(tallied(shown.take(0)) =~= Map::<ActionCategory, u64>::empty()) by {
        reveal(Seq::filter);
    }
    while i < records.len()
        invariant
            i <= records@.len(),
            shown == records_shown(records@),
            counts.wf(),
            counts@ == tallied(shown.take(i as int)),
        decreases records.len() - i,
    {
        let c = records[i].category;
        proof {
            lemma_tallied_next(shown, i as int);
        }
        let n: u64 = match counts.get(&c) {
            Some(n) => *n,
            None => 0,
        };
        let _ = counts.insert(c, n + 1);
        i = i + 1;
    }
    assert(shown.take(shown.len() as int) =~= shown);
    counts
}

/// What the automatic baseline of some observations is, where there are enough of them.
pub open spec fn learns(history: Seq<RecordView>, observed: u64) -> bool {
    observed >= BASELINE_MIN_SAMPLES && history.len() > 0
}

/// Whether a baseline was learned from some observations.
pub open spec fn learned_from(baseline: Option<BehaviorBaseline>, history: Seq<RecordView>) -> bool {
    match baseline {
        Some(BehaviorBaseline::Learned { category_counts, total }) => {
            &&& category_counts.wf()
            &&& category_counts@ == tallied(history)
            &&& total == history.len()
        },
        _ => false,
    }
}

/// The history once an action was observed: it is added while there is no baseline and room.
pub open spec fn history_after(history: Seq<RecordView>, record: RecordView, has_baseline: bool) -> Seq<RecordView> {
    if !has_baseline && history.len() < BASELINE_MIN_SAMPLES {
        history.push(record)
    } else {
        history
    }
}

impl AnomalyDetector {
    /// The recent actions.
    pub closed spec fn recent(&self) -> Seq<RecordView> {
        records_shown(self.recent_actions@)
    }

    /// The most recent actions that are kept.
    pub closed spec fn window(&self) -> usize {
        self.window_size
    }

    /// Recent actions by category.
    pub closed spec fn profile(&self) -> Map<ActionCategory, u64> {
        self.category_profile@
    }

    /// What is normal, once that is known.
    pub closed spec fn normal(&self) -> Option<BehaviorBaseline> {
        self.baseline
    }

    /// How many actions were observed.
    pub closed spec fn observed(&self) -> u64 {
        self.total_observed
    }

    /// What a baseline will be learned from.
    pub closed spec fn kept(&self) -> Seq<RecordView> {
        records_shown(self.history@)
    }

    /// Whether there were enough observations.
    pub open spec fn ready(&self) -> bool {
        self.observed() >= BASELINE_MIN_SAMPLES
    }

    /// Whether the value is well formed.
    pub closed spec fn wf(&self) -> bool {
        &&& self.recent().len() <= self.window()
        &&& self.category_profile.wf()
        &&& self.profile() == tallied(self.recent())
        &&& self.kept().len() <= BASELINE_MIN_SAMPLES
    }

    /// A detector that has seen nothing.
    #[must_use]
    pub fn new(window_size: usize) -> (r: Self)
        ensures
            r.wf(),
            r.recent() == Seq::<RecordView>::empty(),
            r.window() == window_size,
            r.normal() is None,
            r.observed() == 0,
            r.kept() == Seq::<RecordView>::empty(),
    {
        let r = AnomalyDetector {
            recent_actions: VecDeque::new(),
            window_size,
            category_profile: Table::new(),
            baseline: None,
            total_observed: 0,
            history: VecDeque::new(),
        };
        proof {
            assert(r.recent() =~= Seq::<RecordView>::empty());
            assert(r.kept() =~= Seq::<RecordView>::empty());
            assert(tallied(r.recent()) =~= Map::<ActionCategory, u64>::empty()) by {
                reveal(Seq::filter);
            }
        }
        r
    }

    /// The detector with a baseline from outside. It takes effect once there were enough
    /// observations.
    #[must_use]
    pub fn with_baseline(self, baseline: BehaviorBaseline) -> (r: Self)
        requires
            self.wf(),
        ensures
            r.wf(),
            r.recent() == self.recent(),
            r.window() == self.window(),
            r.normal() == Some(baseline),
            r.observed() == self.observed(),
            r.kept() == self.kept(),
    {
        AnomalyDetector {
            recent_actions: self.recent_actions,
            window_size: self.window_size,
            category_profile: self.category_profile,
            baseline: Some(baseline),
            total_observed: self.total_observed,
            history: self.history,
        }
    }

    /// The recent actions, oldest first.
    pub fn recent_actions(&self) -> (r: &VecDeque<ActionRecord>)
        ensures
            records_shown(r@) == self.recent(),
    {
        &self.recent_actions
    }

    /// Recent actions by category.
    pub fn category_profile(&self) -> (r: &Table<ActionCategory, u64>)
        requires
            self.wf(),
        ensures
            r.wf(),
            r@ == self.profile(),
            r@ == tallied(self.recent()),
    {
        &self.category_profile
    }

    /// What is normal, once that is known.
    pub fn baseline(&self) -> (r: &Option<BehaviorBaseline>)
        ensures
            *r == self.normal(),
    {
        &self.baseline
    }

    /// Whether there were enough observations.
    #[must_use]
    pub fn is_baseline_ready(&self) -> (r: bool)
        ensures
            r == self.ready(),
    {
        self.total_observed >= BASELINE_MIN_SAMPLES as u64
    }

    /// How many actions were observed.
    #[must_use]
    pub fn total_observed(&self) -> (r: u64)
        ensures
            r == self.observed(),
    {
        self.total_observed
    }

    /// Learns what is normal from the observations that were kept, in place of what was known;
    /// nothing changes while there are too few, or none is kept.
    pub fn build_baseline_from_history(&mut self)
        requires
            old(self).wf(),
        ensures
            final(self).wf(),
            final(self).recent() == old(self).recent(),
            final(self).window() == old(self).window(),
            final(self).observed() == old(self).observed(),
            final(self).kept() == old(self).kept(),
            if learns(old(self).kept(), old(self).observed()) {
                learned_from(final(self).normal(), old(self).kept())
            } else {
                final(self).normal() == old(self).normal()
            },
    {
        if self.total_observed < BASELINE_MIN_SAMPLES as u64 {
            return ;
        }
        if self.history.len() == 0 {
            return ;
        }
        let category_counts = tally(&self.history);
        let total: u64 = self.history.len() as u64;
        self.baseline = Some(BehaviorBaseline::Learned { category_counts, total });
        assert(self.recent() == old(self).recent());
        assert(self.kept() == old(self).kept());
    }

    /// Takes in an action. Before there are enough observations the score is 0.1; after that it
    /// is to be computed from the profile and the baseline, and none is returned. The observation
    /// that completes the number is already measured against the baseline that it completes.
    #[must_use]
    pub fn take_in(&mut self, request: &ActionRequest) -> (r: Option<AnomalyScore>)
        requires
            old(self).wf(),
        ensures
            final(self).wf(),
            observed_once(old(self), final(self), request),
            match r {
                Some(s) => !final(self).ready() && s.value == (Score { bits: COLD_SCORE_BITS }) && s.reason@
                    == "insufficient-samples"@,
                None => final(self).ready(),
            },
    {
        let ghost was_recent = self.recent();
        let ghost was_kept = self.kept();
        let ghost record = record_of(request);
        if self.total_observed < u64::MAX {
            self.total_observed = self.total_observed + 1;
        }
        let first = ActionRecord {
            action: request.action.clone(),
            category: request.category,
            timestamp: request.timestamp,
        };
        let second = ActionRecord {
            action: request.action.clone(),
            category: request.category,
            timestamp: request.timestamp,
        };
        self.recent_actions.push_back(first);
        let ghost grown = was_recent.push(record);
        assert(self.recent() =~= grown);
        if self.recent_actions.len() > self.window_size {
            let ghost entries = self.recent_actions@;
            let _ = self.recent_actions.pop_front();
            assert(self.recent_actions@ == entries.skip(1));
            assert(self.recent() =~= grown.skip(1));
        }
        assert(self.recent() =~= last_records(grown, self.window() as nat));
        assert(self.kept() == was_kept);
        if self.baseline.is_none() && self.history.len() < BASELINE_MIN_SAMPLES {
            self.history.push_back(second);
            assert(self.kept() =~= was_kept.push(record));
        }
        let ghost history = history_after(was_kept, record, old(self).normal() is Some);
        assert(self.kept() == history);
        self.category_profile = tally(&self.recent_actions);
        assert(self.kept() == history);
        if self.is_baseline_ready() && self.baseline.is_none() {
            self.build_baseline_from_history();
            self.history = VecDeque::new();
            assert(self.kept() =~= Seq::<RecordView>::empty());
            assert(self.recent() =~= last_records(grown, self.window() as nat));
        }
        if !self.is_baseline_ready() {
            return Some(
                AnomalyScore {
                    value: Score::from_bits(COLD_SCORE_BITS),
                    reason: "insufficient-samples".to_owned(),
                },
            );
        }
        None
    }

    /// Observes an action, and says how unusual the behaviour is with it: 0.1 before there are
    /// enough observations, and after that the deviation, which the host computes from the profile
    /// and the baseline.
    #[must_use]
    pub fn observe<D: Fn(&AnomalyDetector) -> Score>(&mut self, request: &ActionRequest, deviation: D) -> (r:
        AnomalyScore)
        requires
            old(self).wf(),
            forall|d: &AnomalyDetector| d.wf() ==> #[trigger] call_requires(deviation, (d,)),
        ensures
            final(self).wf(),
            observed_once(old(self), final(self), request),
            if final(self).ready() {
                call_ensures(deviation, (final(self),), r.value) && r.reason@ == deviation_label(r.value)
            } else {
                r.value == (Score { bits: COLD_SCORE_BITS }) && r.reason@ == "insufficient-samples"@
            },
    {
        match self.take_in(request) {
            Some(cold) => cold,
            None => AnomalyScore::of_deviation(deviation(self)),
        }
    }
}

/// Whether one detector came from another by observing an action: the window moves on, the
/// profile counts it, and a baseline is learned when the number of observations is complete.
pub open spec fn observed_once(from: &AnomalyDetector, to: &AnomalyDetector, request: &ActionRequest) -> bool {
    let history = history_after(from.kept(), record_of(request), from.normal() is Some);
    &&& to.window() == from.window()
    &&& to.observed() == one_more(from.observed())
    &&& to.recent() == last_records(from.recent().push(record_of(request)), from.window() as nat)
    &&& to.profile() == tallied(to.recent())
    &&& if to.ready() && from.normal() is None {
        &&& to.kept() == Seq::<RecordView>::empty()
        &&& if history.len() > 0 {
            learned_from(to.normal(), history)
        } else {
            to.normal() is None
        }
    } else {
        &&& to.kept() == history
        &&& to.normal() == from.normal()
    }
}

/// Whether a detector has the default window and has seen nothing.
pub open spec fn is_fresh(d: &AnomalyDetector) -> bool {
    &&& d.wf()
    &&& d.recent() == Seq::<RecordView>::empty()
    &&& d.window() == DEFAULT_WINDOW_SIZE
    &&& d.normal() is None
    &&& d.observed() == 0
    &&& d.kept() == Seq::<RecordView>::empty()
}

impl Default for AnomalyDetector {
    /// A detector with the default window that has seen nothing.
    fn default() -> (r: Self)
        ensures
            is_fresh(&r),
    {
        Self::new(DEFAULT_WINDOW_SIZE)
    }
}

/// The window never holds more than its size, and the profile counts what it holds.
pub proof fn law_window_is_bounded(d: &AnomalyDetector)
    requires
        d.wf(),
    ensures
        d.recent().len() <= d.window(),
        d.window() == 0 ==> d.profile() == Map::<ActionCategory, u64>::empty(),
        d.profile() == tallied(d.recent()),
{
    if d.window() == 0 {
        assert(d.recent() =~= Seq::<RecordView>::empty());
        assert(tallied(d.recent()) =~= Map::<ActionCategory, u64>::empty()) by {
            reveal(Seq::filter);
        }
    }
}

/// Enough observations stay enough, and what was once learned or given stays what is normal.
pub proof fn law_readiness_is_sticky(from: &AnomalyDetector, to: &AnomalyDetector, request: &ActionRequest)
    requires
        observed_once(from, to, request),
    ensures
        from.ready() ==> to.ready(),
        from.normal() is Some ==> to.normal() == from.normal(),
{
}

/// A baseline is learned exactly from the observations that make up the number, the last of them
/// among them.
pub proof fn law_baseline_is_learned_from_the_first_observations(
    from: &AnomalyDetector,
    to: &AnomalyDetector,
    request: &ActionRequest,
)
    requires
        observed_once(from, to, request),
        from.normal() is None,
        from.observed() == BASELINE_MIN_SAMPLES - 1,
        from.kept().len() == BASELINE_MIN_SAMPLES - 1,
    ensures
        learned_from(to.normal(), from.kept().push(record_of(request))),
        to.kept() == Seq::<RecordView>::empty(),
{
}

/// An observation is counted once, and is the last of the recent actions; the oldest leave as far as
/// the window has no room. The profile says of each category how many recent actions are of it.
pub proof fn law_observation_is_recent(
    before: AnomalyDetector,
    after: AnomalyDetector,
    request: &ActionRequest,
    r: Option<AnomalyScore>,
    category: ActionCategory,
)
    requires
        exists|d: &mut AnomalyDetector|
            *d == before && *final(d) == after && #[trigger] call_ensures(AnomalyDetector::take_in, (d, request), r),
        before.wf(),
        after.recent().len() <= usize::MAX,
    ensures
        after.window() == before.window(),
        after.observed() == (if before.observed() == u64::MAX {
            before.observed() as int
        } else {
            before.observed() + 1
        }),
        after.recent().len() == (if before.recent().len() + 1 <= before.window() {
            (before.recent().len() + 1) as int
        } else {
            before.window() as int
        }),
        after.recent().len() > 0 ==> after.recent().last() == (RecordView {
            action: request.action@,
            category: request.category,
            timestamp: request.timestamp,
        }),
        forall|i: int|
            0 <= i < after.recent().len() - 1 ==> #[trigger] after.recent()[i] == before.recent()[i + before.recent().len()
                + 1 - after.recent().len()],
        after.profile().contains_key(category) <==> exists|i: int|
            0 <= i < after.recent().len() && (#[trigger] after.recent()[i]).category == category,
        after.profile().contains_key(category) ==> after.profile()[category] == after.recent().filter(
            |x: RecordView| x.category == category,
        ).len(),
{
    let recent = after.recent();
    let test = of_category(category);
    assert(test =~= (|x: RecordView| x.category == category));
    crate::collections::lemma_filter_shape(recent, test);
    let at = crate::collections::lemma_filter_places(recent, test);
    if exists|i: int| 0 <= i < recent.len() && (#[trigger] recent[i]).category == category {
        let i = choose|i: int| 0 <= i < recent.len() && (#[trigger] recent[i]).category == category;
        assert(test(recent[i]));
        assert(at.contains(i));
    }
    if recent.filter(test).len() > 0 {
        assert(0 <= at[0] < recent.len() && test(recent[at[0]]));
    }
}

/// Before a hundred observations the score is 0.1, and there is none to hand out from then on. What is
/// normal is learned at that point from what was observed until then, this action among it, and what
/// is known to be normal stays.
pub proof fn law_normal_is_learned_once(
    before: AnomalyDetector,
    after: AnomalyDetector,
    request: &ActionRequest,
    r: Option<AnomalyScore>,
)
    requires
        exists|d: &mut AnomalyDetector|
            *d == before && *final(d) == after && #[trigger] call_ensures(AnomalyDetector::take_in, (d, request), r),
    ensures
        r is Some <==> after.observed() < 100,
        r matches Some(s) ==> s.value.bits == 0x3FB9_9999_9999_999A && s.reason@ == "insufficient-samples"@,
        before.normal() is Some ==> after.normal() == before.normal() && after.kept() == before.kept(),
        before.normal() is None ==> {
            let record = RecordView {
                action: request.action@,
                category: request.category,
                timestamp: request.timestamp,
            };
            let past = if before.kept().len() < 100 {
                before.kept().push(record)
            } else {
                before.kept()
            };
            &&& after.observed() < 100 ==> after.normal() is None && after.kept() == past
            &&& after.observed() >= 100 ==> {
                &&& after.kept().len() == 0
                &&& after.normal() matches Some(BehaviorBaseline::Learned { category_counts, total })
                &&& total == past.len()
                &&& forall|c: ActionCategory| #[trigger]
                    category_counts@.contains_key(c) ==> category_counts@[c] == past.filter(
                        |x: RecordView| x.category == c,
                    ).len()
                &&& forall|i: int| 0 <= i < past.len() ==> category_counts@.contains_key((#[trigger] past[i]).category)
            }
        },
{
    if before.normal() is None && after.observed() >= 100 {
        let past = history_after(before.kept(), record_of(request), false);
        assert(past.len() > 0);
        assert forall|c: ActionCategory| #[trigger] tallied(past).contains_key(c) implies tallied(past)[c] == past.filter(
            |x: RecordView| x.category == c,
        ).len() by {
            assert(of_category(c) =~= (|x: RecordView| x.category == c));
            crate::collections::lemma_filter_shape(past, of_category(c));
            assert(past.len() <= u64::MAX) by {
                assert(learned_from(after.normal(), past));
            }
        }
        assert forall|i: int| 0 <= i < past.len() implies tallied(past).contains_key((#[trigger] past[i]).category) by {
            let at = crate::collections::lemma_filter_places(past, of_category(past[i].category));
            assert(of_category(past[i].category)(past[i]));
            assert(at.contains(i));
        }
    }
}

/// A deviation above 0.7 is called high, one above 0.4 moderate, and any other normal; it is handed on
/// as it is.
pub proof fn law_deviations_are_called(deviation: Score, r: AnomalyScore)
    requires
        call_ensures(AnomalyScore::of_deviation, (deviation,), r),
    ensures
        r.value == deviation,
        (Score { bits: 0x3FE6_6666_6666_6666 }).below(deviation) ==> r.reason@ == "high-pattern-deviation"@,
        !(Score { bits: 0x3FE6_6666_6666_6666 }).below(deviation) && (Score { bits: 0x3FD9_9999_9999_999A }).below(
            deviation,
        ) ==> r.reason@ == "moderate-pattern-deviation"@,
        !(Score { bits: 0x3FD9_9999_9999_999A }).below(deviation) ==> r.reason@ == "normal"@,
{
}

/// A new detector has seen nothing, and has room for twenty actions unless it is told otherwise.
pub proof fn law_new_detector_has_seen_nothing(window_size: usize, r: AnomalyDetector, d: AnomalyDetector, ready: bool)
    requires
        call_ensures(AnomalyDetector::new, (window_size,), r),
        call_ensures(AnomalyDetector::default, (), d),
        call_ensures(AnomalyDetector::is_baseline_ready, (&d,), ready),
    ensures
        r.window() == window_size && d.window() == 20,
        r.recent().len() == 0 && d.recent().len() == 0,
        r.observed() == 0 && d.observed() == 0,
        r.normal() is None && d.normal() is None,
        !ready,
{
}

/// An action that is observed is taken in, and how unusual it is is said: as the host computes it from
/// the detector once that is ready, and until then a tenth, for want of samples.
pub proof fn law_observed_action<D: Fn(&AnomalyDetector) -> Score>(
    before: AnomalyDetector,
    after: AnomalyDetector,
    request: &ActionRequest,
    deviation: D,
    r: AnomalyScore,
    ready: bool,
)
    requires
        exists|d: &mut AnomalyDetector|
            *d == before && *final(d) == after && #[trigger] call_ensures(
                AnomalyDetector::observe::<D>,
                (d, request, deviation),
                r,
            ),
        ready <==> after.observed() >= 100,
    ensures
        ready ==> call_ensures(deviation, (&after,), r.value),
        !ready ==> r.value.bits == 0x3FB9_9999_9999_999A && r.reason@ == "insufficient-samples"@,
        ready && (Score { bits: 0x3FE6_6666_6666_6666 }).below(r.value) ==> r.reason@ == "high-pattern-deviation"@,
        ready && !(Score { bits: 0x3FD9_9999_9999_999A }).below(r.value) ==> r.reason@ == "normal"@,
        after.window() == before.window(),
        before.observed() < u64::MAX ==> after.observed() == before.observed() + 1,
        after.recent().len() > 0 ==> after.recent().last() == (RecordView {
            action: request.action@,
            category: request.category,
            timestamp: request.timestamp,
        }),
{
}

/// What is normal is learned anew exactly if there were a hundred observations and some are kept: it is
/// how often each category is among those that are kept.
pub proof fn law_normal_is_what_is_kept(before: AnomalyDetector, after: AnomalyDetector)
    requires
        exists|d: &mut AnomalyDetector|
            *d == before && *final(d) == after && #[trigger] call_ensures(
                AnomalyDetector::build_baseline_from_history,
                (d,),
                (),
            ),
    ensures
        before.observed() < 100 || before.kept().len() == 0 ==> after.normal() == before.normal(),
        before.observed() >= 100 && before.kept().len() > 0 ==> {
            &&& after.normal() matches Some(BehaviorBaseline::Learned { category_counts, total })
            &&& total == before.kept().len()
            &&& forall|c: ActionCategory| #[trigger]
                category_counts@.contains_key(c) ==> category_counts@[c] == before.kept().filter(
                    |x: RecordView| x.category == c,
                ).len()
            &&& forall|i: int|
                0 <= i < before.kept().len() ==> category_counts@.contains_key((#[trigger] before.kept()[i]).category)
        },
        after.recent() == before.recent() && after.observed() == before.observed() && after.kept() == before.kept(),
{
    if before.observed() >= 100 && before.kept().len() > 0 {
        let past = before.kept();
        assert forall|c: ActionCategory| #[trigger] tallied(past).contains_key(c) implies tallied(past)[c] == past.filter(
            |x: RecordView| x.category == c,
        ).len() by {
            assert(of_category(c) =~= (|x: RecordView| x.category == c));
            crate::collections::lemma_filter_shape(past, of_category(c));
            assert(past.len() <= u64::MAX) by {
                assert(learned_from(after.normal(), past));
            }
        }
        assert forall|i: int| 0 <= i < past.len() implies tallied(past).contains_key((#[trigger] past[i]).category) by {
            let at = crate::collections::lemma_filter_places(past, of_category(past[i].category));
            assert(of_category(past[i].category)(past[i]));
            assert(at.contains(i));
        }
    }
}

/// A detector that is given what is normal goes by it and forgets nothing of what it has seen; what it shows is
/// what it holds.
pub proof fn law_given_baseline_is_kept(
    before: AnomalyDetector,
    baseline: BehaviorBaseline,
    after: AnomalyDetector,
    shown: &Option<BehaviorBaseline>,
    seen: u64,
    recent: &VecDeque<ActionRecord>,
)
    requires
        call_ensures(AnomalyDetector::with_baseline, (before, baseline), after),
        call_ensures(AnomalyDetector::baseline, (&after,), shown),
        call_ensures(AnomalyDetector::total_observed, (&after,), seen),
        call_ensures(AnomalyDetector::recent_actions, (&after,), recent),
    ensures
        *shown == Some(baseline),
        seen == before.observed(),
        recent@.len() == before.recent().len(),
        after.recent() == before.recent() && after.window() == before.window() && after.kept() == before.kept(),
{
    assert(records_shown(recent@).len() == recent@.len());
}

} // verus!
