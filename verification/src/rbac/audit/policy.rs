//! Rules over recorded decisions, and the alerts that they raise.
use crate::collections::{keep_where, Table};
use crate::error::KirinoError;
use crate::rbac::audit::entry::{ActionView, AuditAction, AuditCondition, AuditEntry, EntryView};
use crate::rbac::audit::sink::{AuditFilter, AuditSink, FilterView};
use crate::text::same_text;
use crate::time::utc_now;
use vstd::prelude::*;

verus! {

/// When the condition holds and the cooldown has passed, the action is asked for.
pub struct AuditRule {
    /// Identifier; firings are remembered by it.
    pub id: String,
    /// Name for people.
    pub name: String,
    /// A rule that is not enabled is passed over.
    pub enabled: bool,
    /// Which entries it is about.
    pub condition: AuditCondition,
    /// What it asks for.
    pub action: AuditAction,
    /// Seconds that pass at least between two firings under this identifier.
    pub cooldown_secs: u64,
}

/// A rule that fired.
pub struct AuditAlert {
    /// Identifier of the rule.
    pub rule_id: String,
    /// Name of the rule.
    pub rule_name: String,
    /// What it asks for.
    pub action: AuditAction,
    /// The entry that it fired on.
    pub triggering_entry: AuditEntry,
    /// When it fired.
    pub created_at: i128,
}

/// An alert with its texts as characters.
pub struct AlertView {
    /// See [`AuditAlert::rule_id`].
    pub rule_id: Seq<char>,
    /// See [`AuditAlert::rule_name`].
    pub rule_name: Seq<char>,
    /// See [`AuditAlert::action`].
    pub action: ActionView,
    /// See [`AuditAlert::triggering_entry`].
    pub triggering_entry: EntryView,
    /// See [`AuditAlert::created_at`].
    pub created_at: i128,
}

impl View for AuditAlert {
    type V = AlertView;

    open spec fn view(&self) -> AlertView {
        AlertView {
            rule_id: self.rule_id@,
            rule_name: self.rule_name@,
            action: self.action@,
            triggering_entry: self.triggering_entry@,
            created_at: self.created_at,
        }
    }
}

/// Alerts with their texts as characters.
pub open spec fn alerts_shown(alerts: Seq<AuditAlert>) -> Seq<AlertView> {
    Seq::new(alerts.len(), |i: int| alerts[i]@)
}

/// Whole seconds from one moment to another, cut off towards zero.
pub open spec fn seconds_between(from: i128, to: i128) -> int {
    if to >= from {
        (to - from) / 1_000_000_000
    } else {
        -((from - to) / 1_000_000_000)
    }
}

/// Whether a rule can fire at a moment, given when each identifier last fired.
pub open spec fn due(rule: AuditRule, last: Map<Seq<char>, i128>, now: i128) -> bool {
    rule.enabled && (last.contains_key(rule.id@) ==> seconds_between(last[rule.id@], now) >= rule.cooldown_secs)
}

/// Whether an entry meets the condition of a rule. Where that takes a history, the number of
/// denials in it is given; without a history it is never met.
pub open spec fn matched(rule: AuditRule, e: EntryView, denials: Option<u64>) -> bool {
    match rule.condition {
        AuditCondition::RapidDenials { window_secs, min_count } => denials is Some && denials->Some_0 >= min_count,
        other => other.met(e),
    }
}

/// Whether a rule fires.
pub open spec fn fires(rule: AuditRule, e: EntryView, denials: Option<u64>, last: Map<Seq<char>, i128>, now: i128) -> bool {
    due(rule, last, now) && matched(rule, e, denials)
}

/// When each identifier last fired, after the first rules were gone through.
pub open spec fn times_after(
    rules: Seq<AuditRule>,
    n: int,
    e: EntryView,
    denials: Seq<Option<u64>>,
    last: Map<Seq<char>, i128>,
    now: i128,
) -> Map<Seq<char>, i128>
    decreases n,
{
    if n <= 0 {
        last
    } else {
        let so_far = times_after(rules, n - 1, e, denials, last, now);
        if fires(rules[n - 1], e, denials[n - 1], so_far, now) {
            so_far.insert(rules[n - 1].id@, now)
        } else {
            so_far
        }
    }
}

/// The alert of a rule that fires.
pub open spec fn alert_of(rule: AuditRule, e: EntryView, now: i128) -> AlertView {
    AlertView {
        rule_id: rule.id@,
        rule_name: rule.name@,
        action: rule.action@,
        triggering_entry: e,
        created_at: now,
    }
}

/// The alerts of the first rules, each rule taken after those before it.
pub open spec fn alerts_after(
    rules: Seq<AuditRule>,
    n: int,
    e: EntryView,
    denials: Seq<Option<u64>>,
    last: Map<Seq<char>, i128>,
    now: i128,
) -> Seq<AlertView>
    decreases n,
{
    if n <= 0 {
        Seq::empty()
    } else {
        let so_far = alerts_after(rules, n - 1, e, denials, last, now);
        if fires(rules[n - 1], e, denials[n - 1], times_after(rules, n - 1, e, denials, last, now), now) {
            so_far.push(alert_of(rules[n - 1], e, now))
        } else {
            so_far
        }
    }
}

/// What is asked of the history: the denials of the entry's subject since the window began.
pub open spec fn recent_denials(e: EntryView, window_secs: u64, now: i128) -> FilterView {
    FilterView {
        subject_id: Some(e.subject_id),
        granted: Some(false),
        permission: None,
        since: Some((now - window_secs * 1_000_000_000) as i128),
        until: None,
        min_risk: None,
        limit: None,
    }
}

/// A history: how many entries pass each filter.
pub type History = spec_fn(FilterView) -> u64;

/// The history that a sink holds.
pub open spec fn history_of<K: AuditSink>(sink: &K) -> History {
    |f: FilterView| sink.counted(f)
}

/// The denials in a history that count for a rule.
pub open spec fn denials_for(rule: AuditRule, e: EntryView, past: History, now: i128) -> Option<u64> {
    match rule.condition {
        AuditCondition::RapidDenials { window_secs, min_count } => Some(past(recent_denials(e, window_secs, now))),
        _ => None,
    }
}

/// The denials that are counted for each rule.
pub open spec fn denials_counted(
    rules: Seq<AuditRule>,
    e: EntryView,
    past: History,
    reads_history: bool,
    now: i128,
) -> Seq<Option<u64>> {
    Seq::new(
        rules.len(),
        |i: int|
            if reads_history {
                denials_for(rules[i], e, past, now)
            } else {
                None
            },
    )
}

/// The test by which rules stay when an identifier is removed.
pub open spec fn other_rule(rule_id: Seq<char>) -> spec_fn(AuditRule) -> bool {
    |rule: AuditRule| rule.id@ != rule_id
}

impl AuditRule {
    /// What the history has to be asked for this rule, if it takes one.
    pub fn history_filter(&self, entry: &AuditEntry, now: i128) -> (r: Option<AuditFilter>)
        requires
            crate::time::is_moment(now),
        ensures
            match self.condition {
                AuditCondition::RapidDenials { window_secs, min_count } => r is Some && r->Some_0@ == recent_denials(
                    entry@,
                    window_secs,
                    now,
                ),
                _ => r is None,
            },
    {
        match &self.condition {
            AuditCondition::RapidDenials { window_secs, min_count: _ } => {
                let since: i128 = now - (*window_secs as i128) * 1_000_000_000;
                Some(
                    AuditFilter {
                        subject_id: Some(entry.subject_id.clone()),
                        granted: Some(false),
                        permission: None,
                        since: Some(since),
                        until: None,
                        min_risk: None,
                        limit: None,
                    },
                )
            },
            _ => None,
        }
    }

    /// Whether an entry meets the condition, given the denials in the history.
    fn matches(&self, entry: &AuditEntry, denials: Option<u64>) -> (r: bool)
        ensures
            r == matched(*self, entry@, denials),
    {
        match &self.condition {
            AuditCondition::RapidDenials { window_secs: _, min_count } => match denials {
                Some(n) => n >= *min_count as u64,
                None => false,
            },
            other => other.evaluate(entry),
        }
    }
}

/// Rules over entries.
///
/// An entry is recorded before it comes here, and no rule changes it.
pub trait AuditPolicyEngine: Sized {
    /// Whether the value is well formed.
    open spec fn valid(&self) -> bool {
        true
    }

    /// The rules.
    open spec fn held_rules(&self) -> Seq<AuditRule> {
        arbitrary()
    }

    /// Whether going through the rules with an entry at a moment can lead to another state and to
    /// some alerts.
    open spec fn raised(
        &self,
        after: &Self,
        e: EntryView,
        past: History,
        alerts: Seq<AlertView>,
        now: i128,
    ) -> bool {
        true
    }

    /// Goes through the rules with an entry at a moment; the sink is the history.
    fn evaluate_at<K: AuditSink>(&mut self, entry: &AuditEntry, sink: &K, now: i128) -> (r: Vec<AuditAlert>)
        requires
            old(self).valid(),
            sink.wf(),
            crate::time::is_moment(now),
        ensures
            final(self).valid(),
            final(self).held_rules() == old(self).held_rules(),
            old(self).raised(final(self), entry@, history_of(sink), alerts_shown(r@), now),
    ;

    /// Adds a rule behind the others.
    fn add_rule(&mut self, rule: AuditRule)
        requires
            old(self).valid(),
            rule.action.wf(),
        ensures
            final(self).valid(),
            final(self).held_rules() == old(self).held_rules().push(rule),
    ;

    /// Removes every rule with an identifier; false where there was none.
    fn remove_rule(&mut self, rule_id: &str) -> (r: Result<bool, KirinoError>)
        requires
            old(self).valid(),
        ensures
            final(self).valid(),
            r matches Ok(found) ==> found == (exists|i: int|
                0 <= i < old(self).held_rules().len() && (#[trigger] old(self).held_rules()[i]).id@ == rule_id@),
            r is Ok ==> final(self).held_rules() == old(self).held_rules().filter(other_rule(rule_id@)),
            r is Err ==> final(self).held_rules() == old(self).held_rules(),
    ;

    /// The rules.
    fn list_rules(&self) -> (r: &Vec<AuditRule>)
        ensures
            r@ == self.held_rules(),
    ;
}

/// Rules in memory, and when each identifier last fired.
pub struct InMemoryAuditPolicyEngine {
    rules: Vec<AuditRule>,
    last_triggered: Table<String, i128>,
    reads_history: bool,
}

impl InMemoryAuditPolicyEngine {
    /// The rules.
    pub closed spec fn rules(&self) -> Seq<AuditRule> {
        self.rules@
    }

    /// When each identifier last fired.
    pub closed spec fn last(&self) -> Map<Seq<char>, i128> {
        self.last_triggered@
    }

    /// Whether conditions on the history are looked up.
    pub closed spec fn history(&self) -> bool {
        self.reads_history
    }

    /// Whether the value is well formed.
    pub closed spec fn wf(&self) -> bool {
        &&& self.last_triggered.wf()
        &&& forall|k: Seq<char>| #[trigger] self.last().contains_key(k) ==> crate::time::is_moment(self.last()[k])
        &&& forall|i: int| 0 <= i < self.rules().len() ==> (#[trigger] self.rules()[i]).action.wf()
    }

    /// An engine without rules, to which no condition on the history is ever met.
    #[must_use]
    pub fn new() -> (r: Self)
        ensures
            r.wf(),
            r.rules() == Seq::<AuditRule>::empty(),
            r.last() == Map::<Seq<char>, i128>::empty(),
            !r.history(),
    {
        InMemoryAuditPolicyEngine { rules: Vec::new(), last_triggered: Table::new(), reads_history: false }
    }

    /// An engine without rules that looks conditions on the history up in the sink that comes
    /// with each entry.
    #[must_use]
    pub fn with_sink() -> (r: Self)
        ensures
            r.wf(),
            r.rules() == Seq::<AuditRule>::empty(),
            r.last() == Map::<Seq<char>, i128>::empty(),
            r.history(),
    {
        InMemoryAuditPolicyEngine { rules: Vec::new(), last_triggered: Table::new(), reads_history: true }
    }

    /// Adds a rule behind the others.
    pub fn add_rule(&mut self, rule: AuditRule)
        requires
            old(self).wf(),
            rule.action.wf(),
        ensures
            final(self).wf(),
            final(self).rules() == old(self).rules().push(rule),
            final(self).last() == old(self).last(),
            final(self).history() == old(self).history(),
    {
        self.rules.push(rule);
        assert(self.last() == old(self).last());
    }

    /// Removes every rule with an identifier; false where there was none.
    pub fn remove_rule(&mut self, rule_id: &str) -> (r: Result<bool, KirinoError>)
        requires
            old(self).wf(),
        ensures
            final(self).wf(),
            final(self).rules() == old(self).rules().filter(other_rule(rule_id@)),
            final(self).last() == old(self).last(),
            final(self).history() == old(self).history(),
            r is Ok,
            r->Ok_0 == exists|i: int| 0 <= i < old(self).rules().len() && (#[trigger] old(self).rules()[i]).id@ == rule_id@,
    {
        let ghost all = self.rules@;
        let before: usize = self.rules.len();
        let mut rules: Vec<AuditRule> = Vec::new();
        std::mem::swap(&mut rules, &mut self.rules);
        let keep = |rule: &AuditRule| -> (b: bool)
            ensures
                b == (rule.id@ != rule_id@),
            { !same_text(rule.id.as_str(), rule_id) };
        self.rules = keep_where(rules, keep, Ghost(other_rule(rule_id@)));
        proof {
            crate::collections::lemma_filter_shape(all, other_rule(rule_id@));
            assert(self.last() == old(self).last());
            let at = choose|at: spec_fn(int) -> int| crate::collections::filtered_from(all, self.rules@, at);
            assert forall|i: int| 0 <= i < self.rules().len() implies (#[trigger] self.rules()[i]).action.wf() by {
                assert(self.rules()[i] == old(self).rules()[at(i)]);
            }
            if self.rules@.len() < all.len() {
                let i = choose|i: int| 0 <= i < all.len() && !other_rule(rule_id@)(#[trigger] all[i]);
                assert(old(self).rules()[i].id@ == rule_id@);
            } else {
                assert forall|i: int| 0 <= i < all.len() implies (#[trigger] all[i]).id@ != rule_id@ by {
                    assert(other_rule(rule_id@)(all[i]));
                }
            }
        }
        Ok(self.rules.len() < before)
    }

    /// The rules.
    pub fn list_rules(&self) -> (r: &Vec<AuditRule>)
        ensures
            r@ == self.rules(),
    {
        &self.rules
    }

    /// Whether a rule can fire at a moment.
    fn is_due(&self, i: usize, now: i128) -> (r: bool)
        requires
            self.wf(),
            i < self.rules().len(),
            crate::time::is_moment(now),
        ensures
            r == due(self.rules()[i as int], self.last(), now),
    {
        let rule = &self.rules[i];
        if !rule.enabled {
            return false;
        }
        match self.last_triggered.get(&rule.id) {
            Some(last) => {
                assert(self.last().contains_key(rule.id@) && *last == self.last()[rule.id@]);
                let elapsed: i128 = now - *last;
                let secs: i128 = if elapsed >= 0 {
                    elapsed / 1_000_000_000
                } else {
                    -((-elapsed) / 1_000_000_000)
                };
                secs >= rule.cooldown_secs as i128
            },
            None => true,
        }
    }

    /// Goes through the rules with an entry, given the denials that were counted for each rule
    /// that takes a history.
    pub fn evaluate_counted(&mut self, entry: &AuditEntry, denials: &Vec<Option<u64>>, now: i128) -> (r: Vec<AuditAlert>)
        requires
            old(self).wf(),
            denials@.len() == old(self).rules().len(),
            crate::time::is_moment(now),
        ensures
            final(self).wf(),
            final(self).rules() == old(self).rules(),
            final(self).history() == old(self).history(),
            final(self).last() == times_after(
                old(self).rules(),
                old(self).rules().len() as int,
                entry@,
                denials@,
                old(self).last(),
                now,
            ),
            alerts_shown(r@) == alerts_after(
                old(self).rules(),
                old(self).rules().len() as int,
                entry@,
                denials@,
                old(self).last(),
                now,
            ),
    {
        let ghost rules = self.rules();
        let ghost last = self.last();
        let mut alerts: Vec<AuditAlert> = Vec::new();
        let mut i: usize = 0;
        assert(alerts_shown(alerts@) =~= Seq::<AlertView>::empty());
        while i < self.rules.len()
            invariant
                self.wf(),
                self.rules() == rules,
                self.history() == old(self).history(),
                denials@.len() == rules.len(),
                crate::time::is_moment(now),
                i <= rules.len(),
                self.last() == times_after(rules, i as int, entry@, denials@, last, now),
                alerts_shown(alerts@) == alerts_after(rules, i as int, entry@, denials@, last, now),
            decreases rules.len() - i,
        {
            let ghost before = alerts_shown(alerts@);
            let ghost times = self.last();
            let ghost rule = rules[i as int];
            if self.is_due(i, now) && self.rules[i].matches(entry, denials[i]) {
                let rule = &self.rules[i];
                let alert = AuditAlert {
                    rule_id: rule.id.clone(),
                    rule_name: rule.name.clone(),
                    action: rule.action.duplicate(),
                    triggering_entry: entry.duplicate(),
                    created_at: now,
                };
                let id = rule.id.clone();
                let _ = self.last_triggered.insert(id, now);
                alerts.push(alert);
                proof {
                    assert(self.rules() == rules);
                    assert(self.last() == times.insert(rules[i as int].id@, now));
                    assert(alerts_shown(alerts@) =~= before.push(alert_of(rules[i as int], entry@, now)));
                    assert forall|k: Seq<char>| #[trigger] self.last().contains_key(k) implies crate::time::is_moment(
                        self.last()[k],
                    ) by {
                        assert(k == rules[i as int].id@ || times.contains_key(k));
                    }
                }
            }
            i = i + 1;
        }
        alerts
    }

    /// The denials that a sink counts for each rule that takes a history.
    fn count_denials<K: AuditSink>(&self, entry: &AuditEntry, sink: &K, now: i128) -> (r: Vec<Option<u64>>)
        requires
            self.wf(),
            sink.wf(),
            crate::time::is_moment(now),
        ensures
            r@ == denials_counted(self.rules(), entry@, history_of(sink), self.history(), now),
    {
        let mut r: Vec<Option<u64>> = Vec::new();
        let mut i: usize = 0;
        let ghost all = denials_counted(self.rules(), entry@, history_of(sink), self.history(), now);
        while i < self.rules.len()
            invariant
                sink.wf(),
                crate::time::is_moment(now),
                i <= self.rules().len(),
                all == denials_counted(self.rules(), entry@, history_of(sink), self.history(), now),
                r@.len() == i,
                forall|j: int| 0 <= j < i ==> #[trigger] r@[j] == all[j],
            decreases self.rules().len() - i,
        {
            let n: Option<u64> = if self.reads_history {
                match self.rules[i].history_filter(entry, now) {
                    Some(filter) => Some(sink.count(&filter)),
                    None => None,
                }
            } else {
                None
            };
            r.push(n);
            i = i + 1;
        }
        assert(r@ =~= all);
        r
    }

    /// Goes through the rules with an entry at a moment.
    pub fn evaluate_at<K: AuditSink>(&mut self, entry: &AuditEntry, sink: &K, now: i128) -> (r: Vec<AuditAlert>)
        requires
            old(self).wf(),
            sink.wf(),
            crate::time::is_moment(now),
        ensures
            final(self).wf(),
            evaluated(old(self), final(self), entry@, history_of(sink), alerts_shown(r@), now),
    {
        let denials = self.count_denials(entry, sink, now);
        self.evaluate_counted(entry, &denials, now)
    }

    /// Goes through the rules with an entry.
    pub fn evaluate<K: AuditSink>(&mut self, entry: &AuditEntry, sink: &K) -> (r: Vec<AuditAlert>)
        requires
            old(self).wf(),
            sink.wf(),
        ensures
            final(self).wf(),
            exists|now: i128| #[trigger]
                crate::time::is_now(now) && evaluated(
                    old(self),
                    final(self),
                    entry@,
                    history_of(sink),
                    alerts_shown(r@),
                    now,
                ),
    {
        let now: i128 = utc_now();
        self.evaluate_at(entry, sink, now)
    }
}

/// Whether one engine came from another by going through the rules with an entry.
pub open spec fn evaluated(
    from: &InMemoryAuditPolicyEngine,
    to: &InMemoryAuditPolicyEngine,
    e: EntryView,
    past: History,
    alerts: Seq<AlertView>,
    now: i128,
) -> bool {
    let denials = denials_counted(from.rules(), e, past, from.history(), now);
    let n = from.rules().len() as int;
    &&& to.rules() == from.rules()
    &&& to.history() == from.history()
    &&& to.last() == times_after(from.rules(), n, e, denials, from.last(), now)
    &&& alerts == alerts_after(from.rules(), n, e, denials, from.last(), now)
}

impl AuditPolicyEngine for InMemoryAuditPolicyEngine {
    open spec fn valid(&self) -> bool {
        self.wf()
    }

    open spec fn held_rules(&self) -> Seq<AuditRule> {
        self.rules()
    }

    open spec fn raised(
        &self,
        after: &Self,
        e: EntryView,
        past: History,
        alerts: Seq<AlertView>,
        now: i128,
    ) -> bool {
        evaluated(self, after, e, past, alerts, now)
    }

    fn evaluate_at<K: AuditSink>(&mut self, entry: &AuditEntry, sink: &K, now: i128) -> (r: Vec<AuditAlert>) {
        InMemoryAuditPolicyEngine::evaluate_at(self, entry, sink, now)
    }

    fn add_rule(&mut self, rule: AuditRule) {
        InMemoryAuditPolicyEngine::add_rule(self, rule)
    }

    fn remove_rule(&mut self, rule_id: &str) -> (r: Result<bool, KirinoError>) {
        InMemoryAuditPolicyEngine::remove_rule(self, rule_id)
    }

    fn list_rules(&self) -> (r: &Vec<AuditRule>) {
        InMemoryAuditPolicyEngine::list_rules(self)
    }
}

impl Default for InMemoryAuditPolicyEngine {
    /// An engine without rules, to which no condition on the history is ever met.
    fn default() -> (r: Self)
        ensures
            r.wf(),
            r.rules() == Seq::<AuditRule>::empty(),
            r.last() == Map::<Seq<char>, i128>::empty(),
            !r.history(),
    {
        Self::new()
    }
}

/// A rule that is not enabled never fires.
pub proof fn law_disabled_rule_never_fires(
    rule: AuditRule,
    e: EntryView,
    denials: Option<u64>,
    last: Map<Seq<char>, i128>,
    now: i128,
)
    requires
        !rule.enabled,
    ensures
        !fires(rule, e, denials, last, now),
{
}

/// Without a history no rule on a rapid series of denials fires.
pub proof fn law_rapid_denials_need_a_history(
    rule: AuditRule,
    e: EntryView,
    last: Map<Seq<char>, i128>,
    now: i128,
)
    requires
        rule.condition is RapidDenials,
    ensures
        !fires(rule, e, None, last, now),
{
}

/// Once an identifier has fired at a moment, no rule under it fires until the cooldown of that
/// rule has passed.
pub proof fn law_cooldown_suppresses(
    rule: AuditRule,
    e: EntryView,
    denials: Option<u64>,
    last: Map<Seq<char>, i128>,
    then: i128,
    now: i128,
)
    requires
        then <= now < then + rule.cooldown_secs * 1_000_000_000,
    ensures
        !fires(rule, e, denials, last.insert(rule.id@, then), now),
{
}

/// A rule without a cooldown that is enabled fires on every match, as long as time does not go
/// back.
pub proof fn law_no_cooldown_fires_on_every_match(
    rule: AuditRule,
    e: EntryView,
    denials: Option<u64>,
    last: Map<Seq<char>, i128>,
    now: i128,
)
    requires
        rule.enabled,
        rule.cooldown_secs == 0,
        matched(rule, e, denials),
        last.contains_key(rule.id@) ==> last[rule.id@] <= now,
    ensures
        fires(rule, e, denials, last, now),
{
}

/// Each alert names the entry and the moment at hand, and a rule that is held.
pub proof fn law_alerts_come_from_rules(
    rules: Seq<AuditRule>,
    n: int,
    e: EntryView,
    denials: Seq<Option<u64>>,
    last: Map<Seq<char>, i128>,
    now: i128,
    k: int,
)
    requires
        0 <= n <= rules.len(),
        0 <= k < alerts_after(rules, n, e, denials, last, now).len(),
    ensures
        exists|i: int|
            0 <= i < n && matched(#[trigger] rules[i], e, denials[i]) && rules[i].enabled && alerts_after(
                rules,
                n,
                e,
                denials,
                last,
                now,
            )[k] == alert_of(rules[i], e, now),
    decreases n,
{
    if n > 0 {
        let so_far = alerts_after(rules, n - 1, e, denials, last, now);
        if k < so_far.len() {
            law_alerts_come_from_rules(rules, n - 1, e, denials, last, now, k);
        } else {
            assert(matched(rules[n - 1], e, denials[n - 1]));
        }
    }
}

/// Whether the time since an identifier last fired, in whole seconds, is at least a cooldown. Where
/// time went back, only a step of less than a second and no cooldown will do.
pub open spec fn has_cooled(then: i128, now: i128, cooldown_secs: u64) -> bool {
    if then <= now {
        now - then >= cooldown_secs * 1_000_000_000
    } else {
        cooldown_secs == 0 && then - now < 1_000_000_000
    }
}

/// Whether a rule is to fire on an entry: it is enabled, its identifier has not fired within the
/// cooldown, and the entry meets the condition. A rapid series of denials is met where the history is
/// read, and at least as many entries of it as asked for are denials of the same subject that are no
/// older than the window.
pub open spec fn is_to_fire(
    rule: AuditRule,
    reads_history: bool,
    last: Map<Seq<char>, i128>,
    held: Seq<EntryView>,
    e: EntryView,
    now: i128,
) -> bool {
    &&& rule.enabled
    &&& last.contains_key(rule.id@) ==> has_cooled(last[rule.id@], now, rule.cooldown_secs)
    &&& match rule.condition {
        AuditCondition::RapidDenials { window_secs, min_count } => reads_history && held.filter(
            |past: EntryView|
                past.subject_id == e.subject_id && !past.granted && past.created_at >= now - window_secs * 1_000_000_000,
        ).len() >= min_count,
        other => other.met(e),
    }
}

/// Whether alerts are those of the rules at some places: each names the rule, what it asks for, the
/// entry and the moment.
pub open spec fn are_alerts_of(
    alerts: Seq<AuditAlert>,
    rules: Seq<AuditRule>,
    at: Seq<int>,
    entry: AuditEntry,
    now: i128,
) -> bool {
    &&& at.len() == alerts.len()
    &&& forall|j: int, k: int| 0 <= j < k < at.len() ==> #[trigger] at[j] < #[trigger] at[k]
    &&& forall|k: int|
        0 <= k < at.len() ==> {
            &&& 0 <= #[trigger] at[k] < rules.len()
            &&& alerts[k].rule_id@ == rules[at[k]].id@
            &&& alerts[k].rule_name@ == rules[at[k]].name@
            &&& alerts[k].action@ == rules[at[k]].action@
            &&& alerts[k].triggering_entry@ == entry@
            &&& alerts[k].created_at == now
        }
}

proof fn lemma_alerts_in_order(
    rules: Seq<AuditRule>,
    n: int,
    e: EntryView,
    denials: Seq<Option<u64>>,
    last: Map<Seq<char>, i128>,
    now: i128,
) -> (at: Seq<int>)
    requires
        0 <= n <= rules.len(),
        denials.len() == rules.len(),
        forall|i: int, j: int| 0 <= i < j < rules.len() ==> (#[trigger] rules[i]).id@ != (#[trigger] rules[j]).id@,
    ensures
        at.len() == alerts_after(rules, n, e, denials, last, now).len(),
        forall|j: int, k: int| 0 <= j < k < at.len() ==> #[trigger] at[j] < #[trigger] at[k],
        forall|k: int|
            0 <= k < at.len() ==> 0 <= #[trigger] at[k] < n && fires(rules[at[k]], e, denials[at[k]], last, now)
                && alerts_after(rules, n, e, denials, last, now)[k] == alert_of(rules[at[k]], e, now),
        forall|i: int| 0 <= i < n && fires(#[trigger] rules[i], e, denials[i], last, now) ==> at.contains(i),
        forall|i: int|
            n <= i < rules.len() ==> {
                &&& times_after(rules, n, e, denials, last, now).contains_key((#[trigger] rules[i]).id@)
                    == last.contains_key(rules[i].id@)
                &&& times_after(rules, n, e, denials, last, now)[rules[i].id@] == last[rules[i].id@]
            },
        forall|i: int|
            0 <= i < n ==> {
                let times = times_after(rules, n, e, denials, last, now);
                let id = (#[trigger] rules[i]).id@;
                if fires(rules[i], e, denials[i], last, now) {
                    times.contains_key(id) && times[id] == now
                } else {
                    times.contains_key(id) == last.contains_key(id) && times[id] == last[id]
                }
            },
    decreases n,
{
    if n == 0 {
        Seq::empty()
    } else {
        let before = lemma_alerts_in_order(rules, n - 1, e, denials, last, now);
        let times = times_after(rules, n - 1, e, denials, last, now);
        let rule = rules[n - 1];
        assert(times.contains_key(rule.id@) == last.contains_key(rule.id@) && times[rule.id@] == last[rule.id@]);
        assert(fires(rule, e, denials[n - 1], times, now) == fires(rule, e, denials[n - 1], last, now));
        if fires(rule, e, denials[n - 1], last, now) {
            let at = before.push(n - 1);
            assert forall|i: int| 0 <= i < n && fires(#[trigger] rules[i], e, denials[i], last, now) implies at.contains(
                i,
            ) by {
                if i < n - 1 {
                    let j = choose|j: int| 0 <= j < before.len() && before[j] == i;
                    assert(at[j] == i);
                } else {
                    assert(at[before.len() as int] == i);
                }
            }
            assert forall|j: int, k: int| 0 <= j < k < at.len() implies #[trigger] at[j] < #[trigger] at[k] by {
                if k < before.len() {
                    assert(before[j] < before[k]);
                } else {
                    assert(0 <= before[j] < n - 1);
                }
            }
            assert forall|k: int| 0 <= k < at.len() implies 0 <= #[trigger] at[k] < n && fires(
                rules[at[k]],
                e,
                denials[at[k]],
                last,
                now,
            ) && alerts_after(rules, n, e, denials, last, now)[k] == alert_of(rules[at[k]], e, now) by {
                if k < before.len() {
                    assert(at[k] == before[k]);
                }
            }
            at
        } else {
            before
        }
    }
}

/// Where no two rules share an identifier, an entry raises the alerts of exactly the rules that are to
/// fire on it, each once and in the order of the rules, and exactly those identifiers are remembered
/// as having fired now.
pub proof fn law_rules_fire_on_what_they_are_about(
    before: InMemoryAuditPolicyEngine,
    after: InMemoryAuditPolicyEngine,
    entry: &AuditEntry,
    sink: &crate::rbac::audit::sink::InMemoryAuditSink,
    now: i128,
    r: Vec<AuditAlert>,
)
    requires
        exists|engine: &mut InMemoryAuditPolicyEngine|
            *engine == before && *final(engine) == after && #[trigger] call_ensures(
                InMemoryAuditPolicyEngine::evaluate_at::<crate::rbac::audit::sink::InMemoryAuditSink>,
                (engine, entry, sink, now),
                r,
            ),
        sink.wf(),
        crate::time::is_moment(now),
        forall|i: int, j: int|
            0 <= i < j < before.rules().len() ==> (#[trigger] before.rules()[i]).id@ != (#[trigger] before.rules()[j]).id@,
    ensures
        after.rules() == before.rules(),
        exists|at: Seq<int>|
            {
                &&& #[trigger] are_alerts_of(r@, before.rules(), at, *entry, now)
                &&& forall|i: int|
                    0 <= i < before.rules().len() ==> (at.contains(i) <==> is_to_fire(
                        #[trigger] before.rules()[i],
                        before.history(),
                        before.last(),
                        sink.held(),
                        entry@,
                        now,
                    ))
            },
        forall|i: int|
            0 <= i < before.rules().len() ==> {
                let id = (#[trigger] before.rules()[i]).id@;
                if is_to_fire(before.rules()[i], before.history(), before.last(), sink.held(), entry@, now) {
                    after.last().contains_key(id) && after.last()[id] == now
                } else {
                    after.last().contains_key(id) == before.last().contains_key(id) && after.last()[id]
                        == before.last()[id]
                }
            },
{
    lemma_rules_fire(before, after, entry, sink, now, r@);
}

pub(crate) proof fn lemma_rules_fire(
    before: InMemoryAuditPolicyEngine,
    after: InMemoryAuditPolicyEngine,
    entry: &AuditEntry,
    sink: &crate::rbac::audit::sink::InMemoryAuditSink,
    now: i128,
    r: Seq<AuditAlert>,
)
    requires
        evaluated(&before, &after, entry@, history_of(sink), alerts_shown(r), now),
        sink.wf(),
        crate::time::is_moment(now),
        forall|i: int, j: int|
            0 <= i < j < before.rules().len() ==> (#[trigger] before.rules()[i]).id@ != (#[trigger] before.rules()[j]).id@,
    ensures
        after.rules() == before.rules(),
        exists|at: Seq<int>|
            {
                &&& #[trigger] are_alerts_of(r, before.rules(), at, *entry, now)
                &&& forall|i: int|
                    0 <= i < before.rules().len() ==> (at.contains(i) <==> is_to_fire(
                        #[trigger] before.rules()[i],
                        before.history(),
                        before.last(),
                        sink.held(),
                        entry@,
                        now,
                    ))
            },
        forall|i: int|
            0 <= i < before.rules().len() ==> {
                let id = (#[trigger] before.rules()[i]).id@;
                if is_to_fire(before.rules()[i], before.history(), before.last(), sink.held(), entry@, now) {
                    after.last().contains_key(id) && after.last()[id] == now
                } else {
                    after.last().contains_key(id) == before.last().contains_key(id) && after.last()[id]
                        == before.last()[id]
                }
            },
{
    let rules = before.rules();
    let e = entry@;
    let denials = denials_counted(rules, e, history_of(sink), before.history(), now);
    let at = lemma_alerts_in_order(rules, rules.len() as int, e, denials, before.last(), now);
    assert forall|i: int| 0 <= i < rules.len() implies fires(#[trigger] rules[i], e, denials[i], before.last(), now)
        == is_to_fire(rules[i], before.history(), before.last(), sink.held(), e, now) by {
        let rule = rules[i];
        if before.last().contains_key(rule.id@) {
            lemma_cooled(before.last()[rule.id@], now, rule.cooldown_secs);
        }
        if let AuditCondition::RapidDenials { window_secs, min_count } = rule.condition {
            let f = recent_denials(e, window_secs, now);
            let wanted = |past: EntryView|
                past.subject_id == e.subject_id && !past.granted && past.created_at >= now - window_secs * 1_000_000_000;
            assert(f.test() =~= wanted);
            crate::collections::lemma_filter_shape(sink.held(), wanted);
            crate::rbac::audit::sink::law_retention_is_bounded(sink);
        }
    }
    let shown = alerts_shown(r);
    assert forall|k: int| 0 <= k < at.len() implies {
        &&& 0 <= #[trigger] at[k] < rules.len()
        &&& r[k].rule_id@ == rules[at[k]].id@
        &&& r[k].rule_name@ == rules[at[k]].name@
        &&& r[k].action@ == rules[at[k]].action@
        &&& r[k].triggering_entry@ == entry@
        &&& r[k].created_at == now
    } by {
        assert(shown[k] == r[k]@);
    }
    assert(are_alerts_of(r, rules, at, *entry, now));
    assert forall|i: int| 0 <= i < rules.len() implies (at.contains(i) <==> is_to_fire(
        #[trigger] rules[i],
        before.history(),
        before.last(),
        sink.held(),
        e,
        now,
    )) by {
        if at.contains(i) {
            let k = choose|k: int| 0 <= k < at.len() && at[k] == i;
            assert(fires(rules[at[k]], e, denials[at[k]], before.last(), now));
        }
    }
}

proof fn lemma_cooled(then: i128, now: i128, cooldown_secs: u64)
    ensures
        seconds_between(then, now) >= cooldown_secs <==> has_cooled(then, now, cooldown_secs),
{
}

/// A rule that is added comes behind the others; removing an identifier takes exactly its rules away,
/// and tells whether there was one.
pub proof fn law_rules_are_added_and_removed(
    before: InMemoryAuditPolicyEngine,
    added: InMemoryAuditPolicyEngine,
    removed: InMemoryAuditPolicyEngine,
    rule: AuditRule,
    rule_id: &str,
    r: Result<bool, KirinoError>,
    x: AuditRule,
)
    requires
        exists|engine: &mut InMemoryAuditPolicyEngine|
            *engine == before && *final(engine) == added && #[trigger] call_ensures(
                InMemoryAuditPolicyEngine::add_rule,
                (engine, rule),
                (),
            ),
        exists|engine: &mut InMemoryAuditPolicyEngine|
            *engine == added && *final(engine) == removed && #[trigger] call_ensures(
                InMemoryAuditPolicyEngine::remove_rule,
                (engine, rule_id),
                r,
            ),
    ensures
        added.rules() == before.rules().push(rule),
        removed.rules().contains(x) <==> added.rules().contains(x) && x.id@ != rule_id@,
        r matches Ok(found) && (found <==> exists|i: int|
            0 <= i < added.rules().len() && (#[trigger] added.rules()[i]).id@ == rule_id@),
        rule.id@ == rule_id@ ==> r == Ok::<bool, KirinoError>(true),
{
    crate::collections::lemma_filter_contains(added.rules(), other_rule(rule_id@), x);
    assert(added.rules()[before.rules().len() as int] == rule);
}

/// A rule asks for a history exactly if it is about rapid denials; it asks for the denials of who acted,
/// for any permission and of any risk, from as many seconds ago as its window has.
pub proof fn law_history_that_is_asked_for(rule: &AuditRule, entry: &AuditEntry, now: i128, r: Option<AuditFilter>)
    requires
        call_ensures(AuditRule::history_filter, (rule, entry, now), r),
        crate::time::is_moment(now),
    ensures
        r is Some <==> rule.condition is RapidDenials,
        r matches Some(f) ==> {
            &&& f.granted == Some(false)
            &&& f.subject_id is Some && f.subject_id->Some_0@ == entry.subject_id@
            &&& f.permission is None && f.min_risk is None && f.until is None && f.limit is None
            &&& f.since is Some
            &&& rule.condition matches AuditCondition::RapidDenials { window_secs, .. } && f.since->Some_0 == now
                - window_secs * 1_000_000_000
        },
{
    if let Some(f) = r {
        assert(f@.subject_id == Some(entry.subject_id@));
        assert(f@.permission is None);
    }
}

/// Nothing of an alert is out of sight: two that look the same have the same parts.
pub proof fn law_alerts_that_look_the_same(a: AuditAlert, b: AuditAlert)
    requires
        a@ == b@,
    ensures
        a.rule_id@ == b.rule_id@ && a.rule_name@ == b.rule_name@ && a.action@ == b.action@,
        a.triggering_entry@ == b.triggering_entry@ && a.created_at == b.created_at,
        a@.rule_id == a.rule_id@ && a@.rule_name == a.rule_name@ && a@.created_at == a.created_at,
{
}

/// A new engine has no rules and none of them has fired; it looks at the history only where it was made for a
/// sink. What it lists are its rules.
pub proof fn law_new_engine_has_no_rules(
    made: InMemoryAuditPolicyEngine,
    usual: InMemoryAuditPolicyEngine,
    over: InMemoryAuditPolicyEngine,
    id: Seq<char>,
    engine: &InMemoryAuditPolicyEngine,
    listed: &Vec<AuditRule>,
)
    requires
        call_ensures(InMemoryAuditPolicyEngine::new, (), made),
        call_ensures(InMemoryAuditPolicyEngine::default, (), usual),
        call_ensures(InMemoryAuditPolicyEngine::with_sink, (), over),
        call_ensures(InMemoryAuditPolicyEngine::list_rules, (engine,), listed),
    ensures
        made.rules().len() == 0 && usual.rules().len() == 0 && over.rules().len() == 0,
        !made.last().contains_key(id) && !usual.last().contains_key(id) && !over.last().contains_key(id),
        !made.history() && !usual.history() && over.history(),
        listed@ == engine.rules(),
{
}

} // verus!
