//! One recorded decision, and what a rule can say of it and ask for.
use crate::collections::Table;
use crate::score::Score;
use crate::text::copy_texts;
use vstd::prelude::*;

verus! {

/// The bits of 0.6, from which on a risk counts as high.
pub const HIGH_RISK_BITS: u64 = 0x3FE3_3333_3333_3333;

/// One recorded authorization decision.
#[derive(Debug)]
pub struct AuditEntry {
    /// Identifier, assigned by the sink.
    pub id: u64,
    /// Who acted.
    pub subject_id: String,
    /// The kind of who acted.
    pub subject_type: String,
    /// The permission that was checked.
    pub permission: String,
    /// The entry point that asked.
    pub endpoint: String,
    /// The decision.
    pub granted: bool,
    /// When it was made.
    pub created_at: i128,
    /// Risk verdict; none means unscored.
    pub verdict: Option<AuditVerdict>,
}

/// The risk verdict on a decision.
#[derive(Debug)]
pub struct AuditVerdict {
    /// Autonomy level that the risk came to.
    pub autonomy_level: String,
    /// Overall risk.
    pub risk_score: Score,
    /// The factors of the risk.
    pub sub_scores: AuditSubScores,
    /// Reasons in words.
    pub evidence: Vec<String>,
    /// Mitigation that was applied.
    pub mitigation: Option<String>,
}

/// The factors that a risk was made of.
#[derive(Debug, Clone, Copy, PartialEq, Eq, Structural)]
pub struct AuditSubScores {
    /// From the privilege of who delegated.
    pub delegator_weight: Score,
    /// From the decay of trust.
    pub trust_penalty: Score,
    /// One less `trust_penalty`, in double precision; whoever scores an entry sets both.
    pub trust: Score,
    /// From the sensitivity of the target.
    pub sensitivity: Score,
    /// From acting outside the task domain.
    pub domain_mismatch: Score,
    /// From unusual behaviour.
    pub anomaly: Score,
}

/// A verdict with its texts as characters.
pub struct VerdictView {
    /// The level that the risk came to.
    pub autonomy_level: Seq<char>,
    /// The total risk.
    pub risk_score: Score,
    /// What the risk was made of.
    pub sub_scores: AuditSubScores,
    /// Reasons in words.
    pub evidence: Seq<Seq<char>>,
    /// What was asked for against the risk.
    pub mitigation: Option<Seq<char>>,
}

/// An entry with its texts as characters.
pub struct EntryView {
    /// See [`AuditEntry::id`].
    pub id: u64,
    /// See [`AuditEntry::subject_id`].
    pub subject_id: Seq<char>,
    /// See [`AuditEntry::subject_type`].
    pub subject_type: Seq<char>,
    /// See [`AuditEntry::permission`].
    pub permission: Seq<char>,
    /// See [`AuditEntry::endpoint`].
    pub endpoint: Seq<char>,
    /// See [`AuditEntry::granted`].
    pub granted: bool,
    /// See [`AuditEntry::created_at`].
    pub created_at: i128,
    /// See [`AuditEntry::verdict`].
    pub verdict: Option<VerdictView>,
}

impl EntryView {
    /// The risk; zero where the entry is unscored.
    pub open spec fn risk(self) -> Score {
        match self.verdict {
            Some(v) => v.risk_score,
            None => crate::score::zero(),
        }
    }

    /// Whether the entry was scored, and its risk counts as high.
    pub open spec fn high_risk(self) -> bool {
        self.verdict is Some && self.risk().reaches(Score { bits: HIGH_RISK_BITS })
    }
}

impl View for AuditVerdict {
    type V = VerdictView;

    open spec fn view(&self) -> VerdictView {
        VerdictView {
            autonomy_level: self.autonomy_level@,
            risk_score: self.risk_score,
            sub_scores: self.sub_scores,
            evidence: crate::rbac::traits::texts_of(self.evidence@),
            mitigation: crate::text::optional_text(self.mitigation),
        }
    }
}

impl View for AuditEntry {
    type V = EntryView;

    open spec fn view(&self) -> EntryView {
        EntryView {
            id: self.id,
            subject_id: self.subject_id@,
            subject_type: self.subject_type@,
            permission: self.permission@,
            endpoint: self.endpoint@,
            granted: self.granted,
            created_at: self.created_at,
            verdict: match self.verdict {
                Some(v) => Some(v@),
                None => None,
            },
        }
    }
}

/// Entries with their texts as characters.
pub open spec fn entries_shown(entries: Seq<AuditEntry>) -> Seq<EntryView> {
    Seq::new(entries.len(), |i: int| entries[i]@)
}

/// A copy of a text that may be missing.
fn copy_text(t: &Option<String>) -> (r: Option<String>)
    ensures
        r == *t,
{
    match t {
        Some(s) => Some(s.clone()),
        None => None,
    }
}

impl AuditVerdict {
    /// Another verdict with the same contents.
    pub fn duplicate(&self) -> (r: Self)
        ensures
            r@ == self@,
    {
        AuditVerdict {
            autonomy_level: self.autonomy_level.clone(),
            risk_score: self.risk_score,
            sub_scores: self.sub_scores,
            evidence: copy_texts(&self.evidence),
            mitigation: copy_text(&self.mitigation),
        }
    }
}

impl AuditEntry {
    /// Another entry with the same contents.
    pub fn duplicate(&self) -> (r: Self)
        ensures
            r@ == self@,
    {
        AuditEntry {
            id: self.id,
            subject_id: self.subject_id.clone(),
            subject_type: self.subject_type.clone(),
            permission: self.permission.clone(),
            endpoint: self.endpoint.clone(),
            granted: self.granted,
            created_at: self.created_at,
            verdict: match &self.verdict {
                Some(v) => Some(v.duplicate()),
                None => None,
            },
        }
    }

    /// Whether the entry records a denial.
    #[must_use]
    pub fn is_denied(&self) -> (r: bool)
        ensures
            r == !self@.granted,
    {
        !self.granted
    }

    /// The risk; zero where the entry is unscored.
    pub(crate) fn risk(&self) -> (r: Score)
        ensures
            r == self@.risk(),
    {
        match &self.verdict {
            Some(v) => v.risk_score,
            None => Score::from_bits(0),
        }
    }

    /// Whether the entry was scored, and its risk is at least 0.6.
    #[must_use]
    pub fn is_high_risk(&self) -> (r: bool)
        ensures
            r == self@.high_risk(),
    {
        match &self.verdict {
            Some(v) => v.risk_score.is_at_least(Score::from_bits(HIGH_RISK_BITS)),
            None => false,
        }
    }
}

/// What a rule asks for when it fires.
pub enum AuditAction {
    /// An alert for people.
    Alert {
        /// The text.
        message: String,
        /// How urgent it is.
        severity: AuditSeverity,
    },
    /// A message to one target.
    Notify {
        /// Who is told.
        target: String,
        /// The text.
        message: String,
    },
    /// An automated response, requested and not performed.
    Countermeasure {
        /// Its name.
        action: String,
        /// Its parameters.
        params: Table<String, String>,
    },
}

/// How urgent an alert is.
#[derive(Debug, Clone, Copy, PartialEq, Eq, Structural)]
pub enum AuditSeverity {
    /// Recorded.
    Info,
    /// To be looked at.
    Warning,
    /// Urgent.
    Critical,
}

/// An action with its texts as characters.
pub enum ActionView {
    /// See [`AuditAction::Alert`].
    Alert(Seq<char>, AuditSeverity),
    /// See [`AuditAction::Notify`]: target and text.
    Notify(Seq<char>, Seq<char>),
    /// See [`AuditAction::Countermeasure`].
    Countermeasure(Seq<char>, Map<Seq<char>, String>),
}

impl View for AuditAction {
    type V = ActionView;

    open spec fn view(&self) -> ActionView {
        match *self {
            AuditAction::Alert { message, severity } => ActionView::Alert(message@, severity),
            AuditAction::Notify { target, message } => ActionView::Notify(target@, message@),
            AuditAction::Countermeasure { action, params } => ActionView::Countermeasure(action@, params@),
        }
    }
}

impl AuditAction {
    /// Whether the value is well formed.
    pub open spec fn wf(&self) -> bool {
        match *self {
            AuditAction::Countermeasure { action, params } => params.wf(),
            _ => true,
        }
    }

    /// Another action with the same contents.
    pub fn duplicate(&self) -> (r: Self)
        requires
            self.wf(),
        ensures
            r.wf(),
            r@ == self@,
    {
        match self {
            AuditAction::Alert { message, severity } => AuditAction::Alert {
                message: message.clone(),
                severity: *severity,
            },
            AuditAction::Notify { target, message } => AuditAction::Notify {
                target: target.clone(),
                message: message.clone(),
            },
            AuditAction::Countermeasure { action, params } => AuditAction::Countermeasure {
                action: action.clone(),
                params: copy_params(params),
            },
        }
    }
}

/// A copy of some parameters.
fn copy_params(params: &Table<String, String>) -> (r: Table<String, String>)
    requires
        params.wf(),
    ensures
        r.wf(),
        r@ == params@,
{
    let mut r: Table<String, String> = Table::new();
    let mut i: usize = 0;
    while i < params.len()
        invariant
            params.wf(),
            r.wf(),
            i <= params.ids().len(),
            forall|k: Seq<char>| #[trigger] r@.contains_key(k) <==> params.ids().take(i as int).contains(k),
            forall|k: Seq<char>| #[trigger] r@.contains_key(k) ==> r@[k] == params@[k],
        decreases params.ids().len() - i,
    {
        let ghost before = r@;
        let ghost ids = params.ids();
        let _ = r.insert(params.key_at(i).clone(), params.value_at(i).clone());
        proof {
            params.lemma_at(i as int);
            crate::collections::lemma_take_next_to_set(ids, i as int);
            assert forall|k: Seq<char>| #[trigger] r@.contains_key(k) <==> ids.take(i + 1).contains(k) by {
                assert(ids.take(i + 1).to_set().contains(k) == ids.take(i as int).to_set().insert(ids[i as int]).contains(k));
                assert(before.contains_key(k) <==> ids.take(i as int).contains(k));
            }
        }
        i = i + 1;
    }
    proof {
        assert(params.ids().take(params.ids().len() as int) =~= params.ids());
        assert(r@ =~= params@);
    }
    r
}

/// What a rule says of an entry.
pub enum AuditCondition {
    /// The entry is a denial.
    Denied,
    /// The risk is at least the threshold.
    HighRisk {
        /// The least risk.
        threshold: Score,
    },
    /// The sensitivity is at least the weight.
    CategorySensitive {
        /// The least weight.
        min_weight: Score,
    },
    /// The domain mismatch is at least the weight.
    DomainMismatch {
        /// The least weight.
        min_weight: Score,
    },
    /// The subject was denied often in a short time. It takes a history to tell.
    RapidDenials {
        /// How far back denials count.
        window_secs: u64,
        /// How many it takes.
        min_count: u32,
    },
    /// The trust is at most the threshold.
    TrustBelow {
        /// The largest trust.
        threshold: Score,
    },
    /// All or any of some conditions.
    Composite {
        /// The conditions.
        conditions: Vec<AuditCondition>,
        /// Whether all or any are asked for.
        operator: LogicalOp,
    },
}

/// How conditions are joined.
#[derive(Debug, Clone, Copy, PartialEq, Eq, Structural)]
pub enum LogicalOp {
    /// Every one.
    All,
    /// At least one.
    Any,
}

impl AuditCondition {
    /// Whether an entry alone meets the condition. No entry alone is a rapid series of denials.
    pub open spec fn met(self, e: EntryView) -> bool
        decreases self,
    {
        match self {
            AuditCondition::Denied => !e.granted,
            AuditCondition::HighRisk { threshold } => e.verdict is Some && e.verdict->Some_0.risk_score.reaches(threshold),
            AuditCondition::CategorySensitive { min_weight } => e.verdict is Some
                && e.verdict->Some_0.sub_scores.sensitivity.reaches(min_weight),
            AuditCondition::DomainMismatch { min_weight } => e.verdict is Some
                && e.verdict->Some_0.sub_scores.domain_mismatch.reaches(min_weight),
            AuditCondition::RapidDenials { window_secs, min_count } => false,
            AuditCondition::TrustBelow { threshold } => e.verdict is Some && threshold.reaches(
                e.verdict->Some_0.sub_scores.trust,
            ),
            AuditCondition::Composite { conditions, operator: LogicalOp::All } => forall|i: int|
                0 <= i < conditions@.len() ==> (#[trigger] conditions@[i]).met(e),
            AuditCondition::Composite { conditions, operator: LogicalOp::Any } => exists|i: int|
                0 <= i < conditions@.len() && (#[trigger] conditions@[i]).met(e),
        }
    }

    /// Whether an entry alone meets the condition.
    #[must_use]
    pub fn evaluate(&self, entry: &AuditEntry) -> (r: bool)
        ensures
            r == self.met(entry@),
        decreases self,
    {
        match self {
            AuditCondition::Denied => entry.is_denied(),
            AuditCondition::HighRisk { threshold } => match &entry.verdict {
                Some(v) => v.risk_score.is_at_least(*threshold),
                None => false,
            },
            AuditCondition::CategorySensitive { min_weight } => match &entry.verdict {
                Some(v) => v.sub_scores.sensitivity.is_at_least(*min_weight),
                None => false,
            },
            AuditCondition::DomainMismatch { min_weight } => match &entry.verdict {
                Some(v) => v.sub_scores.domain_mismatch.is_at_least(*min_weight),
                None => false,
            },
            AuditCondition::RapidDenials { .. } => false,
            AuditCondition::TrustBelow { threshold } => match &entry.verdict {
                Some(v) => threshold.is_at_least(v.sub_scores.trust),
                None => false,
            },
            AuditCondition::Composite { conditions, operator } => {
                let wanted = match operator {
                    LogicalOp::All => false,
                    LogicalOp::Any => true,
                };
                let mut i: usize = 0;
                while i < conditions.len()
                    invariant
                        *self == (AuditCondition::Composite { conditions: *conditions, operator: *operator }),
                        wanted == (*operator == LogicalOp::Any),
                        i <= conditions@.len(),
                        forall|j: int| 0 <= j < i ==> (#[trigger] conditions@[j]).met(entry@) != wanted,
                    decreases conditions.len() - i,
                {
                    assert(decreases_to!(*self => self->conditions));
                    assert(decreases_to!(conditions@ => conditions@[i as int]));
                    if conditions[i].evaluate(entry) == wanted {
                        assert(conditions@[i as int].met(entry@) == wanted);
                        return wanted;
                    }
                    i = i + 1;
                }
                !wanted
            },
        }
    }
}

/// An entry without a verdict meets no condition on risk, sensitivity, domain or trust.
pub proof fn law_unscored_entry_meets_no_risk_condition(e: EntryView, bound: Score)
    requires
        e.verdict is None,
    ensures
        !(AuditCondition::HighRisk { threshold: bound }).met(e),
        !(AuditCondition::CategorySensitive { min_weight: bound }).met(e),
        !(AuditCondition::DomainMismatch { min_weight: bound }).met(e),
        !(AuditCondition::TrustBelow { threshold: bound }).met(e),
        !e.high_risk(),
{
}

/// All of no conditions is met by every entry, and any of none by no entry.
pub proof fn law_empty_composite(conditions: Vec<AuditCondition>, e: EntryView)
    requires
        conditions@.len() == 0,
    ensures
        (AuditCondition::Composite { conditions, operator: LogicalOp::All }).met(e),
        !(AuditCondition::Composite { conditions, operator: LogicalOp::Any }).met(e),
{
}

/// An entry that meets a condition on risk meets the same one with a lower threshold.
pub proof fn law_lower_threshold_matches_more(e: EntryView, low: Score, high: Score)
    requires
        high.reaches(low),
        (AuditCondition::HighRisk { threshold: high }).met(e),
    ensures
        (AuditCondition::HighRisk { threshold: low }).met(e),
{
}

/// Which entries meet a condition: a denial; a risk, a sensitivity or a domain mismatch that is at
/// least the bound; a trust that is at most the bound; all or any of some conditions. An entry without
/// a verdict meets none on what a verdict says, and no entry alone is a rapid series of denials.
pub proof fn law_conditions_on_an_entry(c: &AuditCondition, entry: &AuditEntry, r: bool)
    requires
        call_ensures(AuditCondition::evaluate, (c, entry), r),
    ensures
        r == c.met(entry@),
        match *c {
            AuditCondition::Denied => r <==> !entry.granted,
            AuditCondition::HighRisk { threshold } => r <==> (entry.verdict matches Some(v) && v.risk_score.reaches(
                threshold,
            )),
            AuditCondition::CategorySensitive { min_weight } => r <==> (entry.verdict matches Some(v)
                && v.sub_scores.sensitivity.reaches(min_weight)),
            AuditCondition::DomainMismatch { min_weight } => r <==> (entry.verdict matches Some(v)
                && v.sub_scores.domain_mismatch.reaches(min_weight)),
            AuditCondition::RapidDenials { .. } => !r,
            AuditCondition::TrustBelow { threshold } => r <==> (entry.verdict matches Some(v) && threshold.reaches(
                v.sub_scores.trust,
            )),
            AuditCondition::Composite { conditions, operator } => {
                &&& operator is All ==> (r <==> forall|i: int|
                    0 <= i < conditions@.len() ==> (#[trigger] conditions@[i]).met(entry@))
                &&& operator is Any ==> (r <==> exists|i: int|
                    0 <= i < conditions@.len() && (#[trigger] conditions@[i]).met(entry@))
            },
        },
{
}

/// An entry is of high risk exactly if it was scored and its risk is at least 0.6, and denied exactly
/// if it was not granted.
pub proof fn law_high_risk_and_denied(entry: &AuditEntry, high: bool, denied: bool)
    requires
        call_ensures(AuditEntry::is_high_risk, (entry,), high),
        call_ensures(AuditEntry::is_denied, (entry,), denied),
    ensures
        high <==> (entry.verdict matches Some(v) && v.risk_score.reaches(Score { bits: 0x3FE3_3333_3333_3333 })),
        denied == !entry.granted,
{
}

/// Nothing of an entry is out of sight: two that look the same have the same parts.
pub proof fn law_entries_that_look_the_same(a: AuditEntry, b: AuditEntry)
    requires
        a@ == b@,
    ensures
        a.id == b.id && a.subject_id@ == b.subject_id@ && a.subject_type@ == b.subject_type@,
        a.permission@ == b.permission@ && a.endpoint@ == b.endpoint@,
        a.granted == b.granted && a.created_at == b.created_at,
        a.verdict is Some <==> b.verdict is Some,
        a.verdict matches Some(v) ==> {
            let w = b.verdict->Some_0;
            &&& v.autonomy_level@ == w.autonomy_level@ && v.risk_score == w.risk_score && v.sub_scores == w.sub_scores
            &&& v.evidence@.len() == w.evidence@.len()
            &&& forall|i: int| 0 <= i < v.evidence@.len() ==> (#[trigger] v.evidence@[i])@ == w.evidence@[i]@
            &&& v.mitigation is Some <==> w.mitigation is Some
            &&& v.mitigation is Some ==> v.mitigation->Some_0@ == w.mitigation->Some_0@
        },
        a@.id == a.id && a@.subject_id == a.subject_id@ && a@.subject_type == a.subject_type@,
        a@.permission == a.permission@ && a@.endpoint == a.endpoint@,
        a@.granted == a.granted && a@.created_at == a.created_at,
        a@.verdict is Some <==> a.verdict is Some,
        a.verdict matches Some(v) ==> a@.verdict->Some_0.risk_score == v.risk_score,
{
    if let Some(v) = a.verdict {
        let w = b.verdict->Some_0;
        assert(v@ == w@);
        assert(v@.evidence.len() == v.evidence@.len() && w@.evidence.len() == w.evidence@.len());
        assert forall|i: int| 0 <= i < v.evidence@.len() implies (#[trigger] v.evidence@[i])@ == w.evidence@[i]@ by {
            assert(v@.evidence[i] == w@.evidence[i]);
        }
    }
}

} // verus!
