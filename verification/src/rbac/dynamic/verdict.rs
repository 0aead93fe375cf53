//! Autonomy levels, mitigations and verdicts.
use crate::collections::Key;
use crate::score::Score;
use crate::text::decimal;
use vstd::prelude::*;

verus! {

/// How much someone may do unattended, from nothing to everything.
#[derive(Debug, Clone, Copy, PartialEq, Eq, PartialOrd, Ord, Hash, Structural)]
pub enum AutonomyLevel {
    /// Nothing.
    L0Frozen,
    /// With help.
    L1Assisted,
    /// With confirmation.
    L2SemiAutonomous,
    /// Within limits.
    L3Conditional,
    /// Everything.
    L4FullAutonomy,
}

impl Key for AutonomyLevel {
    type Id = AutonomyLevel;

    open spec fn id(&self) -> AutonomyLevel {
        *self
    }

    fn same(&self, other: &Self) -> (r: bool) {
        *self == *other
    }

    fn duplicate(&self) -> (r: Self) {
        *self
    }
}

impl AutonomyLevel {
    /// The number of the level.
    pub open spec fn number(self) -> int {
        match self {
            AutonomyLevel::L0Frozen => 0,
            AutonomyLevel::L1Assisted => 1,
            AutonomyLevel::L2SemiAutonomous => 2,
            AutonomyLevel::L3Conditional => 3,
            AutonomyLevel::L4FullAutonomy => 4,
        }
    }

    /// Whether actions are allowed at the level.
    pub open spec fn allows(self) -> bool {
        self == AutonomyLevel::L3Conditional || self == AutonomyLevel::L4FullAutonomy
    }

    /// The name of the level.
    pub open spec fn text(self) -> Seq<char> {
        match self {
            AutonomyLevel::L0Frozen => "L0-Frozen"@,
            AutonomyLevel::L1Assisted => "L1-Assisted"@,
            AutonomyLevel::L2SemiAutonomous => "L2-SemiAutonomous"@,
            AutonomyLevel::L3Conditional => "L3-Conditional"@,
            AutonomyLevel::L4FullAutonomy => "L4-FullAutonomy"@,
        }
    }

    /// The name of the level.
    pub fn as_str(self) -> (r: &'static str)
        ensures
            r@ == self.text(),
    {
        match self {
            AutonomyLevel::L0Frozen => "L0-Frozen",
            AutonomyLevel::L1Assisted => "L1-Assisted",
            AutonomyLevel::L2SemiAutonomous => "L2-SemiAutonomous",
            AutonomyLevel::L3Conditional => "L3-Conditional",
            AutonomyLevel::L4FullAutonomy => "L4-FullAutonomy",
        }
    }

    /// Whether the level is at least the middle one. This says nothing of whether actions are
    /// allowed.
    #[must_use]
    pub fn is_operational(&self) -> (r: bool)
        ensures
            r == (self.number() >= AutonomyLevel::L2SemiAutonomous.number()),
    {
        match self {
            AutonomyLevel::L0Frozen => false,
            AutonomyLevel::L1Assisted => false,
            AutonomyLevel::L2SemiAutonomous => true,
            AutonomyLevel::L3Conditional => true,
            AutonomyLevel::L4FullAutonomy => true,
        }
    }

    /// Whether actions are allowed at the level.
    pub fn is_allowing(&self) -> (r: bool)
        ensures
            r == self.allows(),
    {
        match self {
            AutonomyLevel::L3Conditional => true,
            AutonomyLevel::L4FullAutonomy => true,
            _ => false,
        }
    }
}

/// A level at which actions are allowed is operational; the converse does not hold.
pub proof fn law_allowing_levels_are_operational(level: AutonomyLevel)
    ensures
        level.allows() ==> level.number() >= AutonomyLevel::L2SemiAutonomous.number(),
        level.allows() <==> level.number() >= AutonomyLevel::L3Conditional.number(),
        !AutonomyLevel::L2SemiAutonomous.allows(),
{
}

/// What the host is asked to do besides allowing, or instead of it.
pub enum Strategy {
    /// Nothing more.
    Allow {
        /// Whether this was approved beforehand.
        auto_approve: bool,
    },
    /// Keep to a rate.
    Throttle {
        /// Actions in a minute.
        max_rate_per_min: u32,
    },
    /// Ask a person.
    RequireConfirmation,
    /// Refuse.
    Block {
        /// Why, in words.
        reason: String,
    },
}

/// A strategy with its text as characters.
pub enum StrategyView {
    /// See [`Strategy::Allow`].
    Allow(bool),
    /// See [`Strategy::Throttle`].
    Throttle(u32),
    /// See [`Strategy::RequireConfirmation`].
    RequireConfirmation,
    /// See [`Strategy::Block`].
    Block(Seq<char>),
}

impl View for Strategy {
    type V = StrategyView;

    open spec fn view(&self) -> StrategyView {
        match *self {
            Strategy::Allow { auto_approve } => StrategyView::Allow(auto_approve),
            Strategy::Throttle { max_rate_per_min } => StrategyView::Throttle(max_rate_per_min),
            Strategy::RequireConfirmation => StrategyView::RequireConfirmation,
            Strategy::Block { reason } => StrategyView::Block(reason@),
        }
    }
}

impl StrategyView {
    /// The strategy in words.
    pub open spec fn text(self) -> Seq<char> {
        match self {
            StrategyView::Allow(true) => "Allow(auto_approve=true)"@,
            StrategyView::Allow(false) => "Allow(auto_approve=false)"@,
            StrategyView::Throttle(rate) => "Throttle(max="@ + crate::text::decimal_text(rate as nat) + "/min)"@,
            StrategyView::RequireConfirmation => "RequireConfirmation"@,
            StrategyView::Block(reason) => "Block("@ + reason + ")"@,
        }
    }
}

impl Strategy {
    /// The strategy in words.
    pub fn message(&self) -> (r: String)
        ensures
            r@ == self@.text(),
    {
        match self {
            Strategy::Allow { auto_approve } => if *auto_approve {
                "Allow(auto_approve=true)".to_owned()
            } else {
                "Allow(auto_approve=false)".to_owned()
            },
            Strategy::Throttle { max_rate_per_min } => "Throttle(max=".to_owned().concat(
                decimal(*max_rate_per_min as u128).as_str(),
            ).concat("/min)"),
            Strategy::RequireConfirmation => "RequireConfirmation".to_owned(),
            Strategy::Block { reason } => "Block(".to_owned().concat(reason.as_str()).concat(")"),
        }
    }

    /// Another strategy with the same contents.
    pub fn duplicate(&self) -> (r: Self)
        ensures
            r@ == self@,
    {
        match self {
            Strategy::Allow { auto_approve } => Strategy::Allow { auto_approve: *auto_approve },
            Strategy::Throttle { max_rate_per_min } => Strategy::Throttle { max_rate_per_min: *max_rate_per_min },
            Strategy::RequireConfirmation => Strategy::RequireConfirmation,
            Strategy::Block { reason } => Strategy::Block { reason: reason.clone() },
        }
    }
}

/// A mitigation with its text as characters.
pub open spec fn mitigation_shown(m: Option<Strategy>) -> Option<StrategyView> {
    match m {
        Some(s) => Some(s@),
        None => None,
    }
}

/// The five dimensions of a risk.
#[derive(Debug, Clone, Copy, PartialEq, Eq, Structural)]
pub struct SubScores {
    /// From the kind of who acts.
    pub delegator_weight: Score,
    /// From missing trust.
    pub trust_penalty: Score,
    /// From the category.
    pub sensitivity: Score,
    /// From leaving the task domain.
    pub domain_mismatch: Score,
    /// From unusual behaviour.
    pub anomaly: Score,
}

/// The risk of a request.
#[derive(Debug, Clone, Copy, PartialEq, Eq, Structural)]
pub struct RiskScore {
    /// The total.
    pub value: Score,
    /// The dimensions.
    pub sub_scores: SubScores,
}

/// How an action went.
pub enum ActionOutcome {
    /// As intended.
    Success,
    /// It failed, for no fault of policy.
    Failure {
        /// What went wrong.
        error: String,
    },
    /// It broke a rule.
    PolicyViolation {
        /// Which one.
        rule: String,
    },
    /// It was unlike what came before.
    Anomalous {
        /// How much; taken as it is.
        deviation: Score,
    },
}

/// A decision with what led to it.
pub struct AuthorizationVerdict {
    /// The decision.
    pub allowed: bool,
    /// The level that the risk came to.
    pub autonomy_level: AutonomyLevel,
    /// The total risk.
    pub risk_score: Score,
    /// Its dimensions.
    pub sub_scores: SubScores,
    /// Reasons in words.
    pub evidence: Vec<String>,
    /// What the host is asked to do.
    pub mitigation: Option<Strategy>,
    /// When it was decided.
    pub timestamp: i128,
}

/// A verdict with its texts as characters.
pub struct VerdictShown {
    /// The decision.
    pub allowed: bool,
    /// The level that the risk came to.
    pub autonomy_level: AutonomyLevel,
    /// The total risk.
    pub risk_score: Score,
    /// What the risk was made of.
    pub sub_scores: SubScores,
    /// Reasons in words.
    pub evidence: Seq<Seq<char>>,
    /// What was asked for against the risk.
    pub mitigation: Option<StrategyView>,
    /// When it was decided.
    pub timestamp: i128,
}

impl View for AuthorizationVerdict {
    type V = VerdictShown;

    open spec fn view(&self) -> VerdictShown {
        VerdictShown {
            allowed: self.allowed,
            autonomy_level: self.autonomy_level,
            risk_score: self.risk_score,
            sub_scores: self.sub_scores,
            evidence: crate::rbac::traits::texts_of(self.evidence@),
            mitigation: mitigation_shown(self.mitigation),
            timestamp: self.timestamp,
        }
    }
}

impl AuthorizationVerdict {
    /// A refusal for one reason, at a moment.
    #[must_use]
    pub fn denied(level: AutonomyLevel, risk: Score, sub_scores: SubScores, reason: &str, now: i128) -> (r: Self)
        ensures
            r@ == (VerdictShown {
                allowed: false,
                autonomy_level: level,
                risk_score: risk,
                sub_scores,
                evidence: seq![reason@],
                mitigation: Some(StrategyView::Block(reason@)),
                timestamp: now,
            }),
    {
        let mut evidence: Vec<String> = Vec::new();
        evidence.push(reason.to_owned());
        assert(crate::rbac::traits::texts_of(evidence@) =~= seq![reason@]);
        AuthorizationVerdict {
            allowed: false,
            autonomy_level: level,
            risk_score: risk,
            sub_scores,
            evidence,
            mitigation: Some(Strategy::Block { reason: reason.to_owned() }),
            timestamp: now,
        }
    }
}

/// Actions are allowed at the two highest levels and at no other, and the three highest are
/// operational.
pub proof fn law_levels_that_allow(level: &AutonomyLevel, allowing: bool, operational: bool)
    requires
        call_ensures(AutonomyLevel::is_allowing, (level,), allowing),
        call_ensures(AutonomyLevel::is_operational, (level,), operational),
    ensures
        allowing <==> level is L3Conditional || level is L4FullAutonomy,
        operational <==> !(level is L0Frozen) && !(level is L1Assisted),
{
}

/// A refusal does not allow, blocks for the reason, which is its evidence, and keeps the level and the
/// risk that it was given.
pub proof fn law_refusal_blocks(
    level: AutonomyLevel,
    risk: Score,
    sub_scores: SubScores,
    reason: &str,
    now: i128,
    r: AuthorizationVerdict,
)
    requires
        call_ensures(AuthorizationVerdict::denied, (level, risk, sub_scores, reason, now), r),
    ensures
        !r.allowed,
        r.autonomy_level == level && r.risk_score == risk && r.sub_scores == sub_scores && r.timestamp == now,
        r.evidence@.len() == 1 && r.evidence@[0]@ == reason@,
        r.mitigation matches Some(Strategy::Block { reason: why }) && why@ == reason@,
{
    assert(r@.evidence.len() == 1 && r@.evidence[0] == reason@);
    assert(r@.mitigation == Some(StrategyView::Block(reason@)));
}

/// A strategy says what it does, with the rate or the reason; a level says its number and its name.
pub proof fn law_strategies_and_levels_speak(strategy: &Strategy, r: String, level: AutonomyLevel, name: &'static str)
    requires
        call_ensures(Strategy::message, (strategy,), r),
        call_ensures(AutonomyLevel::as_str, (level,), name),
    ensures
        match *strategy {
            Strategy::Allow { auto_approve } => r@ == (if auto_approve {
                "Allow(auto_approve=true)"@
            } else {
                "Allow(auto_approve=false)"@
            }),
            Strategy::Throttle { max_rate_per_min } => r@ == "Throttle(max="@ + crate::text::decimal_text(
                max_rate_per_min as nat,
            ) + "/min)"@,
            Strategy::RequireConfirmation => r@ == "RequireConfirmation"@,
            Strategy::Block { reason } => r@ == "Block("@ + reason@ + ")"@,
        },
        name@ == (match level {
            AutonomyLevel::L0Frozen => "L0-Frozen"@,
            AutonomyLevel::L1Assisted => "L1-Assisted"@,
            AutonomyLevel::L2SemiAutonomous => "L2-SemiAutonomous"@,
            AutonomyLevel::L3Conditional => "L3-Conditional"@,
            AutonomyLevel::L4FullAutonomy => "L4-FullAutonomy"@,
        }),
{
}

/// Nothing of a verdict is out of sight: two that look the same have the same parts.
pub proof fn law_verdicts_that_look_the_same(a: AuthorizationVerdict, b: AuthorizationVerdict)
    requires
        a@ == b@,
    ensures
        a.allowed == b.allowed && a.autonomy_level == b.autonomy_level && a.risk_score == b.risk_score,
        a.sub_scores == b.sub_scores && a.timestamp == b.timestamp,
        a.evidence@.len() == b.evidence@.len(),
        forall|i: int| 0 <= i < a.evidence@.len() ==> (#[trigger] a.evidence@[i])@ == b.evidence@[i]@,
        a.mitigation is Some <==> b.mitigation is Some,
        a.mitigation matches Some(s) ==> {
            let t = b.mitigation->Some_0;
            &&& s is Allow <==> t is Allow
            &&& s is Throttle <==> t is Throttle
            &&& s is Block <==> t is Block
            &&& s is RequireConfirmation <==> t is RequireConfirmation
            &&& s is Allow ==> s->auto_approve == t->auto_approve
            &&& s is Throttle ==> s->max_rate_per_min == t->max_rate_per_min
            &&& s is Block ==> s->reason@ == t->reason@
        },
        a@.allowed == a.allowed && a@.autonomy_level == a.autonomy_level && a@.risk_score == a.risk_score,
        a@.sub_scores == a.sub_scores && a@.timestamp == a.timestamp,
{
    assert(a@.evidence.len() == a.evidence@.len() && b@.evidence.len() == b.evidence@.len());
    assert forall|i: int| 0 <= i < a.evidence@.len() implies (#[trigger] a.evidence@[i])@ == b.evidence@[i]@ by {
        assert(a@.evidence[i] == b@.evidence[i]);
    }
    assert(a@.mitigation == b@.mitigation);
}

} // verus!
