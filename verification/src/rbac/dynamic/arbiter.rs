//! The decision on a request: what is weighed, what the total means, and what is recorded.
//!
//! A request is decided in steps. A lockdown refuses before anything is weighed. Otherwise the
//! trust of who acts is read, the dimensions are laid out, their weighted sum is computed by the
//! caller, and the level that it comes to decides. Missing evidence only raises the risk.
use crate::collections::{KeySet, Table};
use crate::error::KirinoError;
use crate::rbac::audit::entry::{AuditEntry, AuditSubScores, AuditVerdict};
use crate::rbac::dynamic::anomaly::AnomalyDetector;
use crate::rbac::dynamic::delegator::DelegatorType;
use crate::rbac::dynamic::domain::DomainScope;
use crate::rbac::dynamic::metrics::ActionRequest;
use crate::rbac::dynamic::policy::{DynamicPolicy, PolicyDefect};
use crate::rbac::dynamic::trust::{TrustScore, TrustScoreStore};
use crate::rbac::dynamic::verdict::{
    ActionOutcome, AuthorizationVerdict, AutonomyLevel, RiskScore, Strategy, StrategyView, SubScores, VerdictShown,
};
use crate::score::Score;
use crate::text::copy_texts;
use vstd::prelude::*;

verus! {

/// The most people whose behaviour is followed unless it is told otherwise.
pub const MAX_ANOMALY_DETECTORS: usize = 10_000;

/// The bits of 0.15, the score of someone whose behaviour cannot be followed for want of room.
pub const CAPACITY_SCORE_BITS: u64 = 0x3FC3_3333_3333_3333;

/// What a lockdown records as evidence.
pub const LOCKDOWN_EVIDENCE_COUNT: u64 = 999;

/// The bits of 1.0.
pub const ONE_BITS: u64 = 0x3FF0_0000_0000_0000;

/// The bits of 0.5, how well a success speaks.
pub const SUCCESS_SEVERITY_BITS: u64 = 0x3FE0_0000_0000_0000;

/// The bits of 0.2, how badly a failure speaks.
pub const FAILURE_SEVERITY_BITS: u64 = 0x3FC9_9999_9999_999A;

/// The bits of 0.8, how badly a violation speaks.
pub const VIOLATION_SEVERITY_BITS: u64 = 0x3FE9_9999_9999_999A;

/// The bits of 0.95, the trust restored to full autonomy.
pub const RESTORED_FULL_BITS: u64 = 0x3FEE_6666_6666_6666;

/// The bits of 0.8, the trust restored to conditional autonomy.
pub const RESTORED_CONDITIONAL_BITS: u64 = 0x3FE9_9999_9999_999A;

/// The bits of 0.6, the trust restored to semi-autonomy.
pub const RESTORED_SEMI_BITS: u64 = 0x3FE3_3333_3333_3333;

/// The bits of 0.4, the trust restored to assistance.
pub const RESTORED_ASSISTED_BITS: u64 = 0x3FD9_9999_9999_999A;

/// The bits of 0.1, the trust restored to no autonomy.
pub const RESTORED_FROZEN_BITS: u64 = 0x3FB9_9999_9999_999A;

/// The bits of 0.8, how much restored trust counts.
pub const RESTORED_CONFIDENCE_BITS: u64 = 0x3FE9_9999_9999_999A;

/// How many observations restored trust is taken to rest on.
pub const RESTORED_EVIDENCE_COUNT: u64 = 10;

/// What is known of someone's behaviour when a request comes in.
#[derive(Debug, Clone, Copy, PartialEq, Eq, Structural)]
pub enum AnomalyReading {
    /// A score that stands.
    Fixed(Score),
    /// The deviation of the profile from the baseline, to be computed.
    Deviation,
}

/// The dimensions of a risk before anything is computed.
#[derive(Debug, Clone, Copy, PartialEq, Eq, Structural)]
pub struct RiskInputs {
    /// From the kind of who acts.
    pub delegator_weight: Score,
    /// The trust that counts. The penalty is what is missing to one of value times confidence.
    pub trust: TrustScore,
    /// From the category.
    pub sensitivity: Score,
    /// From leaving the task domain.
    pub domain_mismatch: Score,
    /// The trust that is expected, where some is; what is missing to it is added to the penalty.
    pub trust_floor: Option<Score>,
    /// From behaviour.
    pub anomaly: AnomalyReading,
}

/// The numbers of a risk to three decimals.
pub struct RiskTexts {
    /// The total.
    pub risk: String,
    /// The weight of who acts.
    pub delegator_weight: String,
    /// The trust penalty.
    pub trust_penalty: String,
    /// The sensitivity.
    pub sensitivity: String,
    /// The domain mismatch.
    pub domain_mismatch: String,
    /// The anomaly.
    pub anomaly: String,
}

/// What an outcome says of someone.
#[derive(Debug, Clone, Copy, PartialEq, Eq, Structural)]
pub enum Feedback {
    /// Something good, and how good.
    Compliant(Score),
    /// Something bad, and how bad.
    Violation(Score),
}

/// How things stand with someone.
#[derive(Debug, Clone, Copy, PartialEq, Eq, Structural)]
pub struct DelegatorStatus {
    /// Whether a lockdown is on.
    pub frozen: bool,
    /// Whether the trust could be read.
    pub trust_store_ok: bool,
    /// The trust; that of someone unknown where it could not be read.
    pub trust: TrustScore,
    /// Whether enough of the behaviour was observed.
    pub anomaly_baseline_ready: bool,
}

/// The trust that counts for a risk: none where there is no record, and none where the record
/// cannot be read.
pub open spec fn trust_weighed(read: Result<Option<TrustScore>, KirinoError>, now: i128) -> TrustScore {
    match read {
        Ok(Some(t)) => t,
        Ok(None) => crate::rbac::dynamic::trust::unknown_at(now),
        Err(_) => TrustScore { confidence: Score { bits: ONE_BITS }, ..crate::rbac::dynamic::trust::unknown_at(now) },
    }
}

/// The trust that an outcome or a status starts from.
pub open spec fn trust_or_unknown(read: Result<Option<TrustScore>, KirinoError>, now: i128) -> TrustScore {
    match read {
        Ok(Some(t)) => t,
        _ => crate::rbac::dynamic::trust::unknown_at(now),
    }
}

/// The verdict on someone in lockdown.
pub open spec fn lockdown_verdict(delegator_id: Seq<char>, now: i128) -> VerdictShown {
    VerdictShown {
        allowed: false,
        autonomy_level: AutonomyLevel::L0Frozen,
        risk_score: Score { bits: ONE_BITS },
        sub_scores: SubScores {
            delegator_weight: crate::score::zero(),
            trust_penalty: Score { bits: ONE_BITS },
            sensitivity: crate::score::zero(),
            domain_mismatch: crate::score::zero(),
            anomaly: crate::score::zero(),
        },
        evidence: seq!["delegator '"@ + delegator_id + "' is frozen (lockdown active)"@],
        mitigation: Some(StrategyView::Block("lockdown"@)),
        timestamp: now,
    }
}

/// What the host is asked to do at a level: what is set for it where that refuses, and only a
/// rate where it allows.
pub open spec fn mitigation_at(policy: &DynamicPolicy, level: AutonomyLevel) -> Option<StrategyView> {
    let strategy = policy.strategy_of(level);
    if !level.allows() || strategy is Throttle {
        Some(strategy)
    } else {
        None
    }
}

/// The reasons in words.
pub open spec fn evidence_text(texts: RiskTexts, level: AutonomyLevel, kind: DelegatorType) -> Seq<Seq<char>> {
    seq![
        "risk="@ + texts.risk@ + " level="@ + level.text() + " delegator_type="@ + kind.text(),
        "sub: delegator_w="@ + texts.delegator_weight@ + " trust_p="@ + texts.trust_penalty@ + " sens="@
            + texts.sensitivity@ + " domain="@ + texts.domain_mismatch@ + " anomaly="@ + texts.anomaly@,
    ]
}

/// The verdict that a risk comes to.
pub open spec fn verdict_on(
    policy: &DynamicPolicy,
    request: &ActionRequest,
    risk: RiskScore,
    texts: RiskTexts,
    now: i128,
) -> VerdictShown {
    let level = policy.level_of(risk.value);
    VerdictShown {
        allowed: level.allows(),
        autonomy_level: level,
        risk_score: risk.value,
        sub_scores: risk.sub_scores,
        evidence: evidence_text(texts, level, request.delegator.delegator_type),
        mitigation: mitigation_at(policy, level),
        timestamp: now,
    }
}

/// What an outcome says: a success is compliant by 0.5, a failure a violation by 0.2, a broken
/// rule a violation by 0.8, and unusual behaviour a violation by its deviation.
pub open spec fn feedback_of(outcome: ActionOutcome) -> Feedback {
    match outcome {
        ActionOutcome::Success => Feedback::Compliant(Score { bits: SUCCESS_SEVERITY_BITS }),
        ActionOutcome::Failure { error } => Feedback::Violation(Score { bits: FAILURE_SEVERITY_BITS }),
        ActionOutcome::PolicyViolation { rule } => Feedback::Violation(Score { bits: VIOLATION_SEVERITY_BITS }),
        ActionOutcome::Anomalous { deviation } => Feedback::Violation(deviation),
    }
}

/// The trust that a level is restored with.
pub open spec fn restored_trust(target: AutonomyLevel) -> Score {
    match target {
        AutonomyLevel::L4FullAutonomy => Score { bits: RESTORED_FULL_BITS },
        AutonomyLevel::L3Conditional => Score { bits: RESTORED_CONDITIONAL_BITS },
        AutonomyLevel::L2SemiAutonomous => Score { bits: RESTORED_SEMI_BITS },
        AutonomyLevel::L1Assisted => Score { bits: RESTORED_ASSISTED_BITS },
        AutonomyLevel::L0Frozen => Score { bits: RESTORED_FROZEN_BITS },
    }
}

/// The record that is written with a lockdown.
pub open spec fn lockdown_record(now: i128) -> TrustScore {
    TrustScore {
        confidence: Score { bits: ONE_BITS },
        evidence_count: LOCKDOWN_EVIDENCE_COUNT,
        ..crate::rbac::dynamic::trust::seeded_at(crate::score::zero(), now)
    }
}

/// The record that is written when someone is restored.
pub open spec fn restored_record(target: AutonomyLevel, now: i128) -> TrustScore {
    TrustScore {
        confidence: Score { bits: RESTORED_CONFIDENCE_BITS },
        evidence_count: RESTORED_EVIDENCE_COUNT,
        ..crate::rbac::dynamic::trust::seeded_at(restored_trust(target), now)
    }
}

/// What an outcome says.
pub fn severity_of(outcome: &ActionOutcome) -> (r: Feedback)
    ensures
        r == feedback_of(*outcome),
{
    match outcome {
        ActionOutcome::Success => Feedback::Compliant(Score::from_bits(SUCCESS_SEVERITY_BITS)),
        ActionOutcome::Failure { .. } => Feedback::Violation(Score::from_bits(FAILURE_SEVERITY_BITS)),
        ActionOutcome::PolicyViolation { .. } => Feedback::Violation(Score::from_bits(VIOLATION_SEVERITY_BITS)),
        ActionOutcome::Anomalous { deviation } => Feedback::Violation(*deviation),
    }
}

/// The trust that an outcome is added to: that of someone unknown where there is no record, or
/// none can be read.
pub fn feedback_base(read: &Result<Option<TrustScore>, KirinoError>, now: i128) -> (r: TrustScore)
    ensures
        r == trust_or_unknown(*read, now),
{
    match read {
        Ok(Some(t)) => *t,
        _ => TrustScore::unknown(now),
    }
}

/// The arithmetic on numbers that the host does.
pub struct Arithmetic<D, E, T, W> {
    /// How far the behaviour of someone is from their baseline.
    pub deviation: D,
    /// What is missing of trust, given the trust that is expected where some is.
    pub trust_penalty: E,
    /// What the dimensions come to with their weights.
    pub total: T,
    /// A number to three decimals.
    pub shown: W,
}

impl<
    D: Fn(&AnomalyDetector) -> Score,
    E: Fn(TrustScore, Option<Score>) -> Score,
    T: Fn(SubScores, [Score; 5]) -> Score,
    W: Fn(Score) -> String,
> Arithmetic<D, E, T, W> {
    /// Whether the arithmetic can be done on everything that comes up.
    pub open spec fn is_total(&self) -> bool {
        &&& forall|d: &AnomalyDetector| d.wf() ==> #[trigger] call_requires(self.deviation, (d,))
        &&& forall|t: TrustScore, floor: Option<Score>| #[trigger] call_requires(self.trust_penalty, (t, floor))
        &&& forall|sub: SubScores, weights: [Score; 5]| #[trigger] call_requires(self.total, (sub, weights))
        &&& forall|x: Score| #[trigger] call_requires(self.shown, (x,))
    }

    /// Whether a risk is what the dimensions come to, for someone whose behaviour is followed as
    /// it is.
    pub open spec fn risk_of(
        &self,
        inputs: RiskInputs,
        behaviour: AnomalyDetector,
        weights: [Score; 5],
        risk: RiskScore,
    ) -> bool {
        &&& risk.sub_scores.delegator_weight == inputs.delegator_weight
        &&& risk.sub_scores.sensitivity == inputs.sensitivity
        &&& risk.sub_scores.domain_mismatch == inputs.domain_mismatch
        &&& call_ensures(self.trust_penalty, (inputs.trust, inputs.trust_floor), risk.sub_scores.trust_penalty)
        &&& match inputs.anomaly {
            AnomalyReading::Fixed(x) => risk.sub_scores.anomaly == x,
            AnomalyReading::Deviation => call_ensures(self.deviation, (&behaviour,), risk.sub_scores.anomaly),
        }
        &&& call_ensures(self.total, (risk.sub_scores, weights), risk.value)
    }

    /// Whether the numbers of a risk are shown as they should be.
    pub open spec fn texts_of(&self, risk: RiskScore, texts: RiskTexts) -> bool {
        &&& call_ensures(self.shown, (risk.value,), texts.risk)
        &&& call_ensures(self.shown, (risk.sub_scores.delegator_weight,), texts.delegator_weight)
        &&& call_ensures(self.shown, (risk.sub_scores.trust_penalty,), texts.trust_penalty)
        &&& call_ensures(self.shown, (risk.sub_scores.sensitivity,), texts.sensitivity)
        &&& call_ensures(self.shown, (risk.sub_scores.domain_mismatch,), texts.domain_mismatch)
        &&& call_ensures(self.shown, (risk.sub_scores.anomaly,), texts.anomaly)
    }

    /// The numbers of a risk to three decimals.
    fn show(&self, risk: &RiskScore) -> (r: RiskTexts)
        requires
            self.is_total(),
        ensures
            self.texts_of(*risk, r),
    {
        RiskTexts {
            risk: (self.shown)(risk.value),
            delegator_weight: (self.shown)(risk.sub_scores.delegator_weight),
            trust_penalty: (self.shown)(risk.sub_scores.trust_penalty),
            sensitivity: (self.shown)(risk.sub_scores.sensitivity),
            domain_mismatch: (self.shown)(risk.sub_scores.domain_mismatch),
            anomaly: (self.shown)(risk.sub_scores.anomaly),
        }
    }
}

/// Whether reading the trust of someone can come to this: what is held, or a failure of the store.
pub open spec fn can_be_read<S: TrustScoreStore>(
    store: &S,
    id: Seq<char>,
    read: Result<Option<TrustScore>, KirinoError>,
) -> bool {
    &&& read matches Ok(score) ==> score == crate::rbac::dynamic::trust::record_of(store.held(), id)
    &&& exists|name: &String| name@ == id && #[trigger] call_ensures(S::get, (store, name), read)
}

/// Records what became of a request in the trust of who acted: the record, or that of someone
/// unknown where none can be read, goes through the step of the host. A failure to write it is
/// handed on.
pub fn feedback<S: TrustScoreStore, F: Fn(TrustScore, Feedback) -> TrustScore>(
    store: &mut S,
    request: &ActionRequest,
    outcome: &ActionOutcome,
    step: F,
    now: i128,
) -> (r: Result<(), KirinoError>)
    requires
        old(store).wf(),
        forall|t: TrustScore, f: Feedback| call_requires(step, (t, f)),
    ensures
        final(store).wf(),
        exists|read: Result<Option<TrustScore>, KirinoError>, next: TrustScore|
            {
                &&& #[trigger] can_be_read(old(store), request.delegator.id@, read)
                &&& #[trigger] call_ensures(step, (trust_or_unknown(read, now), feedback_of(*outcome)), next)
                &&& final(store).held() == old(store).held().insert(request.delegator.id@, next) || r is Err
                    && final(store).held() == old(store).held()
                &&& crate::rbac::dynamic::trust::set_as(*old(store), request.delegator.id@, next, r)
            },
{
    let read = store.get(&request.delegator.id);
    let next = step(feedback_base(&read, now), severity_of(outcome));
    assert(can_be_read(old(store), request.delegator.id@, read));
    let r = store.set(request.delegator.id.clone(), next);
    assert(crate::rbac::dynamic::trust::set_as(*old(store), request.delegator.id@, next, r));
    r
}

/// What is in force: the policy, the task domain, who is in lockdown, and whose behaviour is
/// followed.
pub struct AuthorizationArbiter {
    detectors: Table<String, AnomalyDetector>,
    max_detectors: usize,
    domain_scope: Option<DomainScope>,
    policy: DynamicPolicy,
    frozen: KeySet<String>,
}

impl AuthorizationArbiter {
    /// Whose behaviour is followed.
    pub closed spec fn followed(&self) -> Map<Seq<char>, AnomalyDetector> {
        self.detectors@
    }

    /// The most people whose behaviour is followed.
    pub closed spec fn room(&self) -> usize {
        self.max_detectors
    }

    /// The task domain.
    pub closed spec fn scope(&self) -> Option<DomainScope> {
        self.domain_scope
    }

    /// The policy.
    pub closed spec fn rules(&self) -> DynamicPolicy {
        self.policy
    }

    /// Who is in lockdown.
    pub closed spec fn locked(&self) -> Set<Seq<char>> {
        self.frozen@
    }

    /// Whether the value is well formed.
    pub closed spec fn wf(&self) -> bool {
        &&& self.detectors.wf()
        &&& self.policy.wf()
        &&& self.frozen.wf()
        &&& self.domain_scope is Some ==> self.domain_scope->Some_0.wf()
        &&& forall|k: Seq<char>| #[trigger] self.followed().contains_key(k) ==> self.followed()[k].wf()
    }

    /// Whether the behaviour of someone can be followed.
    pub open spec fn follows(&self, id: Seq<char>) -> bool {
        self.followed().contains_key(id) || self.followed().dom().len() < self.room()
    }

    /// An arbiter with a policy, which is not looked at, without a task domain and lockdowns.
    #[must_use]
    pub fn new(policy: DynamicPolicy) -> (r: Self)
        requires
            policy.wf(),
        ensures
            r.wf(),
            r.rules() == policy,
            r.scope() is None,
            r.locked() == Set::<Seq<char>>::empty(),
            r.followed() == Map::<Seq<char>, AnomalyDetector>::empty(),
            r.room() == MAX_ANOMALY_DETECTORS,
    {
        AuthorizationArbiter {
            detectors: Table::new(),
            max_detectors: MAX_ANOMALY_DETECTORS,
            domain_scope: None,
            policy,
            frozen: KeySet::new(),
        }
    }

    /// The arbiter with room for other than the default number of people.
    #[must_use]
    pub fn with_max_detectors(self, max: usize) -> (r: Self)
        requires
            self.wf(),
        ensures
            r.wf(),
            r.rules() == self.rules(),
            r.scope() == self.scope(),
            r.locked() == self.locked(),
            r.followed() == self.followed(),
            r.room() == max,
    {
        let ghost followed = self.followed();
        let r = AuthorizationArbiter {
            detectors: self.detectors,
            max_detectors: max,
            domain_scope: self.domain_scope,
            policy: self.policy,
            frozen: self.frozen,
        };
        assert(r.followed() == followed);
        r
    }

    /// The arbiter with a task domain.
    #[must_use]
    pub fn with_domain_scope(self, scope: DomainScope) -> (r: Self)
        requires
            self.wf(),
            scope.wf(),
        ensures
            r.wf(),
            r.rules() == self.rules(),
            r.scope() == Some(scope),
            r.locked() == self.locked(),
            r.followed() == self.followed(),
            r.room() == self.room(),
    {
        let ghost followed = self.followed();
        let r = AuthorizationArbiter {
            detectors: self.detectors,
            max_detectors: self.max_detectors,
            domain_scope: Some(scope),
            policy: self.policy,
            frozen: self.frozen,
        };
        assert(r.followed() == followed);
        r
    }

    /// Puts a policy in force if nothing is wrong with it, given the sum of its weights.
    pub fn set_policy(&mut self, policy: DynamicPolicy, weight_sum: Score) -> (r: Result<(), PolicyDefect>)
        requires
            old(self).wf(),
            policy.wf(),
        ensures
            final(self).wf(),
            match policy.defect(weight_sum) {
                Some(d) => r == Err::<(), PolicyDefect>(d) && final(self).rules() == old(self).rules(),
                None => r == Ok::<(), PolicyDefect>(()) && final(self).rules() == policy,
            },
            final(self).scope() == old(self).scope(),
            final(self).locked() == old(self).locked(),
            final(self).followed() == old(self).followed(),
            final(self).room() == old(self).room(),
    {
        match policy.validate(weight_sum) {
            Ok(()) => {
                self.policy = policy;
                assert(self.followed() == old(self).followed());
                Ok(())
            },
            Err(d) => Err(d),
        }
    }

    /// Puts a task domain in force in place of the one before.
    pub fn set_domain_scope(&mut self, scope: DomainScope)
        requires
            old(self).wf(),
            scope.wf(),
        ensures
            final(self).wf(),
            final(self).rules() == old(self).rules(),
            final(self).scope() == Some(scope),
            final(self).locked() == old(self).locked(),
            final(self).followed() == old(self).followed(),
            final(self).room() == old(self).room(),
    {
        self.domain_scope = Some(scope);
        assert(self.followed() == old(self).followed());
    }

    /// The refusal of someone in lockdown; none where no lockdown is on. Nothing is weighed and
    /// nothing is observed.
    #[must_use]
    pub fn refuse_frozen(&self, request: &ActionRequest, now: i128) -> (r: Option<AuthorizationVerdict>)
        requires
            self.wf(),
        ensures
            r is Some <==> self.locked().contains(request.delegator.id@),
            r matches Some(v) ==> v@ == lockdown_verdict(request.delegator.id@, now),
    {
        if !self.frozen.contains(&request.delegator.id) {
            return None;
        }
        let line = "delegator '".to_owned().concat(request.delegator.id.as_str()).concat(
            "' is frozen (lockdown active)",
        );
        let mut evidence: Vec<String> = Vec::new();
        let ghost said = line@;
        evidence.push(line);
        assert(crate::rbac::traits::texts_of(evidence@) =~= seq![said]);
        let zero = Score::from_bits(0);
        let one = Score::from_bits(ONE_BITS);
        Some(
            AuthorizationVerdict {
                allowed: false,
                autonomy_level: AutonomyLevel::L0Frozen,
                risk_score: one,
                sub_scores: SubScores {
                    delegator_weight: zero,
                    trust_penalty: one,
                    sensitivity: zero,
                    domain_mismatch: zero,
                    anomaly: zero,
                },
                evidence,
                mitigation: Some(Strategy::Block { reason: "lockdown".to_owned() }),
                timestamp: now,
            },
        )
    }

    /// How a request lies to the task domain, and the trust that is expected there.
    fn lie_of(&self, request: &ActionRequest) -> (r: (Score, Option<Score>))
        requires
            self.wf(),
        ensures
            r.0 == mismatch_of(self.scope(), request),
            r.1 == floor_of(self.scope()),
    {
        match &self.domain_scope {
            Some(scope) => {
                let path: Option<&str> = match &request.resource_path {
                    Some(p) => Some(p.as_str()),
                    None => None,
                };
                let mismatch = scope.evaluate(&request.category, path).excess_weight();
                let floor = scope.current_task_domain.trust_floor;
                if Score::from_bits(0).is_below(floor) {
                    (mismatch, Some(floor))
                } else {
                    (mismatch, None)
                }
            },
            None => (Score::from_bits(0), None),
        }
    }

    /// Observes a request in the behaviour of who acts, as far as there is room.
    fn follow(&mut self, request: &ActionRequest) -> (r: AnomalyReading)
        requires
            old(self).wf(),
        ensures
            final(self).wf(),
            final(self).rules() == old(self).rules(),
            final(self).scope() == old(self).scope(),
            final(self).locked() == old(self).locked(),
            final(self).room() == old(self).room(),
            followed_after(old(self), final(self), request, r),
    {
        let ghost id = request.delegator.id@;
        let ghost before = self.followed();
        let known = self.detectors.contains_key(&request.delegator.id);
        proof {
            self.detectors.lemma_len();
        }
        if self.detectors.len() >= self.max_detectors && !known {
            return AnomalyReading::Fixed(Score::from_bits(CAPACITY_SCORE_BITS));
        }
        let taken = self.detectors.remove(&request.delegator.id);
        let mut detector = match taken {
            Some(d) => d,
            None => AnomalyDetector::default(),
        };
        let ghost was_at = detector;
        assert(!known ==> crate::rbac::dynamic::anomaly::is_fresh(&was_at));
        let score = detector.take_in(request);
        let ghost now_at = detector;
        let _ = self.detectors.insert(request.delegator.id.clone(), detector);
        proof {
            assert(self.followed() =~= before.insert(id, now_at));
            assert forall|k: Seq<char>| #[trigger] self.followed().contains_key(k) implies self.followed()[k].wf() by {
                if k != id {
                    assert(before.contains_key(k));
                }
            }
        }
        match score {
            Some(s) => AnomalyReading::Fixed(s.value),
            None => AnomalyReading::Deviation,
        }
    }

    /// Whether a request was weighed: what the dimensions are, and who is followed after it.
    pub open spec fn weighed(
        &self,
        after: &Self,
        request: &ActionRequest,
        read: Result<Option<TrustScore>, KirinoError>,
        now: i128,
        inputs: RiskInputs,
    ) -> bool {
        &&& followed_after(self, after, request, inputs.anomaly)
        &&& inputs.delegator_weight == request.delegator.delegator_type.weighs()
        &&& inputs.trust == trust_weighed(read, now)
        &&& inputs.sensitivity == request.category.weighs()
        &&& inputs.domain_mismatch == mismatch_of(self.scope(), request)
        &&& inputs.trust_floor == floor_of(self.scope())
    }

    /// Lays out the dimensions of the risk of a request, given what reading the trust of who acts
    /// came to. The request is observed: weighing it twice counts it twice.
    pub fn weigh(&mut self, request: &ActionRequest, read: &Result<Option<TrustScore>, KirinoError>, now: i128) -> (r:
        RiskInputs)
        requires
            old(self).wf(),
        ensures
            final(self).wf(),
            final(self).rules() == old(self).rules(),
            final(self).scope() == old(self).scope(),
            final(self).locked() == old(self).locked(),
            final(self).room() == old(self).room(),
            old(self).weighed(final(self), request, *read, now, r),
    {
        let trust = match read {
            Ok(Some(t)) => *t,
            Ok(None) => TrustScore::unknown(now),
            Err(_) => {
                let blank = TrustScore::unknown(now);
                TrustScore {
                    value: blank.value,
                    confidence: Score::from_bits(ONE_BITS),
                    evidence_count: blank.evidence_count,
                    last_updated: blank.last_updated,
                    degradation_rate: blank.degradation_rate,
                }
            },
        };
        let (domain_mismatch, trust_floor) = self.lie_of(request);
        let anomaly = self.follow(request);
        RiskInputs {
            delegator_weight: request.delegator.delegator_type.weight(),
            trust,
            sensitivity: request.category.base_weight(),
            domain_mismatch,
            trust_floor,
            anomaly,
        }
    }

    /// Whether a risk is that of a request, with the trust as it can be read from a store.
    pub open spec fn rated<
        S: TrustScoreStore,
        D: Fn(&AnomalyDetector) -> Score,
        E: Fn(TrustScore, Option<Score>) -> Score,
        T: Fn(SubScores, [Score; 5]) -> Score,
        W: Fn(Score) -> String,
    >(
        &self,
        after: &Self,
        store: &S,
        request: &ActionRequest,
        arithmetic: &Arithmetic<D, E, T, W>,
        now: i128,
        risk: RiskScore,
    ) -> bool {
        exists|read: Result<Option<TrustScore>, KirinoError>, inputs: RiskInputs|
            {
                &&& can_be_read(store, request.delegator.id@, read)
                &&& #[trigger] self.weighed(after, request, read, now, inputs)
                &&& arithmetic.risk_of(
                    inputs,
                    after.followed()[request.delegator.id@],
                    self.rules().dimension_weights,
                    risk,
                )
            }
    }

    /// The risk of a request. The request is observed: rating it twice counts it twice.
    pub fn risk_score<
        S: TrustScoreStore,
        D: Fn(&AnomalyDetector) -> Score,
        E: Fn(TrustScore, Option<Score>) -> Score,
        T: Fn(SubScores, [Score; 5]) -> Score,
        W: Fn(Score) -> String,
    >(&mut self, store: &S, request: &ActionRequest, arithmetic: &Arithmetic<D, E, T, W>, now: i128) -> (r: RiskScore)
        requires
            old(self).wf(),
            store.wf(),
            arithmetic.is_total(),
        ensures
            final(self).wf(),
            final(self).rules() == old(self).rules(),
            final(self).scope() == old(self).scope(),
            final(self).locked() == old(self).locked(),
            final(self).room() == old(self).room(),
            old(self).rated(final(self), store, request, arithmetic, now, r),
    {
        let read = store.get(&request.delegator.id);
        let inputs = self.weigh(request, &read, now);
        let ghost id = request.delegator.id@;
        let trust_penalty = (arithmetic.trust_penalty)(inputs.trust, inputs.trust_floor);
        let anomaly = match inputs.anomaly {
            AnomalyReading::Fixed(x) => x,
            AnomalyReading::Deviation => match self.detector(&request.delegator.id) {
                Some(detector) => (arithmetic.deviation)(detector),
                None => Score::from_bits(0),
            },
        };
        let sub_scores = SubScores {
            delegator_weight: inputs.delegator_weight,
            trust_penalty,
            sensitivity: inputs.sensitivity,
            domain_mismatch: inputs.domain_mismatch,
            anomaly,
        };
        let value = (arithmetic.total)(sub_scores, self.policy.dimension_weights);
        let risk = RiskScore { value, sub_scores };
        assert(old(self).weighed(self, request, read, now, inputs));
        assert(arithmetic.risk_of(inputs, self.followed()[id], old(self).rules().dimension_weights, risk));
        risk
    }

    /// Whether deciding on a request can come to this: someone in lockdown is refused
    /// before anything is weighed or observed.
    pub open spec fn authorized<
        S: TrustScoreStore,
        D: Fn(&AnomalyDetector) -> Score,
        E: Fn(TrustScore, Option<Score>) -> Score,
        T: Fn(SubScores, [Score; 5]) -> Score,
        W: Fn(Score) -> String,
    >(
        &self,
        after: &Self,
        store: &S,
        request: &ActionRequest,
        arithmetic: &Arithmetic<D, E, T, W>,
        now: i128,
        verdict: VerdictShown,
    ) -> bool {
        &&& after.rules() == self.rules()
        &&& after.scope() == self.scope()
        &&& after.locked() == self.locked()
        &&& after.room() == self.room()
        &&& if self.locked().contains(request.delegator.id@) {
            &&& verdict == lockdown_verdict(request.delegator.id@, now)
            &&& after.followed() == self.followed()
        } else {
            exists|risk: RiskScore, texts: RiskTexts|
                {
                    &&& self.rated(after, store, request, arithmetic, now, risk)
                    &&& #[trigger] arithmetic.texts_of(risk, texts)
                    &&& verdict == verdict_on(&self.rules(), request, risk, texts, now)
                }
        }
    }

    /// Decides on a request. Someone in lockdown is refused before anything is read or observed;
    /// everyone else as the risk of the request comes to under the policy.
    pub fn authorize<
        S: TrustScoreStore,
        D: Fn(&AnomalyDetector) -> Score,
        E: Fn(TrustScore, Option<Score>) -> Score,
        T: Fn(SubScores, [Score; 5]) -> Score,
        W: Fn(Score) -> String,
    >(&mut self, store: &S, request: &ActionRequest, arithmetic: &Arithmetic<D, E, T, W>, now: i128) -> (r:
        AuthorizationVerdict)
        requires
            old(self).wf(),
            store.wf(),
            arithmetic.is_total(),
        ensures
            final(self).wf(),
            old(self).authorized(final(self), store, request, arithmetic, now, r@),
    {
        match self.refuse_frozen(request, now) {
            Some(refusal) => refusal,
            None => {
                let risk = self.risk_score(store, request, arithmetic, now);
                let texts = arithmetic.show(&risk);
                self.conclude(request, risk, &texts, now)
            },
        }
    }

    /// What is known of someone's behaviour.
    pub fn detector(&self, delegator_id: &String) -> (r: Option<&AnomalyDetector>)
        requires
            self.wf(),
        ensures
            match r {
                Some(d) => self.followed().contains_key(delegator_id@) && *d == self.followed()[delegator_id@] && d.wf(),
                None => !self.followed().contains_key(delegator_id@),
            },
    {
        let r = self.detectors.get(delegator_id);
        assert(r is Some ==> self.followed().contains_key(delegator_id@));
        r
    }

    /// The policy.
    pub fn policy(&self) -> (r: &DynamicPolicy)
        requires
            self.wf(),
        ensures
            *r == self.rules(),
            r.wf(),
    {
        &self.policy
    }

    /// The verdict that a risk comes to.
    #[must_use]
    pub fn conclude(&self, request: &ActionRequest, risk: RiskScore, texts: &RiskTexts, now: i128) -> (r:
        AuthorizationVerdict)
        requires
            self.wf(),
        ensures
            r@ == verdict_on(&self.rules(), request, risk, *texts, now),
    {
        let level = self.policy.map_to_level(risk.value);
        let strategy = self.policy.strategy_for(level);
        let allowed = level.is_allowing();
        let first = "risk=".to_owned().concat(texts.risk.as_str()).concat(" level=").concat(level.as_str()).concat(
            " delegator_type=",
        ).concat(request.delegator.delegator_type.as_str());
        let second = "sub: delegator_w=".to_owned().concat(texts.delegator_weight.as_str()).concat(" trust_p=").concat(
            texts.trust_penalty.as_str(),
        ).concat(" sens=").concat(texts.sensitivity.as_str()).concat(" domain=").concat(
            texts.domain_mismatch.as_str(),
        ).concat(" anomaly=").concat(texts.anomaly.as_str());
        let ghost lines = seq![first@, second@];
        let mut evidence: Vec<String> = Vec::new();
        evidence.push(first);
        evidence.push(second);
        assert(crate::rbac::traits::texts_of(evidence@) =~= lines);
        let throttles = match &strategy {
            Strategy::Throttle { .. } => true,
            _ => false,
        };
        let mitigation = if !allowed || throttles {
            Some(strategy)
        } else {
            None
        };
        AuthorizationVerdict {
            allowed,
            autonomy_level: level,
            risk_score: risk.value,
            sub_scores: risk.sub_scores,
            evidence,
            mitigation,
            timestamp: now,
        }
    }

    /// Puts someone in lockdown, and returns the record to write in place of their trust.
    pub fn lockdown(&mut self, delegator_id: &String, now: i128) -> (r: TrustScore)
        requires
            old(self).wf(),
        ensures
            final(self).wf(),
            final(self).locked() == old(self).locked().insert(delegator_id@),
            final(self).rules() == old(self).rules(),
            final(self).scope() == old(self).scope(),
            final(self).followed() == old(self).followed(),
            final(self).room() == old(self).room(),
            r == lockdown_record(now),
    {
        let _ = self.frozen.insert(delegator_id.clone());
        assert(self.followed() == old(self).followed());
        let seed = TrustScore::new_at(Score::from_bits(0), now);
        TrustScore {
            value: seed.value,
            confidence: Score::from_bits(ONE_BITS),
            evidence_count: LOCKDOWN_EVIDENCE_COUNT,
            last_updated: seed.last_updated,
            degradation_rate: seed.degradation_rate,
        }
    }

    /// Ends a lockdown and forgets the behaviour, and returns the record to write in place of the
    /// trust.
    pub fn restore(&mut self, delegator_id: &String, target: AutonomyLevel, now: i128) -> (r: TrustScore)
        requires
            old(self).wf(),
        ensures
            final(self).wf(),
            final(self).locked() == old(self).locked().remove(delegator_id@),
            final(self).rules() == old(self).rules(),
            final(self).scope() == old(self).scope(),
            final(self).followed() == old(self).followed().remove(delegator_id@),
            final(self).room() == old(self).room(),
            r == restored_record(target, now),
    {
        let ghost before = self.followed();
        let _ = self.frozen.remove(delegator_id);
        let _ = self.detectors.remove(delegator_id);
        proof {
            assert(self.followed() =~= before.remove(delegator_id@));
            assert forall|k: Seq<char>| #[trigger] self.followed().contains_key(k) implies self.followed()[k].wf() by {
                assert(before.contains_key(k));
            }
        }
        let value = match target {
            AutonomyLevel::L4FullAutonomy => Score::from_bits(RESTORED_FULL_BITS),
            AutonomyLevel::L3Conditional => Score::from_bits(RESTORED_CONDITIONAL_BITS),
            AutonomyLevel::L2SemiAutonomous => Score::from_bits(RESTORED_SEMI_BITS),
            AutonomyLevel::L1Assisted => Score::from_bits(RESTORED_ASSISTED_BITS),
            AutonomyLevel::L0Frozen => Score::from_bits(RESTORED_FROZEN_BITS),
        };
        let seed = TrustScore::new_at(value, now);
        TrustScore {
            value: seed.value,
            confidence: Score::from_bits(RESTORED_CONFIDENCE_BITS),
            evidence_count: RESTORED_EVIDENCE_COUNT,
            last_updated: seed.last_updated,
            degradation_rate: seed.degradation_rate,
        }
    }

    /// How things stand with someone, given what reading their trust came to.
    #[must_use]
    pub fn status(&self, delegator_id: &String, read: &Result<Option<TrustScore>, KirinoError>, now: i128) -> (r:
        DelegatorStatus)
        requires
            self.wf(),
        ensures
            r.frozen == self.locked().contains(delegator_id@),
            r.trust_store_ok == read is Ok,
            r.trust == trust_or_unknown(*read, now),
            r.anomaly_baseline_ready == (self.followed().contains_key(delegator_id@)
                && self.followed()[delegator_id@].ready()),
    {
        let frozen = self.frozen.contains(delegator_id);
        let anomaly_baseline_ready = match self.detectors.get(delegator_id) {
            Some(d) => d.is_baseline_ready(),
            None => false,
        };
        let trust_store_ok = match read {
            Ok(_) => true,
            Err(_) => false,
        };
        DelegatorStatus { frozen, trust_store_ok, trust: feedback_base(read, now), anomaly_baseline_ready }
    }
}

/// What leaving the task domain costs; nothing without one.
pub open spec fn mismatch_of(scope: Option<DomainScope>, request: &ActionRequest) -> Score {
    match scope {
        Some(s) => s.lies(request.category, crate::text::optional_text(request.resource_path)).costs(),
        None => crate::score::zero(),
    }
}

/// The trust that is expected, where it is more than none.
pub open spec fn floor_of(scope: Option<DomainScope>) -> Option<Score> {
    match scope {
        Some(s) => if crate::score::zero().below(s.current_task_domain.trust_floor) {
            Some(s.current_task_domain.trust_floor)
        } else {
            None
        },
        None => None,
    }
}

/// Whether a request was observed in the behaviour of who acts, as far as there was room, and in
/// no one else's.
pub open spec fn followed_after(
    from: &AuthorizationArbiter,
    to: &AuthorizationArbiter,
    request: &ActionRequest,
    reading: AnomalyReading,
) -> bool {
    let id = request.delegator.id@;
    if !from.follows(id) {
        &&& to.followed() == from.followed()
        &&& reading == AnomalyReading::Fixed(Score { bits: CAPACITY_SCORE_BITS })
    } else {
        &&& to.followed().contains_key(id)
        &&& to.followed() == from.followed().insert(id, to.followed()[id])
        &&& if from.followed().contains_key(id) {
            crate::rbac::dynamic::anomaly::observed_once(&from.followed()[id], &to.followed()[id], request)
        } else {
            exists|fresh: AnomalyDetector| #[trigger]
                crate::rbac::dynamic::anomaly::is_fresh(&fresh) && crate::rbac::dynamic::anomaly::observed_once(
                    &fresh,
                    &to.followed()[id],
                    request,
                )
        }
        &&& reading == (if to.followed()[id].ready() {
            AnomalyReading::Deviation
        } else {
            AnomalyReading::Fixed(Score { bits: crate::rbac::dynamic::anomaly::COLD_SCORE_BITS })
        })
    }
}

/// The audit entry of a verdict, given the total to three decimals and the trust that is left of
/// the trust penalty.
pub fn audit_entry_of(verdict: &AuthorizationVerdict, request: &ActionRequest, risk_text: &str, trust: Score) -> (r: AuditEntry)
    ensures
        r@ == entry_of(verdict@, request, risk_text@, trust),
{
    let mitigation = match &verdict.mitigation {
        Some(s) => Some(s.message()),
        None => None,
    };
    AuditEntry {
        id: 0,
        subject_id: request.delegator.id.clone(),
        subject_type: request.delegator.delegator_type.as_str().to_owned(),
        permission: request.action.clone(),
        endpoint: "dynamic:".to_owned().concat(verdict.autonomy_level.as_str()).concat(":risk=").concat(risk_text),
        granted: verdict.allowed,
        created_at: verdict.timestamp,
        verdict: Some(
            AuditVerdict {
                autonomy_level: verdict.autonomy_level.as_str().to_owned(),
                risk_score: verdict.risk_score,
                sub_scores: AuditSubScores {
                    delegator_weight: verdict.sub_scores.delegator_weight,
                    trust_penalty: verdict.sub_scores.trust_penalty,
                    trust,
                    sensitivity: verdict.sub_scores.sensitivity,
                    domain_mismatch: verdict.sub_scores.domain_mismatch,
                    anomaly: verdict.sub_scores.anomaly,
                },
                evidence: copy_texts(&verdict.evidence),
                mitigation,
            },
        ),
    }
}

/// The audit entry of a verdict.
pub open spec fn entry_of(
    v: VerdictShown,
    request: &ActionRequest,
    risk_text: Seq<char>,
    trust: Score,
) -> crate::rbac::audit::entry::EntryView {
    crate::rbac::audit::entry::EntryView {
        id: 0,
        subject_id: request.delegator.id@,
        subject_type: request.delegator.delegator_type.text(),
        permission: request.action@,
        endpoint: "dynamic:"@ + v.autonomy_level.text() + ":risk="@ + risk_text,
        granted: v.allowed,
        created_at: v.timestamp,
        verdict: Some(
            crate::rbac::audit::entry::VerdictView {
                autonomy_level: v.autonomy_level.text(),
                risk_score: v.risk_score,
                sub_scores: AuditSubScores {
                    delegator_weight: v.sub_scores.delegator_weight,
                    trust_penalty: v.sub_scores.trust_penalty,
                    trust,
                    sensitivity: v.sub_scores.sensitivity,
                    domain_mismatch: v.sub_scores.domain_mismatch,
                    anomaly: v.sub_scores.anomaly,
                },
                evidence: v.evidence,
                mitigation: match v.mitigation {
                    Some(s) => Some(s.text()),
                    None => None,
                },
            },
        ),
    }
}

/// A verdict allows exactly at the two highest levels.
pub proof fn law_only_the_highest_levels_allow(
    policy: &DynamicPolicy,
    request: &ActionRequest,
    risk: RiskScore,
    texts: RiskTexts,
    now: i128,
)
    ensures
        ({
            let v = verdict_on(policy, request, risk, texts, now);
            &&& v.allowed <==> v.autonomy_level == AutonomyLevel::L3Conditional || v.autonomy_level
                == AutonomyLevel::L4FullAutonomy
            &&& !v.allowed ==> v.mitigation is Some
            &&& v.allowed && v.mitigation is Some ==> v.mitigation->Some_0 is Throttle
        }),
{
}

/// A risk that no band holds, such as one that is not a number, is refused.
pub proof fn law_unmatched_risk_is_refused(
    policy: &DynamicPolicy,
    request: &ActionRequest,
    risk: RiskScore,
    texts: RiskTexts,
    now: i128,
)
    requires
        risk.value.rank() is None || forall|level: AutonomyLevel| !#[trigger] policy.covers(level, risk.value),
    ensures
        !verdict_on(policy, request, risk, texts, now).allowed,
{
    crate::rbac::dynamic::policy::law_unmatched_risk_is_frozen(policy, risk.value);
}

/// Trust that is missing, or that cannot be read, is no trust: its value is zero.
pub proof fn law_missing_trust_is_no_trust(read: Result<Option<TrustScore>, KirinoError>, now: i128)
    requires
        !(read matches Ok(Some(_))),
    ensures
        trust_weighed(read, now).value == crate::score::zero(),
{
}

/// The audit entry of a verdict records its decision, its level and its risk.
pub proof fn law_audit_entry_tells_the_decision(
    v: VerdictShown,
    request: &ActionRequest,
    risk_text: Seq<char>,
    trust: Score,
)
    ensures
        entry_of(v, request, risk_text, trust).granted == v.allowed,
        entry_of(v, request, risk_text, trust).verdict->Some_0.autonomy_level == v.autonomy_level.text(),
        entry_of(v, request, risk_text, trust).verdict->Some_0.risk_score == v.risk_score,
        entry_of(v, request, risk_text, trust).verdict->Some_0.evidence == v.evidence,
{
}

/// Weighing a request never follows more people than there is room for.
pub proof fn law_detectors_keep_to_their_room(
    from: &AuthorizationArbiter,
    to: &AuthorizationArbiter,
    request: &ActionRequest,
    reading: AnomalyReading,
)
    requires
        followed_after(from, to, request, reading),
        from.followed().dom().finite(),
        from.followed().dom().len() <= from.room(),
    ensures
        to.followed().dom().len() <= from.room(),
{
    let id = request.delegator.id@;
    if from.follows(id) {
        assert(to.followed().dom() =~= from.followed().dom().insert(id));
    }
}

/// A lockdown that is on refuses every request, whatever the trust, the domain and the policy,
/// and a restored person is no longer refused outright.
pub proof fn law_lockdown_holds_until_restore(locked: Set<Seq<char>>, id: Seq<char>, other: Seq<char>, now: i128)
    ensures
        locked.insert(id).contains(id),
        !locked.insert(id).remove(id).contains(id),
        other != id ==> (locked.insert(id).contains(other) <==> locked.contains(other)),
        !lockdown_verdict(id, now).allowed,
        lockdown_verdict(id, now).autonomy_level == AutonomyLevel::L0Frozen,
{
}

/// Whether the band of a level holds a risk: it is from the first number on and below the second.
pub open spec fn band_holds(policy: &DynamicPolicy, level: AutonomyLevel, risk: Score) -> bool {
    let bands = policy.autonomy_thresholds@;
    bands.contains_key(level) && risk.reaches(bands[level].0) && risk.below(bands[level].1)
}

/// What is set for a level, or a refusal where nothing is.
pub open spec fn set_for(policy: &DynamicPolicy, level: AutonomyLevel) -> StrategyView {
    if policy.level_strategies@.contains_key(level) {
        policy.level_strategies@[level]@
    } else {
        StrategyView::Block("no-strategy-defined"@)
    }
}

/// Whether a verdict is one that a risk can have under a policy. It allows exactly where the band of
/// one of the two highest levels holds the risk. What it asks of the host is what is set for its
/// level: always where it does not allow, and where it does, exactly if that is a rate.
pub open spec fn fits_risk(policy: &DynamicPolicy, v: AuthorizationVerdict) -> bool {
    let strategy = set_for(policy, v.autonomy_level);
    &&& v.allowed <==> band_holds(policy, AutonomyLevel::L4FullAutonomy, v.risk_score) || band_holds(
        policy,
        AutonomyLevel::L3Conditional,
        v.risk_score,
    )
    &&& v.allowed <==> v.autonomy_level is L4FullAutonomy || v.autonomy_level is L3Conditional
    &&& v.autonomy_level is L4FullAutonomy <==> band_holds(policy, AutonomyLevel::L4FullAutonomy, v.risk_score)
    &&& !(v.autonomy_level is L0Frozen) ==> band_holds(policy, v.autonomy_level, v.risk_score)
    &&& v.autonomy_level is L1Assisted ==> !band_holds(policy, AutonomyLevel::L2SemiAutonomous, v.risk_score)
    &&& v.autonomy_level is L0Frozen ==> !band_holds(policy, AutonomyLevel::L2SemiAutonomous, v.risk_score)
        && !band_holds(policy, AutonomyLevel::L1Assisted, v.risk_score)
    &&& !v.allowed ==> (v.mitigation matches Some(m) && m@ == strategy)
    &&& v.allowed && strategy is Throttle ==> (v.mitigation matches Some(m) && m@ == strategy)
    &&& v.allowed && !(strategy is Throttle) ==> v.mitigation is None
}

/// The verdict on a risk is decided by the bands of the policy, and a rate that is set for its level
/// reaches the host. The risk, its dimensions and the moment are recorded as they are.
pub proof fn law_verdict_follows_the_bands(
    arbiter: &AuthorizationArbiter,
    request: &ActionRequest,
    risk: RiskScore,
    texts: &RiskTexts,
    now: i128,
    v: AuthorizationVerdict,
)
    requires
        call_ensures(AuthorizationArbiter::conclude, (arbiter, request, risk, texts, now), v),
    ensures
        fits_risk(&arbiter.rules(), v),
        v.risk_score == risk.value,
        v.sub_scores == risk.sub_scores,
        v.timestamp == now,
        v.evidence@.len() == 2,
        v.evidence@[0]@ == "risk="@ + texts.risk@ + " level="@ + v.autonomy_level.text() + " delegator_type="@
            + request.delegator.delegator_type.text(),
        v.evidence@[1]@ == "sub: delegator_w="@ + texts.delegator_weight@ + " trust_p="@ + texts.trust_penalty@
            + " sens="@ + texts.sensitivity@ + " domain="@ + texts.domain_mismatch@ + " anomaly="@ + texts.anomaly@,
{
    let shown = crate::rbac::traits::texts_of(v.evidence@);
    assert(shown.len() == 2);
    assert(shown[0] == v.evidence@[0]@);
    assert(shown[1] == v.evidence@[1]@);
}

/// Someone in lockdown is refused outright, at the lowest level and with the whole risk, whatever the
/// policy says, and nothing of the request is observed; nobody else is refused so.
pub proof fn law_lockdown_refuses(
    arbiter: &AuthorizationArbiter,
    request: &ActionRequest,
    now: i128,
    r: Option<AuthorizationVerdict>,
)
    requires
        call_ensures(AuthorizationArbiter::refuse_frozen, (arbiter, request, now), r),
    ensures
        r is Some <==> arbiter.locked().contains(request.delegator.id@),
        r matches Some(v) ==> {
            &&& !v.allowed
            &&& v.autonomy_level is L0Frozen
            &&& v.risk_score.bits == 0x3FF0_0000_0000_0000
            &&& v.sub_scores.trust_penalty.bits == 0x3FF0_0000_0000_0000
            &&& v.mitigation matches Some(Strategy::Block { reason }) && reason@ == "lockdown"@
            &&& v.evidence@.len() == 1
            &&& v.evidence@[0]@ == "delegator '"@ + request.delegator.id@ + "' is frozen (lockdown active)"@
            &&& v.timestamp == now
        },
{
    if let Some(v) = r {
        assert(crate::rbac::traits::texts_of(v.evidence@).len() == 1);
        assert(crate::rbac::traits::texts_of(v.evidence@)[0] == v.evidence@[0]@);
    }
}

/// The dimensions of a risk are those of the request: the kind of who acts, the sensitivity of the
/// category, what leaving the task domain costs, and the trust of who acts. Trust that is on record
/// counts as it is; without a record there is none, and where it cannot be read, none for certain.
pub proof fn law_dimensions_are_those_of_the_request(
    before: AuthorizationArbiter,
    after: AuthorizationArbiter,
    request: &ActionRequest,
    read: &Result<Option<TrustScore>, KirinoError>,
    now: i128,
    inputs: RiskInputs,
    kind_risk: Score,
    sensitivity: Score,
)
    requires
        exists|arbiter: &mut AuthorizationArbiter|
            *arbiter == before && *final(arbiter) == after && #[trigger] call_ensures(
                AuthorizationArbiter::weigh,
                (arbiter, request, read, now),
                inputs,
            ),
        call_ensures(DelegatorType::weight, (request.delegator.delegator_type,), kind_risk),
        call_ensures(
            crate::rbac::dynamic::metrics::ActionCategory::base_weight,
            (&request.category,),
            sensitivity,
        ),
    ensures
        inputs.delegator_weight == kind_risk,
        inputs.sensitivity == sensitivity,
        *read matches Ok(Some(t)) ==> inputs.trust == t,
        *read matches Ok(None) ==> inputs.trust.value.bits == 0 && inputs.trust.confidence.bits == 0,
        *read is Err ==> inputs.trust.value.bits == 0 && inputs.trust.confidence.bits == 0x3FF0_0000_0000_0000,
        before.scope() is None ==> inputs.domain_mismatch.bits == 0 && inputs.trust_floor is None,
        before.scope() matches Some(s) ==> {
            let floor = s.current_task_domain.trust_floor;
            &&& inputs.trust_floor == (if (Score { bits: 0 }).below(floor) {
                Some(floor)
            } else {
                None
            })
            &&& forall|path: Option<&str>, lies: crate::rbac::dynamic::domain::DomainMatch|
                {
                    &&& crate::text::str_text(path) == crate::text::optional_text(request.resource_path)
                    &&& #[trigger] call_ensures(DomainScope::evaluate, (&s, &request.category, path), lies)
                } ==> match lies {
                    crate::rbac::dynamic::domain::DomainMatch::InDomain => inputs.domain_mismatch.bits == 0,
                    crate::rbac::dynamic::domain::DomainMatch::Adjacent { excess_weight } => inputs.domain_mismatch
                        == excess_weight,
                    crate::rbac::dynamic::domain::DomainMatch::DomainResourceMismatch { excess_weight } =>
                        inputs.domain_mismatch == excess_weight,
                    crate::rbac::dynamic::domain::DomainMatch::OutOfDomain { excess_weight } => inputs.domain_mismatch
                        == excess_weight,
                }
        },
        after.rules() == before.rules(),
        after.scope() == before.scope(),
        after.locked() == before.locked(),
{
}

/// Weighing a request observes it in the behaviour of who acts and in no one else's. Someone whose
/// behaviour cannot be followed for want of room is rated at 0.15, and nobody is followed in their
/// place; someone of whom too little was observed at 0.10.
pub proof fn law_behaviour_is_followed_as_far_as_there_is_room(
    before: AuthorizationArbiter,
    after: AuthorizationArbiter,
    request: &ActionRequest,
    read: &Result<Option<TrustScore>, KirinoError>,
    now: i128,
    inputs: RiskInputs,
    other: Seq<char>,
)
    requires
        exists|arbiter: &mut AuthorizationArbiter|
            *arbiter == before && *final(arbiter) == after && #[trigger] call_ensures(
                AuthorizationArbiter::weigh,
                (arbiter, request, read, now),
                inputs,
            ),
        other != request.delegator.id@,
    ensures
        ({
            let id = request.delegator.id@;
            let full = !before.followed().contains_key(id) && before.followed().dom().len() >= before.room();
            &&& after.followed().contains_key(other) <==> before.followed().contains_key(other)
            &&& before.followed().contains_key(other) ==> after.followed()[other] == before.followed()[other]
            &&& after.followed().contains_key(id) <==> !full
            &&& full ==> inputs.anomaly == AnomalyReading::Fixed(Score { bits: 0x3FC3_3333_3333_3333 })
            &&& !full && !after.followed()[id].ready() ==> inputs.anomaly == AnomalyReading::Fixed(
                Score { bits: 0x3FB9_9999_9999_999A },
            )
            &&& !full && after.followed()[id].ready() ==> inputs.anomaly is Deviation
        }),
{
}

/// A decision on a request of someone in lockdown is the refusal of it, and changes nothing. Every
/// other one fits the risk of the request, and the risk is the weighted total of the dimensions.
pub proof fn law_decision_fits_the_risk<
    S: TrustScoreStore,
    D: Fn(&AnomalyDetector) -> Score,
    E: Fn(TrustScore, Option<Score>) -> Score,
    T: Fn(SubScores, [Score; 5]) -> Score,
    W: Fn(Score) -> String,
>(
    before: AuthorizationArbiter,
    after: AuthorizationArbiter,
    store: &S,
    request: &ActionRequest,
    arithmetic: &Arithmetic<D, E, T, W>,
    now: i128,
    v: AuthorizationVerdict,
)
    requires
        exists|arbiter: &mut AuthorizationArbiter|
            *arbiter == before && *final(arbiter) == after && #[trigger] call_ensures(
                AuthorizationArbiter::authorize::<S, D, E, T, W>,
                (arbiter, store, request, arithmetic, now),
                v,
            ),
    ensures
        after.rules() == before.rules(),
        after.scope() == before.scope(),
        after.locked() == before.locked(),
        after.room() == before.room(),
        v.timestamp == now,
        before.locked().contains(request.delegator.id@) ==> {
            &&& !v.allowed
            &&& v.autonomy_level is L0Frozen
            &&& v.risk_score.bits == 0x3FF0_0000_0000_0000
            &&& v.mitigation matches Some(Strategy::Block { reason }) && reason@ == "lockdown"@
            &&& after.followed() == before.followed()
        },
        !before.locked().contains(request.delegator.id@) ==> {
            &&& fits_risk(&before.rules(), v)
            &&& call_ensures(arithmetic.total, (v.sub_scores, before.rules().dimension_weights), v.risk_score)
            &&& v.sub_scores.delegator_weight == request.delegator.delegator_type.weighs()
            &&& v.sub_scores.sensitivity == request.category.weighs()
            &&& before.scope() is None ==> v.sub_scores.domain_mismatch.bits == 0
            &&& before.scope() matches Some(s) ==> v.sub_scores.domain_mismatch == s.lies(
                request.category,
                crate::text::optional_text(request.resource_path),
            ).costs()
            &&& before.scope() is None && store.held().contains_key(request.delegator.id@) ==> {
                ||| call_ensures(
                    arithmetic.trust_penalty,
                    (store.held()[request.delegator.id@], None),
                    v.sub_scores.trust_penalty,
                )
                ||| exists|name: &String, e: KirinoError|
                    name@ == request.delegator.id@ && #[trigger] call_ensures(S::get, (store, name), Err(e))
            }
        },
{
    if !before.locked().contains(request.delegator.id@) {
        let (risk, texts) = choose|risk: RiskScore, texts: RiskTexts|
            {
                &&& before.rated(&after, store, request, arithmetic, now, risk)
                &&& #[trigger] arithmetic.texts_of(risk, texts)
                &&& v@ == verdict_on(&before.rules(), request, risk, texts, now)
            };
        let (read, inputs) = choose|read: Result<Option<TrustScore>, KirinoError>, inputs: RiskInputs|
            {
                &&& can_be_read(store, request.delegator.id@, read)
                &&& #[trigger] before.weighed(&after, request, read, now, inputs)
                &&& arithmetic.risk_of(
                    inputs,
                    after.followed()[request.delegator.id@],
                    before.rules().dimension_weights,
                    risk,
                )
            };
        assert(v.risk_score == risk.value);
        if let Err(e) = read {
            let name = choose|name: &String|
                name@ == request.delegator.id@ && #[trigger] call_ensures(S::get, (store, name), read);
            assert(read == Err::<Option<TrustScore>, KirinoError>(e));
            assert(call_ensures(S::get, (store, name), Err(e)));
        }
    }
}

/// A lockdown is on from when it is set until the person is restored, concerns no one else, and is
/// recorded as no trust for certain. A restored person starts over with the trust of a level: 0.95,
/// 0.8, 0.6, 0.4 or 0.1 from the highest down.
pub proof fn law_lockdown_and_restore(
    before: AuthorizationArbiter,
    locked: AuthorizationArbiter,
    restored: AuthorizationArbiter,
    id: &String,
    target: AutonomyLevel,
    now: i128,
    mark: TrustScore,
    fresh: TrustScore,
    other: Seq<char>,
)
    requires
        exists|arbiter: &mut AuthorizationArbiter|
            *arbiter == before && *final(arbiter) == locked && #[trigger] call_ensures(
                AuthorizationArbiter::lockdown,
                (arbiter, id, now),
                mark,
            ),
        exists|arbiter: &mut AuthorizationArbiter|
            *arbiter == locked && *final(arbiter) == restored && #[trigger] call_ensures(
                AuthorizationArbiter::restore,
                (arbiter, id, target, now),
                fresh,
            ),
        other != id@,
    ensures
        locked.locked().contains(id@),
        !restored.locked().contains(id@),
        locked.locked().contains(other) <==> before.locked().contains(other),
        restored.locked().contains(other) <==> before.locked().contains(other),
        mark.value.bits == 0,
        mark.confidence.bits == 0x3FF0_0000_0000_0000,
        mark.evidence_count == 999,
        mark.last_updated == now,
        !restored.followed().contains_key(id@),
        restored.followed().contains_key(other) <==> before.followed().contains_key(other),
        fresh.value.bits == (match target {
            AutonomyLevel::L4FullAutonomy => 0x3FEE_6666_6666_6666u64,
            AutonomyLevel::L3Conditional => 0x3FE9_9999_9999_999Au64,
            AutonomyLevel::L2SemiAutonomous => 0x3FE3_3333_3333_3333u64,
            AutonomyLevel::L1Assisted => 0x3FD9_9999_9999_999Au64,
            AutonomyLevel::L0Frozen => 0x3FB9_9999_9999_999Au64,
        }),
        fresh.confidence.bits == 0x3FE9_9999_9999_999A,
        fresh.evidence_count == 10,
        fresh.last_updated == now,
        restored.rules() == before.rules(),
        restored.scope() == before.scope(),
{
}

/// What an outcome says: a success speaks for someone by 0.5, a failure against them by 0.2, a broken
/// rule by 0.8, and unusual behaviour by its deviation.
pub proof fn law_outcomes_speak(outcome: &ActionOutcome, says: Feedback)
    requires
        call_ensures(severity_of, (outcome,), says),
    ensures
        says is Compliant <==> outcome is Success,
        outcome is Success ==> says->Compliant_0.bits == 0x3FE0_0000_0000_0000,
        outcome is Failure ==> says->Violation_0.bits == 0x3FC9_9999_9999_999A,
        outcome is PolicyViolation ==> says->Violation_0.bits == 0x3FE9_9999_9999_999A,
        *outcome matches ActionOutcome::Anomalous { deviation } ==> says->Violation_0 == deviation,
{
}

/// A policy that is sound is put in force, and one that is not changes nothing.
pub proof fn law_unsound_policy_changes_nothing(
    before: AuthorizationArbiter,
    after: AuthorizationArbiter,
    policy: DynamicPolicy,
    weight_sum: Score,
    r: Result<(), PolicyDefect>,
    valid: Result<(), PolicyDefect>,
)
    requires
        exists|arbiter: &mut AuthorizationArbiter|
            *arbiter == before && *final(arbiter) == after && #[trigger] call_ensures(
                AuthorizationArbiter::set_policy,
                (arbiter, policy, weight_sum),
                r,
            ),
        call_ensures(DynamicPolicy::validate, (&policy, weight_sum), valid),
    ensures
        r is Ok <==> valid is Ok,
        after.rules() == (if valid is Ok {
            policy
        } else {
            before.rules()
        }),
        after.locked() == before.locked(),
        after.followed() == before.followed(),
        after.scope() == before.scope(),
{
}

/// How things stand with someone: whether a lockdown is on, whether their trust could be read, their
/// trust or that of someone unknown, and whether enough of their behaviour was observed.
pub proof fn law_status_is_how_things_stand(
    arbiter: &AuthorizationArbiter,
    id: &String,
    read: &Result<Option<TrustScore>, KirinoError>,
    now: i128,
    status: DelegatorStatus,
)
    requires
        call_ensures(AuthorizationArbiter::status, (arbiter, id, read, now), status),
    ensures
        status.frozen <==> arbiter.locked().contains(id@),
        status.trust_store_ok <==> *read is Ok,
        *read matches Ok(Some(t)) ==> status.trust == t,
        !(*read matches Ok(Some(_))) ==> status.trust.value.bits == 0 && status.trust.last_updated == now,
        status.anomaly_baseline_ready ==> arbiter.followed().contains_key(id@),
        arbiter.followed().contains_key(id@) ==> status.anomaly_baseline_ready == arbiter.followed()[id@].ready(),
{
}

/// The audit entry of a verdict is granted exactly if the verdict allows, and holds who acted, what
/// was done, the level, the risk with its dimensions, the reasons and what the host was asked to do.
pub proof fn law_audit_entry_records_the_verdict(
    v: &AuthorizationVerdict,
    request: &ActionRequest,
    risk_text: &str,
    trust: Score,
    entry: AuditEntry,
    kind: &'static str,
    level: &'static str,
)
    requires
        call_ensures(audit_entry_of, (v, request, risk_text, trust), entry),
        call_ensures(DelegatorType::as_str, (request.delegator.delegator_type,), kind),
        call_ensures(AutonomyLevel::as_str, (v.autonomy_level,), level),
    ensures
        entry.id == 0,
        entry.subject_type@ == kind@,
        entry.endpoint@ == "dynamic:"@ + level@ + ":risk="@ + risk_text@,
        entry.granted == v.allowed,
        entry.subject_id@ == request.delegator.id@,
        entry.permission@ == request.action@,
        entry.created_at == v.timestamp,
        entry@.verdict matches Some(told) && {
            &&& told.autonomy_level == level@
            &&& told.risk_score == v.risk_score
            &&& told.sub_scores.delegator_weight == v.sub_scores.delegator_weight
            &&& told.sub_scores.trust_penalty == v.sub_scores.trust_penalty
            &&& told.sub_scores.sensitivity == v.sub_scores.sensitivity
            &&& told.sub_scores.domain_mismatch == v.sub_scores.domain_mismatch
            &&& told.sub_scores.anomaly == v.sub_scores.anomaly
            &&& told.sub_scores.trust == trust
            &&& told.evidence == crate::rbac::traits::texts_of(v.evidence@)
            &&& told.mitigation is Some <==> v.mitigation is Some
            &&& v.mitigation matches Some(m) ==> forall|text: String| #[trigger]
                call_ensures(Strategy::message, (&m,), text) ==> told.mitigation->Some_0 == text@
        },
{
}

/// What became of a request is recorded of who acted and of nobody else: the record that there is, or
/// that of someone unknown where none can be read, goes through the step of the host with what the
/// outcome says.
pub proof fn law_outcome_is_recorded<S: TrustScoreStore, F: Fn(TrustScore, Feedback) -> TrustScore>(
    before: S,
    after: S,
    request: &ActionRequest,
    outcome: &ActionOutcome,
    step: F,
    now: i128,
    r: Result<(), KirinoError>,
    says: Feedback,
    unknown: TrustScore,
    other: Seq<char>,
)
    requires
        exists|store: &mut S|
            *store == before && *final(store) == after && #[trigger] call_ensures(
                feedback::<S, F>,
                (store, request, outcome, step, now),
                r,
            ),
        call_ensures(severity_of, (outcome,), says),
        call_ensures(TrustScore::unknown, (now,), unknown),
        other != request.delegator.id@,
    ensures
        r is Ok ==> after.held().contains_key(request.delegator.id@) && exists|was: TrustScore|
            {
                &&& #[trigger] call_ensures(step, (was, says), after.held()[request.delegator.id@])
                &&& was == unknown || before.held().contains_key(request.delegator.id@) && was
                    == before.held()[request.delegator.id@]
                &&& was == unknown && before.held().contains_key(request.delegator.id@) && was
                    != before.held()[request.delegator.id@] ==> exists|name: &String, e: KirinoError|
                    name@ == request.delegator.id@ && #[trigger] call_ensures(S::get, (&before, name), Err(e))
            },
        after.held().contains_key(other) <==> before.held().contains_key(other),
        before.held().contains_key(other) ==> after.held()[other] == before.held()[other],
{
    let id = request.delegator.id@;
    let (read, next) = choose|read: Result<Option<TrustScore>, KirinoError>, next: TrustScore|
        {
            &&& #[trigger] can_be_read(&before, id, read)
            &&& #[trigger] call_ensures(step, (trust_or_unknown(read, now), feedback_of(*outcome)), next)
            &&& after.held() == before.held().insert(id, next) || r is Err && after.held() == before.held()
        };
    let was = trust_or_unknown(read, now);
    let name = choose|name: &String| name@ == id && #[trigger] call_ensures(S::get, (&before, name), read);
    match read {
        Err(e) => {
            assert(call_ensures(S::get, (&before, name), Err(e)));
            assert(was == unknown);
        },
        Ok(Some(t)) => {
            assert(before.held().contains_key(id) && t == before.held()[id]);
        },
        Ok(None) => {
            assert(was == unknown && !before.held().contains_key(id));
        },
    }
    if r is Ok {
        assert(after.held()[id] == next);
        assert(call_ensures(step, (was, says), after.held()[id]));
    }
}

/// Someone's behaviour is known exactly if it is followed, and is what is followed; a task domain and
/// room that are set are in force from then on, and nothing else changes.
pub proof fn law_arbiter_settings(
    arbiter: AuthorizationArbiter,
    max: usize,
    roomy: AuthorizationArbiter,
    scope: DomainScope,
    scoped: AuthorizationArbiter,
    after: AuthorizationArbiter,
    id: &String,
    known: Option<&AnomalyDetector>,
    policy: &DynamicPolicy,
)
    requires
        call_ensures(AuthorizationArbiter::with_max_detectors, (arbiter, max), roomy),
        call_ensures(AuthorizationArbiter::with_domain_scope, (arbiter, scope), scoped),
        exists|a: &mut AuthorizationArbiter|
            *a == arbiter && *final(a) == after && #[trigger] call_ensures(
                AuthorizationArbiter::set_domain_scope,
                (a, scope),
                (),
            ),
        call_ensures(AuthorizationArbiter::detector, (&arbiter, id), known),
        call_ensures(AuthorizationArbiter::policy, (&arbiter,), policy),
    ensures
        roomy.room() == max && roomy.scope() == arbiter.scope() && roomy.rules() == arbiter.rules() && roomy.locked()
            == arbiter.locked(),
        scoped.scope() == Some(scope) && scoped.room() == arbiter.room() && scoped.rules() == arbiter.rules()
            && scoped.locked() == arbiter.locked(),
        after.scope() == Some(scope) && after.room() == arbiter.room() && after.rules() == arbiter.rules()
            && after.locked() == arbiter.locked(),
        known is Some <==> arbiter.followed().contains_key(id@),
        known matches Some(d) ==> *d == arbiter.followed()[id@],
        *policy == arbiter.rules(),
{
}

/// The risk of a request is the total of its dimensions under the weights of the policy: who acts and what
/// is done weigh as such, and a task domain that there is none of costs nothing.
pub proof fn law_risk_of_a_request<
    S: TrustScoreStore,
    D: Fn(&AnomalyDetector) -> Score,
    E: Fn(TrustScore, Option<Score>) -> Score,
    T: Fn(SubScores, [Score; 5]) -> Score,
    W: Fn(Score) -> String,
>(
    before: AuthorizationArbiter,
    after: AuthorizationArbiter,
    store: &S,
    request: &ActionRequest,
    arithmetic: &Arithmetic<D, E, T, W>,
    now: i128,
    r: RiskScore,
    kind_risk: Score,
    sensitivity: Score,
)
    requires
        exists|arbiter: &mut AuthorizationArbiter|
            *arbiter == before && *final(arbiter) == after && #[trigger] call_ensures(
                AuthorizationArbiter::risk_score::<S, D, E, T, W>,
                (arbiter, store, request, arithmetic, now),
                r,
            ),
        call_ensures(DelegatorType::weight, (request.delegator.delegator_type,), kind_risk),
        call_ensures(
            crate::rbac::dynamic::metrics::ActionCategory::base_weight,
            (&request.category,),
            sensitivity,
        ),
    ensures
        call_ensures(arithmetic.total, (r.sub_scores, before.rules().dimension_weights), r.value),
        r.sub_scores.delegator_weight == kind_risk,
        r.sub_scores.sensitivity == sensitivity,
        before.scope() is None ==> r.sub_scores.domain_mismatch.bits == 0,
        after.rules() == before.rules() && after.scope() == before.scope() && after.locked() == before.locked(),
{
}

/// The trust that an outcome is added to is the record that was read, and that of someone unknown where
/// none was.
pub proof fn law_trust_to_start_from(
    read: &Result<Option<TrustScore>, KirinoError>,
    now: i128,
    r: TrustScore,
    unknown: TrustScore,
)
    requires
        call_ensures(feedback_base, (read, now), r),
        call_ensures(TrustScore::unknown, (now,), unknown),
    ensures
        *read matches Ok(Some(t)) ==> r == t,
        !(*read matches Ok(Some(_))) ==> r == unknown,
{
}

/// A new arbiter goes by the policy that it was given; it has no task domain, follows nobody, keeps nobody
/// in lockdown, and has room for ten thousand people.
pub proof fn law_new_arbiter(policy: DynamicPolicy, r: AuthorizationArbiter, id: Seq<char>)
    requires
        call_ensures(AuthorizationArbiter::new, (policy,), r),
    ensures
        r.rules() == policy && r.scope() is None && r.room() == 10_000,
        !r.locked().contains(id) && !r.followed().contains_key(id),
{
}

} // verus!
