//! Who acts, as the caller claims it.
use crate::score::Score;
use vstd::prelude::*;

verus! {

/// The bits of 0.05.
pub const AGENT_WEIGHT_BITS: u64 = 0x3FA9_9999_9999_999A;

/// The bits of 0.15.
pub const SUB_AGENT_WEIGHT_BITS: u64 = 0x3FC3_3333_3333_3333;

/// The bits of 0.30.
pub const EXTERNAL_SYSTEM_WEIGHT_BITS: u64 = 0x3FD3_3333_3333_3333;

/// The bits of 0.02.
pub const SCHEDULER_WEIGHT_BITS: u64 = 0x3F94_7AE1_47AE_147B;

/// The kind of who acts.
#[derive(Debug, Clone, Copy, PartialEq, Eq, Structural)]
pub enum DelegatorType {
    /// A person.
    Human,
    /// An agent of the deployment.
    Agent,
    /// An agent that acts for another.
    SubAgent,
    /// Someone outside.
    ExternalSystem,
    /// A timer.
    Scheduler,
}

impl DelegatorType {
    /// The name of the kind.
    pub open spec fn text(self) -> Seq<char> {
        match self {
            DelegatorType::Human => "Human"@,
            DelegatorType::Agent => "Agent"@,
            DelegatorType::SubAgent => "SubAgent"@,
            DelegatorType::ExternalSystem => "ExternalSystem"@,
            DelegatorType::Scheduler => "Scheduler"@,
        }
    }

    /// The risk that the kind brings: nothing for a person, 0.05 for an agent, 0.15 for one that
    /// acts for another, 0.30 for someone outside, 0.02 for a timer.
    pub open spec fn weighs(self) -> Score {
        match self {
            DelegatorType::Human => Score { bits: 0 },
            DelegatorType::Agent => Score { bits: AGENT_WEIGHT_BITS },
            DelegatorType::SubAgent => Score { bits: SUB_AGENT_WEIGHT_BITS },
            DelegatorType::ExternalSystem => Score { bits: EXTERNAL_SYSTEM_WEIGHT_BITS },
            DelegatorType::Scheduler => Score { bits: SCHEDULER_WEIGHT_BITS },
        }
    }

    /// The name of the kind.
    pub fn as_str(self) -> (r: &'static str)
        ensures
            r@ == self.text(),
    {
        match self {
            DelegatorType::Human => "Human",
            DelegatorType::Agent => "Agent",
            DelegatorType::SubAgent => "SubAgent",
            DelegatorType::ExternalSystem => "ExternalSystem",
            DelegatorType::Scheduler => "Scheduler",
        }
    }

    /// The risk that the kind brings.
    pub fn weight(self) -> (r: Score)
        ensures
            r == self.weighs(),
    {
        match self {
            DelegatorType::Human => Score::from_bits(0),
            DelegatorType::Agent => Score::from_bits(AGENT_WEIGHT_BITS),
            DelegatorType::SubAgent => Score::from_bits(SUB_AGENT_WEIGHT_BITS),
            DelegatorType::ExternalSystem => Score::from_bits(EXTERNAL_SYSTEM_WEIGHT_BITS),
            DelegatorType::Scheduler => Score::from_bits(SCHEDULER_WEIGHT_BITS),
        }
    }
}

/// No kind weighs less than a person or more than someone outside, and acting for another weighs
/// more than acting.
pub proof fn law_delegator_weights(kind: DelegatorType)
    ensures
        kind.weighs().reaches(DelegatorType::Human.weighs()),
        DelegatorType::ExternalSystem.weighs().reaches(kind.weighs()),
        DelegatorType::Agent.weighs().below(DelegatorType::SubAgent.weighs()),
{
}

/// Who acts.
pub struct Delegator {
    /// Identifier, by which trust and behaviour are kept.
    pub id: String,
    /// The kind.
    pub delegator_type: DelegatorType,
    /// A label for people; never read here.
    pub session_badge: String,
    /// Who delegated; recorded, never read here.
    pub parent_id: Option<String>,
}

impl Delegator {
    /// A person.
    pub fn human(id: &str, session_badge: &str) -> (r: Self)
        ensures
            r.id@ == id@,
            r.delegator_type == DelegatorType::Human,
            r.session_badge@ == session_badge@,
            r.parent_id is None,
    {
        Delegator {
            id: id.to_owned(),
            delegator_type: DelegatorType::Human,
            session_badge: session_badge.to_owned(),
            parent_id: None,
        }
    }

    /// An agent.
    pub fn agent(id: &str, session_badge: &str) -> (r: Self)
        ensures
            r.id@ == id@,
            r.delegator_type == DelegatorType::Agent,
            r.session_badge@ == session_badge@,
            r.parent_id is None,
    {
        Delegator {
            id: id.to_owned(),
            delegator_type: DelegatorType::Agent,
            session_badge: session_badge.to_owned(),
            parent_id: None,
        }
    }

    /// An agent that acts for another.
    pub fn sub_agent(id: &str, session_badge: &str, parent_id: &str) -> (r: Self)
        ensures
            r.id@ == id@,
            r.delegator_type == DelegatorType::SubAgent,
            r.session_badge@ == session_badge@,
            r.parent_id is Some,
            r.parent_id->Some_0@ == parent_id@,
    {
        Delegator {
            id: id.to_owned(),
            delegator_type: DelegatorType::SubAgent,
            session_badge: session_badge.to_owned(),
            parent_id: Some(parent_id.to_owned()),
        }
    }

    /// The same, with who delegated recorded.
    #[must_use]
    pub fn with_parent(self, parent_id: &str) -> (r: Self)
        ensures
            r.id == self.id,
            r.delegator_type == self.delegator_type,
            r.session_badge == self.session_badge,
            r.parent_id is Some,
            r.parent_id->Some_0@ == parent_id@,
    {
        Delegator {
            id: self.id,
            delegator_type: self.delegator_type,
            session_badge: self.session_badge,
            parent_id: Some(parent_id.to_owned()),
        }
    }
}

/// The risk that each kind brings: nothing for a person, 0.02 for a timer, 0.05 for an agent, 0.15 for
/// one that acts for another, 0.30 for someone outside.
pub proof fn law_kinds_bring_their_risk(kind: DelegatorType, risk: Score)
    requires
        call_ensures(DelegatorType::weight, (kind,), risk),
    ensures
        kind is Human <==> risk.bits == 0,
        kind is Scheduler <==> risk.bits == 0x3F94_7AE1_47AE_147B,
        kind is Agent <==> risk.bits == 0x3FA9_9999_9999_999A,
        kind is SubAgent <==> risk.bits == 0x3FC3_3333_3333_3333,
        kind is ExternalSystem <==> risk.bits == 0x3FD3_3333_3333_3333,
{
}

/// Whoever is made has the name, the badge and the kind that they were made with, and a parent exactly
/// if one was given.
pub proof fn law_delegators_are_what_they_are_made(
    id: &str,
    badge: &str,
    parent: &str,
    human: Delegator,
    agent: Delegator,
    sub_agent: Delegator,
    sent: Delegator,
)
    requires
        call_ensures(Delegator::human, (id, badge), human),
        call_ensures(Delegator::agent, (id, badge), agent),
        call_ensures(Delegator::sub_agent, (id, badge, parent), sub_agent),
        call_ensures(Delegator::with_parent, (agent, parent), sent),
    ensures
        human.delegator_type is Human && agent.delegator_type is Agent && sub_agent.delegator_type is SubAgent,
        human.id@ == id@ && agent.id@ == id@ && sub_agent.id@ == id@ && sent.id@ == id@,
        human.session_badge@ == badge@ && agent.session_badge@ == badge@ && sub_agent.session_badge@ == badge@
            && sent.session_badge@ == badge@,
        human.parent_id is None && agent.parent_id is None,
        sub_agent.parent_id is Some && sub_agent.parent_id->Some_0@ == parent@,
        sent.parent_id is Some && sent.parent_id->Some_0@ == parent@ && sent.delegator_type is Agent,
{
}

/// Each kind is shown by its own name.
pub proof fn law_kinds_are_named(kind: DelegatorType, name: &'static str)
    requires
        call_ensures(DelegatorType::as_str, (kind,), name),
    ensures
        name@ == (match kind {
            DelegatorType::Human => "Human"@,
            DelegatorType::Agent => "Agent"@,
            DelegatorType::SubAgent => "SubAgent"@,
            DelegatorType::ExternalSystem => "ExternalSystem"@,
            DelegatorType::Scheduler => "Scheduler"@,
        }),
{
}

} // verus!
