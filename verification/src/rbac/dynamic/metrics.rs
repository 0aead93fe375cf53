//! What is done, as the caller claims it.
use crate::collections::{Key, Table};
use crate::rbac::dynamic::delegator::Delegator;
use crate::score::Score;
use crate::time::utc_now;
use vstd::prelude::*;

verus! {

/// The bits of 0.1.
pub const READ_ONLY_WEIGHT_BITS: u64 = 0x3FB9_9999_9999_999A;

/// The bits of 0.3.
pub const STATE_WRITE_WEIGHT_BITS: u64 = 0x3FD3_3333_3333_3333;

/// The bits of 0.5.
pub const FILE_WRITE_WEIGHT_BITS: u64 = 0x3FE0_0000_0000_0000;

/// The bits of 0.7.
pub const NETWORK_EGRESS_WEIGHT_BITS: u64 = 0x3FE6_6666_6666_6666;

/// The bits of 0.8.
pub const PROCESS_EXEC_WEIGHT_BITS: u64 = 0x3FE9_9999_9999_999A;

/// The bits of 0.9.
pub const CONTAINER_LIFECYCLE_WEIGHT_BITS: u64 = 0x3FEC_CCCC_CCCC_CCCD;

/// The bits of 1.0.
pub const PRIVILEGED_OP_WEIGHT_BITS: u64 = 0x3FF0_0000_0000_0000;

/// What kind of thing an action does, from mild to severe.
#[derive(Debug, Clone, Copy, PartialEq, Eq, Hash, Structural)]
pub enum ActionCategory {
    /// Looks.
    ReadOnly,
    /// Changes state of the application.
    StateWrite,
    /// Writes files.
    FileWrite,
    /// Sends over the network.
    NetworkEgress,
    /// Runs a process.
    ProcessExec,
    /// Starts or stops containers.
    ContainerLifecycle,
    /// Administers.
    PrivilegedOp,
}

impl Key for ActionCategory {
    type Id = ActionCategory;

    open spec fn id(&self) -> ActionCategory {
        *self
    }

    fn same(&self, other: &Self) -> (r: bool) {
        *self == *other
    }

    fn duplicate(&self) -> (r: Self) {
        *self
    }
}

impl ActionCategory {
    /// Where the category stands on the ladder.
    pub open spec fn rung(self) -> int {
        match self {
            ActionCategory::ReadOnly => 0,
            ActionCategory::StateWrite => 1,
            ActionCategory::FileWrite => 2,
            ActionCategory::NetworkEgress => 3,
            ActionCategory::ProcessExec => 4,
            ActionCategory::ContainerLifecycle => 5,
            ActionCategory::PrivilegedOp => 6,
        }
    }

    /// The sensitivity of the category, from 0.1 to 1.0.
    pub open spec fn weighs(self) -> Score {
        match self {
            ActionCategory::ReadOnly => Score { bits: READ_ONLY_WEIGHT_BITS },
            ActionCategory::StateWrite => Score { bits: STATE_WRITE_WEIGHT_BITS },
            ActionCategory::FileWrite => Score { bits: FILE_WRITE_WEIGHT_BITS },
            ActionCategory::NetworkEgress => Score { bits: NETWORK_EGRESS_WEIGHT_BITS },
            ActionCategory::ProcessExec => Score { bits: PROCESS_EXEC_WEIGHT_BITS },
            ActionCategory::ContainerLifecycle => Score { bits: CONTAINER_LIFECYCLE_WEIGHT_BITS },
            ActionCategory::PrivilegedOp => Score { bits: PRIVILEGED_OP_WEIGHT_BITS },
        }
    }

    /// The sensitivity of the category.
    #[must_use]
    pub fn base_weight(&self) -> (r: Score)
        ensures
            r == self.weighs(),
    {
        match self {
            ActionCategory::ReadOnly => Score::from_bits(READ_ONLY_WEIGHT_BITS),
            ActionCategory::StateWrite => Score::from_bits(STATE_WRITE_WEIGHT_BITS),
            ActionCategory::FileWrite => Score::from_bits(FILE_WRITE_WEIGHT_BITS),
            ActionCategory::NetworkEgress => Score::from_bits(NETWORK_EGRESS_WEIGHT_BITS),
            ActionCategory::ProcessExec => Score::from_bits(PROCESS_EXEC_WEIGHT_BITS),
            ActionCategory::ContainerLifecycle => Score::from_bits(CONTAINER_LIFECYCLE_WEIGHT_BITS),
            ActionCategory::PrivilegedOp => Score::from_bits(PRIVILEGED_OP_WEIGHT_BITS),
        }
    }
}

/// A category further up the ladder is more sensitive, and all lie above zero and at most at one.
pub proof fn law_sensitivity_grows(a: ActionCategory, b: ActionCategory)
    ensures
        a.rung() < b.rung() <==> a.weighs().below(b.weighs()),
        crate::score::zero().below(a.weighs()),
        (Score { bits: PRIVILEGED_OP_WEIGHT_BITS }).reaches(a.weighs()),
{
}

/// The name of an action, with its category and what that weighs; for catalogues.
pub struct ActionSensitivity {
    /// The name.
    pub action: String,
    /// The category.
    pub category: ActionCategory,
    /// The sensitivity when this was made.
    pub base_weight: Score,
}

impl ActionSensitivity {
    /// An entry for an action.
    #[must_use]
    pub fn new(action: &str, category: ActionCategory) -> (r: Self)
        ensures
            r.action@ == action@,
            r.category == category,
            r.base_weight == category.weighs(),
    {
        ActionSensitivity { action: action.to_owned(), category, base_weight: category.base_weight() }
    }
}

/// An action that someone asks for.
pub struct ActionRequest {
    /// Who asks.
    pub delegator: Delegator,
    /// The name of the action.
    pub action: String,
    /// The category.
    pub category: ActionCategory,
    /// The payload as JSON texts by name; never read here.
    pub parameters: Table<String, String>,
    /// What is acted upon.
    pub resource_path: Option<String>,
    /// When the caller says it was asked.
    pub timestamp: i128,
}

impl ActionRequest {
    /// A request at a moment, without parameters and without a resource.
    #[must_use]
    pub fn simple_at(delegator: Delegator, action: &str, category: ActionCategory, now: i128) -> (r: Self)
        ensures
            r.delegator == delegator,
            r.action@ == action@,
            r.category == category,
            r.parameters.wf(),
            r.parameters@ == Map::<Seq<char>, String>::empty(),
            r.resource_path is None,
            r.timestamp == now,
    {
        ActionRequest {
            delegator,
            action: action.to_owned(),
            category,
            parameters: Table::new(),
            resource_path: None,
            timestamp: now,
        }
    }

    /// A request of this moment, without parameters and without a resource.
    #[must_use]
    pub fn simple(delegator: Delegator, action: &str, category: ActionCategory) -> (r: Self)
        ensures
            r.delegator == delegator,
            r.action@ == action@,
            r.category == category,
            r.parameters.wf(),
            r.parameters@ == Map::<Seq<char>, String>::empty(),
            r.resource_path is None,
            crate::time::is_now(r.timestamp),
    {
        Self::simple_at(delegator, action, category, utc_now())
    }

    /// The request with what is acted upon.
    #[must_use]
    pub fn with_resource(self, path: &str) -> (r: Self)
        ensures
            r.delegator == self.delegator,
            r.action == self.action,
            r.category == self.category,
            r.parameters == self.parameters,
            r.resource_path is Some,
            r.resource_path->Some_0@ == path@,
            r.timestamp == self.timestamp,
    {
        ActionRequest {
            delegator: self.delegator,
            action: self.action,
            category: self.category,
            parameters: self.parameters,
            resource_path: Some(path.to_owned()),
            timestamp: self.timestamp,
        }
    }

    /// The request with other parameters.
    #[must_use]
    pub fn with_parameters(self, params: Table<String, String>) -> (r: Self)
        ensures
            r.delegator == self.delegator,
            r.action == self.action,
            r.category == self.category,
            r.parameters == params,
            r.resource_path == self.resource_path,
            r.timestamp == self.timestamp,
    {
        ActionRequest {
            delegator: self.delegator,
            action: self.action,
            category: self.category,
            parameters: params,
            resource_path: self.resource_path,
            timestamp: self.timestamp,
        }
    }
}

/// The sensitivity of each category: 0.1 for looking, 0.3 for state, 0.5 for files, 0.7 for the
/// network, 0.8 for processes, 0.9 for containers, 1.0 for administration.
pub proof fn law_categories_have_their_sensitivity(category: &ActionCategory, weight: Score)
    requires
        call_ensures(ActionCategory::base_weight, (category,), weight),
    ensures
        category is ReadOnly <==> weight.bits == 0x3FB9_9999_9999_999A,
        category is StateWrite <==> weight.bits == 0x3FD3_3333_3333_3333,
        category is FileWrite <==> weight.bits == 0x3FE0_0000_0000_0000,
        category is NetworkEgress <==> weight.bits == 0x3FE6_6666_6666_6666,
        category is ProcessExec <==> weight.bits == 0x3FE9_9999_9999_999A,
        category is ContainerLifecycle <==> weight.bits == 0x3FEC_CCCC_CCCC_CCCD,
        category is PrivilegedOp <==> weight.bits == 0x3FF0_0000_0000_0000,
{
}

/// A request is of who makes it, with the action, its category and the moment, and acts on nothing until
/// a resource is named; naming one, or giving parameters, changes nothing else.
pub proof fn law_request_is_what_it_is_made(
    delegator: Delegator,
    action: &str,
    category: ActionCategory,
    now: i128,
    made: ActionRequest,
    path: &str,
    directed: ActionRequest,
    parameters: Table<String, String>,
    filled: ActionRequest,
    name: Seq<char>,
)
    requires
        call_ensures(ActionRequest::simple_at, (delegator, action, category, now), made),
        call_ensures(ActionRequest::with_resource, (made, path), directed),
        call_ensures(ActionRequest::with_parameters, (directed, parameters), filled),
    ensures
        made.delegator == delegator && made.action@ == action@ && made.category == category && made.timestamp == now,
        made.resource_path is None && !made.parameters@.contains_key(name),
        directed.resource_path is Some && directed.resource_path->Some_0@ == path@,
        directed.delegator == delegator && directed.action@ == action@ && directed.category == category
            && directed.timestamp == now && directed.parameters == made.parameters,
        filled.parameters == parameters && filled.resource_path == directed.resource_path && filled.delegator == delegator,
        filled.action@ == action@ && filled.category == category && filled.timestamp == now,
{
}

/// An action weighs what its category weighs; a request that is made now is one of some moment that the clock
/// reads, about nothing in particular.
pub proof fn law_action_and_request_as_made(
    action: &str,
    category: ActionCategory,
    rated: ActionSensitivity,
    weight: Score,
    delegator: Delegator,
    made: ActionRequest,
    name: Seq<char>,
)
    requires
        call_ensures(ActionSensitivity::new, (action, category), rated),
        call_ensures(ActionCategory::base_weight, (&category,), weight),
        call_ensures(ActionRequest::simple, (delegator, action, category), made),
    ensures
        rated.action@ == action@ && rated.category == category && rated.base_weight == weight,
        made.delegator == delegator && made.action@ == action@ && made.category == category,
        made.resource_path is None && !made.parameters@.contains_key(name),
        crate::time::is_now(made.timestamp),
{
}

} // verus!
