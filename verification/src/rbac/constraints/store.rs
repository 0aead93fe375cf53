//! The constraints in force.
use crate::collections::{keep_where, some_where};
use crate::error::{ErrorView, KirinoError};
use crate::rbac::constraints::policies::{
    CardinalityConstraint, DsdPolicy, PrerequisiteConstraint, SsdPolicy, TemporalConstraint,
};
use crate::text::same_text;
use vstd::prelude::*;

verus! {

/// Constraint definitions held in memory, in the order in which they were added.
///
/// An empty store restricts nothing.
pub struct InMemoryConstraintStore {
    ssd_policies: Vec<SsdPolicy>,
    dsd_policies: Vec<DsdPolicy>,
    cardinality: Vec<CardinalityConstraint>,
    prerequisites: Vec<PrerequisiteConstraint>,
    temporal: Vec<TemporalConstraint>,
}

impl InMemoryConstraintStore {
    /// The stored policies on assignment.
    pub closed spec fn ssd(&self) -> Seq<SsdPolicy> {
        self.ssd_policies@
    }

    /// The stored policies on activation.
    pub closed spec fn dsd(&self) -> Seq<DsdPolicy> {
        self.dsd_policies@
    }

    /// The stored cardinality bounds.
    pub closed spec fn bounds(&self) -> Seq<CardinalityConstraint> {
        self.cardinality@
    }

    /// The stored prerequisites.
    pub closed spec fn required(&self) -> Seq<PrerequisiteConstraint> {
        self.prerequisites@
    }

    /// The stored time windows.
    pub closed spec fn windows(&self) -> Seq<TemporalConstraint> {
        self.temporal@
    }

    /// Every policy is well formed and no key is stored twice.
    pub open spec fn wf(&self) -> bool {
        &&& forall|i: int| 0 <= i < self.ssd().len() ==> (#[trigger] self.ssd()[i]).wf()
        &&& forall|i: int| 0 <= i < self.dsd().len() ==> (#[trigger] self.dsd()[i]).wf()
        &&& apart(self.ssd(), same_ssd())
        &&& apart(self.dsd(), same_dsd())
        &&& apart(self.bounds(), same_bound())
        &&& apart(self.required(), same_prerequisite())
        &&& apart(self.windows(), same_temporal())
    }

    /// A store without constraints.
    #[must_use]
    pub fn new() -> (r: Self)
        ensures
            r.wf(),
            r.ssd().len() == 0,
            r.dsd().len() == 0,
            r.bounds().len() == 0,
            r.required().len() == 0,
            r.windows().len() == 0,
    {
        InMemoryConstraintStore {
            ssd_policies: Vec::new(),
            dsd_policies: Vec::new(),
            cardinality: Vec::new(),
            prerequisites: Vec::new(),
            temporal: Vec::new(),
        }
    }
}

/// Whether no two items of a list are the same in some respect.
pub open spec fn apart<A>(items: Seq<A>, same: spec_fn(A, A) -> bool) -> bool {
    forall|i: int, j: int| 0 <= i < j < items.len() ==> !same(#[trigger] items[i], #[trigger] items[j])
}

/// Whether a list holds an item that is the same as another in some respect.
pub open spec fn is_stored<A>(items: Seq<A>, item: A, same: spec_fn(A, A) -> bool) -> bool {
    exists|i: int| 0 <= i < items.len() && same(#[trigger] items[i], item)
}

/// Policies on assignment are the same by their name.
pub open spec fn same_ssd() -> spec_fn(SsdPolicy, SsdPolicy) -> bool {
    |a: SsdPolicy, b: SsdPolicy| a.name@ == b.name@
}

/// Policies on activation are the same by their name.
pub open spec fn same_dsd() -> spec_fn(DsdPolicy, DsdPolicy) -> bool {
    |a: DsdPolicy, b: DsdPolicy| a.name@ == b.name@
}

/// Cardinality bounds are the same by their role.
pub open spec fn same_bound() -> spec_fn(CardinalityConstraint, CardinalityConstraint) -> bool {
    |a: CardinalityConstraint, b: CardinalityConstraint| a.role_name@ == b.role_name@
}

/// Prerequisites are the same by their two roles.
pub open spec fn same_prerequisite() -> spec_fn(PrerequisiteConstraint, PrerequisiteConstraint) -> bool {
    |a: PrerequisiteConstraint, b: PrerequisiteConstraint| same_requirement(a, b.role_name@, b.requires@)
}

/// Time windows are the same by their role and their two moments.
pub open spec fn same_temporal() -> spec_fn(TemporalConstraint, TemporalConstraint) -> bool {
    |a: TemporalConstraint, b: TemporalConstraint| same_window(a, b.role_name@, b.valid_from, b.valid_until)
}

/// Items stay apart when one is added that is the same as none of them.
proof fn lemma_apart_push<A>(items: Seq<A>, item: A, same: spec_fn(A, A) -> bool)
    requires
        apart(items, same),
        forall|i: int| 0 <= i < items.len() ==> !same(#[trigger] items[i], item),
    ensures
        apart(items.push(item), same),
{
}

/// Items stay apart when some are dropped; something was dropped exactly if there are fewer.
proof fn lemma_apart_filter<A>(items: Seq<A>, keep: spec_fn(A) -> bool, same: spec_fn(A, A) -> bool)
    requires
        apart(items, same),
    ensures
        apart(items.filter(keep), same),
        items.filter(keep).len() < items.len() <==> exists|i: int| 0 <= i < items.len() && !keep(#[trigger] items[i]),
        forall|i: int| 0 <= i < items.filter(keep).len() ==> items.contains(#[trigger] items.filter(keep)[i]),
{
    crate::collections::lemma_filter_shape(items, keep);
    let kept = items.filter(keep);
    let at = choose|at: spec_fn(int) -> int| crate::collections::filtered_from(items, kept, at);
    assert forall|i: int, j: int| 0 <= i < j < kept.len() implies !same(#[trigger] kept[i], #[trigger] kept[j]) by {
        assert(at(i) < at(j));
        assert(kept[i] == items[at(i)] && kept[j] == items[at(j)]);
    }
    assert forall|i: int| 0 <= i < kept.len() implies items.contains(#[trigger] kept[i]) by {
        assert(kept[i] == items[at(i)]);
    }
}

/// Whether a prerequisite is that of a role on another.
pub open spec fn same_requirement(x: PrerequisiteConstraint, role: Seq<char>, required: Seq<char>) -> bool {
    x.role_name@ == role && x.requires@ == required
}

/// Whether a window is that of a role between two moments.
pub open spec fn same_window(x: TemporalConstraint, role: Seq<char>, from: i128, until: i128) -> bool {
    x.role_name@ == role && x.valid_from == from && x.valid_until == until
}

/// The policies on assignment of every other name.
pub open spec fn other_ssd(name: Seq<char>) -> spec_fn(SsdPolicy) -> bool {
    |x: SsdPolicy| x.name@ != name
}

/// The policies on activation of every other name.
pub open spec fn other_dsd(name: Seq<char>) -> spec_fn(DsdPolicy) -> bool {
    |x: DsdPolicy| x.name@ != name
}

/// The cardinality bounds of every other role.
pub open spec fn other_bound(role: Seq<char>) -> spec_fn(CardinalityConstraint) -> bool {
    |x: CardinalityConstraint| x.role_name@ != role
}

/// The prerequisites of every other role.
pub open spec fn other_required(role: Seq<char>) -> spec_fn(PrerequisiteConstraint) -> bool {
    |x: PrerequisiteConstraint| x.role_name@ != role
}

/// The prerequisites but that of a role on another.
pub open spec fn other_requirement(role: Seq<char>, required: Seq<char>) -> spec_fn(PrerequisiteConstraint) -> bool {
    |x: PrerequisiteConstraint| !same_requirement(x, role, required)
}

/// The windows of every other role.
pub open spec fn other_windows(role: Seq<char>) -> spec_fn(TemporalConstraint) -> bool {
    |x: TemporalConstraint| x.role_name@ != role
}

/// The windows but that of a role between two moments.
pub open spec fn other_window(role: Seq<char>, from: i128, until: i128) -> spec_fn(TemporalConstraint) -> bool {
    |x: TemporalConstraint| !same_window(x, role, from, until)
}

/// Where constraint definitions are kept.
///
/// A read that fails is a failure, never an empty list: an empty list restricts nothing.
pub trait ConstraintStore: Sized {
    /// Whether the value is well formed.
    open spec fn valid(&self) -> bool {
        true
    }

    /// What reading the policies on assignment gives.
    open spec fn ssd_read(&self) -> Result<Seq<SsdPolicy>, ErrorView> {
        arbitrary()
    }

    /// What reading the policies on activation gives.
    open spec fn dsd_read(&self) -> Result<Seq<DsdPolicy>, ErrorView> {
        arbitrary()
    }

    /// What reading the cardinality bounds gives.
    open spec fn bounds_read(&self) -> Result<Seq<CardinalityConstraint>, ErrorView> {
        arbitrary()
    }

    /// What reading the prerequisites gives.
    open spec fn required_read(&self) -> Result<Seq<PrerequisiteConstraint>, ErrorView> {
        arbitrary()
    }

    /// What reading the time windows gives.
    open spec fn windows_read(&self) -> Result<Seq<TemporalConstraint>, ErrorView> {
        arbitrary()
    }

    /// Every stored policy on assignment.
    fn list_ssd_policies(&self) -> (r: Result<&Vec<SsdPolicy>, KirinoError>)
        requires
            self.valid(),
        ensures
            match r {
                Ok(list) => {
                    &&& self.ssd_read() == Ok::<Seq<SsdPolicy>, ErrorView>(list@)
                    &&& forall|i: int| 0 <= i < list@.len() ==> (#[trigger] list@[i]).wf()
                },
                Err(e) => self.ssd_read() == Err::<Seq<SsdPolicy>, ErrorView>(e@),
            },
    ;

    /// Every stored policy on activation.
    fn list_dsd_policies(&self) -> (r: Result<&Vec<DsdPolicy>, KirinoError>)
        requires
            self.valid(),
        ensures
            match r {
                Ok(list) => {
                    &&& self.dsd_read() == Ok::<Seq<DsdPolicy>, ErrorView>(list@)
                    &&& forall|i: int| 0 <= i < list@.len() ==> (#[trigger] list@[i]).wf()
                },
                Err(e) => self.dsd_read() == Err::<Seq<DsdPolicy>, ErrorView>(e@),
            },
    ;

    /// Every stored cardinality bound.
    fn list_cardinality_constraints(&self) -> (r: Result<&Vec<CardinalityConstraint>, KirinoError>)
        requires
            self.valid(),
        ensures
            match r {
                Ok(list) => self.bounds_read() == Ok::<Seq<CardinalityConstraint>, ErrorView>(list@),
                Err(e) => self.bounds_read() == Err::<Seq<CardinalityConstraint>, ErrorView>(e@),
            },
    ;

    /// Every stored prerequisite.
    fn list_prerequisite_constraints(&self) -> (r: Result<&Vec<PrerequisiteConstraint>, KirinoError>)
        requires
            self.valid(),
        ensures
            match r {
                Ok(list) => self.required_read() == Ok::<Seq<PrerequisiteConstraint>, ErrorView>(list@),
                Err(e) => self.required_read() == Err::<Seq<PrerequisiteConstraint>, ErrorView>(e@),
            },
    ;

    /// Every stored time window.
    fn list_temporal_constraints(&self) -> (r: Result<&Vec<TemporalConstraint>, KirinoError>)
        requires
            self.valid(),
        ensures
            match r {
                Ok(list) => self.windows_read() == Ok::<Seq<TemporalConstraint>, ErrorView>(list@),
                Err(e) => self.windows_read() == Err::<Seq<TemporalConstraint>, ErrorView>(e@),
            },
    ;

    /// Stores a policy on assignment, unless its key is stored already: then nothing changes.
    fn add_ssd_policy(&mut self, policy: SsdPolicy) -> (r: Result<(), KirinoError>)
        requires
            old(self).valid(),
            policy.wf(),
        ensures
            final(self).valid(),
            final(self).dsd_read() == old(self).dsd_read(),
            final(self).bounds_read() == old(self).bounds_read(),
            final(self).required_read() == old(self).required_read(),
            final(self).windows_read() == old(self).windows_read(),
            old(self).ssd_read() matches Ok(before) ==> final(self).ssd_read() matches Ok(after) ==> {
                after == (if r is Ok {
                    before.push(policy)
                } else {
                    before
                })
            },
            old(self).ssd_read() matches Ok(before) && is_stored(before, policy, same_ssd()) ==> r is Err,
    ;

    /// Removes every policy on assignment of a name; false if there was none.
    fn remove_ssd_policy(&mut self, name: &str) -> (r: Result<bool, KirinoError>)
        requires
            old(self).valid(),
        ensures
            final(self).valid(),
            final(self).dsd_read() == old(self).dsd_read(),
            final(self).bounds_read() == old(self).bounds_read(),
            final(self).required_read() == old(self).required_read(),
            final(self).windows_read() == old(self).windows_read(),
            r matches Ok(found) ==> old(self).ssd_read() matches Ok(before) ==> {
                let kept = before.filter(other_ssd(name@));
                &&& found == (kept.len() < before.len())
                &&& final(self).ssd_read() matches Ok(after) ==> after == kept
            },
    ;

    /// Stores a policy on activation, unless its key is stored already: then nothing changes.
    fn add_dsd_policy(&mut self, policy: DsdPolicy) -> (r: Result<(), KirinoError>)
        requires
            old(self).valid(),
            policy.wf(),
        ensures
            final(self).valid(),
            final(self).ssd_read() == old(self).ssd_read(),
            final(self).bounds_read() == old(self).bounds_read(),
            final(self).required_read() == old(self).required_read(),
            final(self).windows_read() == old(self).windows_read(),
            old(self).dsd_read() matches Ok(before) ==> final(self).dsd_read() matches Ok(after) ==> {
                after == (if r is Ok {
                    before.push(policy)
                } else {
                    before
                })
            },
            old(self).dsd_read() matches Ok(before) && is_stored(before, policy, same_dsd()) ==> r is Err,
    ;

    /// Removes every policy on activation of a name; false if there was none.
    fn remove_dsd_policy(&mut self, name: &str) -> (r: Result<bool, KirinoError>)
        requires
            old(self).valid(),
        ensures
            final(self).valid(),
            final(self).ssd_read() == old(self).ssd_read(),
            final(self).bounds_read() == old(self).bounds_read(),
            final(self).required_read() == old(self).required_read(),
            final(self).windows_read() == old(self).windows_read(),
            r matches Ok(found) ==> old(self).dsd_read() matches Ok(before) ==> {
                let kept = before.filter(other_dsd(name@));
                &&& found == (kept.len() < before.len())
                &&& final(self).dsd_read() matches Ok(after) ==> after == kept
            },
    ;

    /// Stores a cardinality bound, unless its key is stored already: then nothing changes.
    fn add_cardinality_constraint(&mut self, constraint: CardinalityConstraint) -> (r: Result<(), KirinoError>)
        requires
            old(self).valid(),
        ensures
            final(self).valid(),
            final(self).ssd_read() == old(self).ssd_read(),
            final(self).dsd_read() == old(self).dsd_read(),
            final(self).required_read() == old(self).required_read(),
            final(self).windows_read() == old(self).windows_read(),
            old(self).bounds_read() matches Ok(before) ==> final(self).bounds_read() matches Ok(after) ==> {
                after == (if r is Ok {
                    before.push(constraint)
                } else {
                    before
                })
            },
            old(self).bounds_read() matches Ok(before) && is_stored(before, constraint, same_bound()) ==> r is Err,
    ;

    /// Removes every cardinality bound of a role; false if there was none.
    fn remove_cardinality_constraint(&mut self, role_name: &str) -> (r: Result<bool, KirinoError>)
        requires
            old(self).valid(),
        ensures
            final(self).valid(),
            final(self).ssd_read() == old(self).ssd_read(),
            final(self).dsd_read() == old(self).dsd_read(),
            final(self).required_read() == old(self).required_read(),
            final(self).windows_read() == old(self).windows_read(),
            r matches Ok(found) ==> old(self).bounds_read() matches Ok(before) ==> {
                let kept = before.filter(other_bound(role_name@));
                &&& found == (kept.len() < before.len())
                &&& final(self).bounds_read() matches Ok(after) ==> after == kept
            },
    ;

    /// Stores a prerequisite, unless its key is stored already: then nothing changes.
    fn add_prerequisite_constraint(&mut self, constraint: PrerequisiteConstraint) -> (r: Result<(), KirinoError>)
        requires
            old(self).valid(),
        ensures
            final(self).valid(),
            final(self).ssd_read() == old(self).ssd_read(),
            final(self).dsd_read() == old(self).dsd_read(),
            final(self).bounds_read() == old(self).bounds_read(),
            final(self).windows_read() == old(self).windows_read(),
            old(self).required_read() matches Ok(before) ==> final(self).required_read() matches Ok(after) ==> {
                after == (if r is Ok {
                    before.push(constraint)
                } else {
                    before
                })
            },
            old(self).required_read() matches Ok(before) && is_stored(before, constraint, same_prerequisite()) ==> r is Err,
    ;

    /// Removes every prerequisite of a role; false if there was none.
    fn remove_prerequisite_constraint(&mut self, role_name: &str) -> (r: Result<bool, KirinoError>)
        requires
            old(self).valid(),
        ensures
            final(self).valid(),
            final(self).ssd_read() == old(self).ssd_read(),
            final(self).dsd_read() == old(self).dsd_read(),
            final(self).bounds_read() == old(self).bounds_read(),
            final(self).windows_read() == old(self).windows_read(),
            r matches Ok(found) ==> old(self).required_read() matches Ok(before) ==> {
                let kept = before.filter(other_required(role_name@));
                &&& found == (kept.len() < before.len())
                &&& final(self).required_read() matches Ok(after) ==> after == kept
            },
    ;

    /// Removes the prerequisite of a role on another; false if there was none.
    fn remove_prerequisite_constraint_for(&mut self, role_name: &str, required: &str) -> (r: Result<bool, KirinoError>)
        requires
            old(self).valid(),
        ensures
            final(self).valid(),
            final(self).ssd_read() == old(self).ssd_read(),
            final(self).dsd_read() == old(self).dsd_read(),
            final(self).bounds_read() == old(self).bounds_read(),
            final(self).windows_read() == old(self).windows_read(),
            r matches Ok(found) ==> old(self).required_read() matches Ok(before) ==> {
                let kept = before.filter(other_requirement(role_name@, required@));
                &&& found == (kept.len() < before.len())
                &&& final(self).required_read() matches Ok(after) ==> after == kept
            },
    ;

    /// Stores a time window, unless its key is stored already: then nothing changes.
    fn add_temporal_constraint(&mut self, constraint: TemporalConstraint) -> (r: Result<(), KirinoError>)
        requires
            old(self).valid(),
        ensures
            final(self).valid(),
            final(self).ssd_read() == old(self).ssd_read(),
            final(self).dsd_read() == old(self).dsd_read(),
            final(self).bounds_read() == old(self).bounds_read(),
            final(self).required_read() == old(self).required_read(),
            old(self).windows_read() matches Ok(before) ==> final(self).windows_read() matches Ok(after) ==> {
                after == (if r is Ok {
                    before.push(constraint)
                } else {
                    before
                })
            },
            old(self).windows_read() matches Ok(before) && is_stored(before, constraint, same_temporal()) ==> r is Err,
    ;

    /// Removes every time window of a role; false if there was none.
    fn remove_temporal_constraint(&mut self, role_name: &str) -> (r: Result<bool, KirinoError>)
        requires
            old(self).valid(),
        ensures
            final(self).valid(),
            final(self).ssd_read() == old(self).ssd_read(),
            final(self).dsd_read() == old(self).dsd_read(),
            final(self).bounds_read() == old(self).bounds_read(),
            final(self).required_read() == old(self).required_read(),
            r matches Ok(found) ==> old(self).windows_read() matches Ok(before) ==> {
                let kept = before.filter(other_windows(role_name@));
                &&& found == (kept.len() < before.len())
                &&& final(self).windows_read() matches Ok(after) ==> after == kept
            },
    ;

    /// Removes the time window of a role with exactly these ends; false if there was none.
    fn remove_temporal_constraint_for(&mut self, role_name: &str, valid_from: i128, valid_until: i128) -> (r: Result<
        bool,
        KirinoError,
    >)
        requires
            old(self).valid(),
        ensures
            final(self).valid(),
            final(self).ssd_read() == old(self).ssd_read(),
            final(self).dsd_read() == old(self).dsd_read(),
            final(self).bounds_read() == old(self).bounds_read(),
            final(self).required_read() == old(self).required_read(),
            r matches Ok(found) ==> old(self).windows_read() matches Ok(before) ==> {
                let kept = before.filter(other_window(role_name@, valid_from, valid_until));
                &&& found == (kept.len() < before.len())
                &&& final(self).windows_read() matches Ok(after) ==> after == kept
            },
    ;
}

impl ConstraintStore for InMemoryConstraintStore {
    open spec fn valid(&self) -> bool {
        self.wf()
    }

    open spec fn ssd_read(&self) -> Result<Seq<SsdPolicy>, ErrorView> {
        Ok(self.ssd())
    }

    open spec fn dsd_read(&self) -> Result<Seq<DsdPolicy>, ErrorView> {
        Ok(self.dsd())
    }

    open spec fn bounds_read(&self) -> Result<Seq<CardinalityConstraint>, ErrorView> {
        Ok(self.bounds())
    }

    open spec fn required_read(&self) -> Result<Seq<PrerequisiteConstraint>, ErrorView> {
        Ok(self.required())
    }

    open spec fn windows_read(&self) -> Result<Seq<TemporalConstraint>, ErrorView> {
        Ok(self.windows())
    }

    fn list_ssd_policies(&self) -> (r: Result<&Vec<SsdPolicy>, KirinoError>) {
        Ok(&self.ssd_policies)
    }

    fn list_dsd_policies(&self) -> (r: Result<&Vec<DsdPolicy>, KirinoError>) {
        Ok(&self.dsd_policies)
    }

    fn list_cardinality_constraints(&self) -> (r: Result<&Vec<CardinalityConstraint>, KirinoError>) {
        Ok(&self.cardinality)
    }

    fn list_prerequisite_constraints(&self) -> (r: Result<&Vec<PrerequisiteConstraint>, KirinoError>) {
        Ok(&self.prerequisites)
    }

    fn list_temporal_constraints(&self) -> (r: Result<&Vec<TemporalConstraint>, KirinoError>) {
        Ok(&self.temporal)
    }

    fn add_ssd_policy(&mut self, policy: SsdPolicy) -> (r: Result<(), KirinoError>)
        ensures
            final(self).dsd() == old(self).dsd(),
            final(self).bounds() == old(self).bounds(),
            final(self).required() == old(self).required(),
            final(self).windows() == old(self).windows(),
            match r {
                Ok(_) => {
                    &&& forall|i: int|
                        0 <= i < old(self).ssd().len() ==> (#[trigger] old(self).ssd()[i]).name@ != policy.name@
                    &&& final(self).ssd() == old(self).ssd().push(policy)
                },
                Err(e) => {
                    &&& exists|i: int|
                        0 <= i < old(self).ssd().len() && (#[trigger] old(self).ssd()[i]).name@ == policy.name@
                    &&& final(self).ssd() == old(self).ssd()
                    &&& e@ == ErrorView::AlreadyExists(
                        "SSD policy with name '"@ + policy.name@ + "' already exists"@,
                    )
                },
            },
    {
        let ghost same = |x: SsdPolicy| x.name@ == policy.name@;
        let test = |x: &SsdPolicy| -> (b: bool)
            ensures
                b == same(*x),
        {
            same_text(x.name.as_str(), policy.name.as_str())
        };
        if some_where(&self.ssd_policies, test, Ghost(same)) {
            return Err(
                KirinoError::AlreadyExists(
                    "SSD policy with name '".to_owned().concat(policy.name.as_str()).concat("' already exists"),
                ),
            );
        }
        let ghost before = self.ssd();
        proof {
            assert(forall|i: int| 0 <= i < before.len() ==> !same(#[trigger] before[i]));
            lemma_apart_push(before, policy, same_ssd());
        }
        self.ssd_policies.push(policy);
        Ok(())
    }

    fn remove_ssd_policy(&mut self, name: &str) -> (r: Result<bool, KirinoError>)
        ensures
            final(self).dsd() == old(self).dsd(),
            final(self).bounds() == old(self).bounds(),
            final(self).required() == old(self).required(),
            final(self).windows() == old(self).windows(),
            final(self).ssd() == old(self).ssd().filter(other_ssd(name@)),
            r is Ok,
            r->Ok_0 == exists|i: int|
                0 <= i < old(self).ssd().len() && (#[trigger] old(self).ssd()[i]).name@ == name@,
    {
        let ghost before = self.ssd();
        let ghost keep = other_ssd(name@);
        let mut items: Vec<SsdPolicy> = Vec::new();
        std::mem::swap(&mut self.ssd_policies, &mut items);
        let n: usize = items.len();
        let test = |x: &SsdPolicy| -> (b: bool)
            ensures
                b == keep(*x),
        {
            !same_text(x.name.as_str(), name)
        };
        self.ssd_policies = keep_where(items, test, Ghost(keep));
        proof {
            lemma_apart_filter(before, keep, same_ssd());
        }
        Ok(self.ssd_policies.len() < n)
    }

    fn add_dsd_policy(&mut self, policy: DsdPolicy) -> (r: Result<(), KirinoError>)
        ensures
            final(self).ssd() == old(self).ssd(),
            final(self).bounds() == old(self).bounds(),
            final(self).required() == old(self).required(),
            final(self).windows() == old(self).windows(),
            match r {
                Ok(_) => {
                    &&& forall|i: int|
                        0 <= i < old(self).dsd().len() ==> (#[trigger] old(self).dsd()[i]).name@ != policy.name@
                    &&& final(self).dsd() == old(self).dsd().push(policy)
                },
                Err(e) => {
                    &&& exists|i: int|
                        0 <= i < old(self).dsd().len() && (#[trigger] old(self).dsd()[i]).name@ == policy.name@
                    &&& final(self).dsd() == old(self).dsd()
                    &&& e@ == ErrorView::AlreadyExists(
                        "DSD policy with name '"@ + policy.name@ + "' already exists"@,
                    )
                },
            },
    {
        let ghost same = |x: DsdPolicy| x.name@ == policy.name@;
        let test = |x: &DsdPolicy| -> (b: bool)
            ensures
                b == same(*x),
        {
            same_text(x.name.as_str(), policy.name.as_str())
        };
        if some_where(&self.dsd_policies, test, Ghost(same)) {
            return Err(
                KirinoError::AlreadyExists(
                    "DSD policy with name '".to_owned().concat(policy.name.as_str()).concat("' already exists"),
                ),
            );
        }
        let ghost before = self.dsd();
        proof {
            assert(forall|i: int| 0 <= i < before.len() ==> !same(#[trigger] before[i]));
            lemma_apart_push(before, policy, same_dsd());
        }
        self.dsd_policies.push(policy);
        Ok(())
    }

    fn remove_dsd_policy(&mut self, name: &str) -> (r: Result<bool, KirinoError>)
        ensures
            final(self).ssd() == old(self).ssd(),
            final(self).bounds() == old(self).bounds(),
            final(self).required() == old(self).required(),
            final(self).windows() == old(self).windows(),
            final(self).dsd() == old(self).dsd().filter(other_dsd(name@)),
            r is Ok,
            r->Ok_0 == exists|i: int|
                0 <= i < old(self).dsd().len() && (#[trigger] old(self).dsd()[i]).name@ == name@,
    {
        let ghost before = self.dsd();
        let ghost keep = other_dsd(name@);
        let mut items: Vec<DsdPolicy> = Vec::new();
        std::mem::swap(&mut self.dsd_policies, &mut items);
        let n: usize = items.len();
        let test = |x: &DsdPolicy| -> (b: bool)
            ensures
                b == keep(*x),
        {
            !same_text(x.name.as_str(), name)
        };
        self.dsd_policies = keep_where(items, test, Ghost(keep));
        proof {
            lemma_apart_filter(before, keep, same_dsd());
        }
        Ok(self.dsd_policies.len() < n)
    }

    fn add_cardinality_constraint(&mut self, constraint: CardinalityConstraint) -> (r: Result<(), KirinoError>)
        ensures
            final(self).ssd() == old(self).ssd(),
            final(self).dsd() == old(self).dsd(),
            final(self).required() == old(self).required(),
            final(self).windows() == old(self).windows(),
            match r {
                Ok(_) => {
                    &&& forall|i: int|
                        0 <= i < old(self).bounds().len() ==> (#[trigger] old(self).bounds()[i]).role_name@ != constraint.role_name@
                    &&& final(self).bounds() == old(self).bounds().push(constraint)
                },
                Err(e) => {
                    &&& exists|i: int|
                        0 <= i < old(self).bounds().len() && (#[trigger] old(self).bounds()[i]).role_name@ == constraint.role_name@
                    &&& final(self).bounds() == old(self).bounds()
                    &&& e@ == ErrorView::AlreadyExists(
                        "cardinality constraint for role '"@ + constraint.role_name@ + "' already exists"@,
                    )
                },
            },
    {
        let ghost same = |x: CardinalityConstraint| x.role_name@ == constraint.role_name@;
        let test = |x: &CardinalityConstraint| -> (b: bool)
            ensures
                b == same(*x),
        {
            same_text(x.role_name.as_str(), constraint.role_name.as_str())
        };
        if some_where(&self.cardinality, test, Ghost(same)) {
            return Err(
                KirinoError::AlreadyExists(
                    "cardinality constraint for role '".to_owned().concat(
                        constraint.role_name.as_str(),
                    ).concat(
                        "' already exists",
                    ),
                ),
            );
        }
        let ghost before = self.bounds();
        proof {
            assert(forall|i: int| 0 <= i < before.len() ==> !same(#[trigger] before[i]));
            lemma_apart_push(before, constraint, same_bound());
        }
        self.cardinality.push(constraint);
        Ok(())
    }

    fn remove_cardinality_constraint(&mut self, role_name: &str) -> (r: Result<bool, KirinoError>)
        ensures
            final(self).ssd() == old(self).ssd(),
            final(self).dsd() == old(self).dsd(),
            final(self).required() == old(self).required(),
            final(self).windows() == old(self).windows(),
            final(self).bounds() == old(self).bounds().filter(other_bound(role_name@)),
            r is Ok,
            r->Ok_0 == exists|i: int|
                0 <= i < old(self).bounds().len() && (#[trigger] old(self).bounds()[i]).role_name@ == role_name@,
    {
        let ghost before = self.bounds();
        let ghost keep = other_bound(role_name@);
        let mut items: Vec<CardinalityConstraint> = Vec::new();
        std::mem::swap(&mut self.cardinality, &mut items);
        let n: usize = items.len();
        let test = |x: &CardinalityConstraint| -> (b: bool)
            ensures
                b == keep(*x),
        {
            !same_text(x.role_name.as_str(), role_name)
        };
        self.cardinality = keep_where(items, test, Ghost(keep));
        proof {
            lemma_apart_filter(before, keep, same_bound());
        }
        Ok(self.cardinality.len() < n)
    }

    fn add_prerequisite_constraint(&mut self, constraint: PrerequisiteConstraint) -> (r: Result<(), KirinoError>)
        ensures
            final(self).ssd() == old(self).ssd(),
            final(self).dsd() == old(self).dsd(),
            final(self).bounds() == old(self).bounds(),
            final(self).windows() == old(self).windows(),
            match r {
                Ok(_) => {
                    &&& forall|i: int|
                        0 <= i < old(self).required().len() ==> !same_requirement(
                            #[trigger] old(self).required()[i],
                            constraint.role_name@,
                            constraint.requires@,
                        )
                    &&& final(self).required() == old(self).required().push(constraint)
                },
                Err(e) => {
                    &&& exists|i: int|
                        0 <= i < old(self).required().len() && same_requirement(
                            #[trigger] old(self).required()[i],
                            constraint.role_name@,
                            constraint.requires@,
                        )
                    &&& final(self).required() == old(self).required()
                    &&& e@ == ErrorView::AlreadyExists(
                        "prerequisite constraint for role '"@ + constraint.role_name@ + "' requiring '"@
                            + constraint.requires@ + "' already exists"@,
                    )
                },
            },
    {
        let ghost same = |x: PrerequisiteConstraint| same_requirement(x, constraint.role_name@, constraint.requires@);
        let test = |x: &PrerequisiteConstraint| -> (b: bool)
            ensures
                b == same(*x),
        {
            same_text(x.role_name.as_str(), constraint.role_name.as_str()) && same_text(
                x.requires.as_str(),
                constraint.requires.as_str(),
            )
        };
        if some_where(&self.prerequisites, test, Ghost(same)) {
            return Err(
                KirinoError::AlreadyExists(
                    "prerequisite constraint for role '".to_owned().concat(
                        constraint.role_name.as_str(),
                    ).concat(
                        "' requiring '",
                    ).concat(
                        constraint.requires.as_str(),
                    ).concat(
                        "' already exists",
                    ),
                ),
            );
        }
        let ghost before = self.required();
        proof {
            assert(forall|i: int| 0 <= i < before.len() ==> !same(#[trigger] before[i]));
            lemma_apart_push(before, constraint, same_prerequisite());
        }
        self.prerequisites.push(constraint);
        Ok(())
    }

    fn remove_prerequisite_constraint(&mut self, role_name: &str) -> (r: Result<bool, KirinoError>)
        ensures
            final(self).ssd() == old(self).ssd(),
            final(self).dsd() == old(self).dsd(),
            final(self).bounds() == old(self).bounds(),
            final(self).windows() == old(self).windows(),
            final(self).required() == old(self).required().filter(other_required(role_name@)),
            r is Ok,
            r->Ok_0 == exists|i: int|
                0 <= i < old(self).required().len() && (#[trigger] old(self).required()[i]).role_name@ == role_name@,
    {
        let ghost before = self.required();
        let ghost keep = other_required(role_name@);
        let mut items: Vec<PrerequisiteConstraint> = Vec::new();
        std::mem::swap(&mut self.prerequisites, &mut items);
        let n: usize = items.len();
        let test = |x: &PrerequisiteConstraint| -> (b: bool)
            ensures
                b == keep(*x),
        {
            !same_text(x.role_name.as_str(), role_name)
        };
        self.prerequisites = keep_where(items, test, Ghost(keep));
        proof {
            lemma_apart_filter(before, keep, same_prerequisite());
        }
        Ok(self.prerequisites.len() < n)
    }

    fn remove_prerequisite_constraint_for(&mut self, role_name: &str, required: &str) -> (r: Result<bool, KirinoError>)
        ensures
            final(self).ssd() == old(self).ssd(),
            final(self).dsd() == old(self).dsd(),
            final(self).bounds() == old(self).bounds(),
            final(self).windows() == old(self).windows(),
            final(self).required() == old(self).required().filter(other_requirement(role_name@, required@)),
            r is Ok,
            r->Ok_0 == exists|i: int|
                0 <= i < old(self).required().len() && same_requirement(
                    #[trigger] old(self).required()[i],
                    role_name@,
                    required@,
                ),
    {
        let ghost before = self.required();
        let ghost keep = other_requirement(role_name@, required@);
        let mut items: Vec<PrerequisiteConstraint> = Vec::new();
        std::mem::swap(&mut self.prerequisites, &mut items);
        let n: usize = items.len();
        let test = |x: &PrerequisiteConstraint| -> (b: bool)
            ensures
                b == keep(*x),
        {
            !(same_text(x.role_name.as_str(), role_name) && same_text(x.requires.as_str(), required))
        };
        self.prerequisites = keep_where(items, test, Ghost(keep));
        proof {
            lemma_apart_filter(before, keep, same_prerequisite());
        }
        Ok(self.prerequisites.len() < n)
    }

    fn add_temporal_constraint(&mut self, constraint: TemporalConstraint) -> (r: Result<(), KirinoError>)
        ensures
            final(self).ssd() == old(self).ssd(),
            final(self).dsd() == old(self).dsd(),
            final(self).bounds() == old(self).bounds(),
            final(self).required() == old(self).required(),
            match r {
                Ok(_) => {
                    &&& forall|i: int|
                        0 <= i < old(self).windows().len() ==> !same_window(
                            #[trigger] old(self).windows()[i],
                            constraint.role_name@,
                            constraint.valid_from,
                            constraint.valid_until,
                        )
                    &&& final(self).windows() == old(self).windows().push(constraint)
                },
                Err(e) => {
                    &&& exists|i: int|
                        0 <= i < old(self).windows().len() && same_window(
                            #[trigger] old(self).windows()[i],
                            constraint.role_name@,
                            constraint.valid_from,
                            constraint.valid_until,
                        )
                    &&& final(self).windows() == old(self).windows()
                    &&& e@ == ErrorView::AlreadyExists(
                        "identical temporal constraint for role '"@ + constraint.role_name@ + "' already exists"@,
                    )
                },
            },
    {
        let ghost same = |x: TemporalConstraint|
            same_window(x, constraint.role_name@, constraint.valid_from, constraint.valid_until);
        let test = |x: &TemporalConstraint| -> (b: bool)
            ensures
                b == same(*x),
        {
            same_text(x.role_name.as_str(), constraint.role_name.as_str()) && x.valid_from == constraint.valid_from
                && x.valid_until == constraint.valid_until
        };
        if some_where(&self.temporal, test, Ghost(same)) {
            return Err(
                KirinoError::AlreadyExists(
                    "identical temporal constraint for role '".to_owned().concat(
                        constraint.role_name.as_str(),
                    ).concat(
                        "' already exists",
                    ),
                ),
            );
        }
        let ghost before = self.windows();
        proof {
            assert(forall|i: int| 0 <= i < before.len() ==> !same(#[trigger] before[i]));
            lemma_apart_push(before, constraint, same_temporal());
        }
        self.temporal.push(constraint);
        Ok(())
    }

    fn remove_temporal_constraint(&mut self, role_name: &str) -> (r: Result<bool, KirinoError>)
        ensures
            final(self).ssd() == old(self).ssd(),
            final(self).dsd() == old(self).dsd(),
            final(self).bounds() == old(self).bounds(),
            final(self).required() == old(self).required(),
            final(self).windows() == old(self).windows().filter(other_windows(role_name@)),
            r is Ok,
            r->Ok_0 == exists|i: int|
                0 <= i < old(self).windows().len() && (#[trigger] old(self).windows()[i]).role_name@ == role_name@,
    {
        let ghost before = self.windows();
        let ghost keep = other_windows(role_name@);
        let mut items: Vec<TemporalConstraint> = Vec::new();
        std::mem::swap(&mut self.temporal, &mut items);
        let n: usize = items.len();
        let test = |x: &TemporalConstraint| -> (b: bool)
            ensures
                b == keep(*x),
        {
            !same_text(x.role_name.as_str(), role_name)
        };
        self.temporal = keep_where(items, test, Ghost(keep));
        proof {
            lemma_apart_filter(before, keep, same_temporal());
        }
        Ok(self.temporal.len() < n)
    }

    fn remove_temporal_constraint_for(&mut self, role_name: &str, valid_from: i128, valid_until: i128) -> (r: Result<
        bool,
        KirinoError,
    >)
        ensures
            final(self).ssd() == old(self).ssd(),
            final(self).dsd() == old(self).dsd(),
            final(self).bounds() == old(self).bounds(),
            final(self).required() == old(self).required(),
            final(self).windows() == old(self).windows().filter(other_window(role_name@, valid_from, valid_until)),
            r is Ok,
            r->Ok_0 == exists|i: int|
                0 <= i < old(self).windows().len() && same_window(
                    #[trigger] old(self).windows()[i],
                    role_name@,
                    valid_from,
                    valid_until,
                ),
    {
        let ghost before = self.windows();
        let ghost keep = other_window(role_name@, valid_from, valid_until);
        let mut items: Vec<TemporalConstraint> = Vec::new();
        std::mem::swap(&mut self.temporal, &mut items);
        let n: usize = items.len();
        let test = |x: &TemporalConstraint| -> (b: bool)
            ensures
                b == keep(*x),
        {
            !(same_text(x.role_name.as_str(), role_name) && x.valid_from == valid_from && x.valid_until == valid_until)
        };
        self.temporal = keep_where(items, test, Ghost(keep));
        proof {
            lemma_apart_filter(before, keep, same_temporal());
        }
        Ok(self.temporal.len() < n)
    }
}

impl Default for InMemoryConstraintStore {
    fn default() -> (r: Self)
        ensures
            r.wf(),
            r.ssd().len() == 0,
            r.dsd().len() == 0,
            r.bounds().len() == 0,
            r.required().len() == 0,
            r.windows().len() == 0,
    {
        InMemoryConstraintStore::new()
    }
}

/// A policy on assignment is stored behind the others unless one with its name is there already; then nothing changes.
/// Removing takes exactly the ones asked for away, and tells whether there was one.
pub proof fn law_stored_ssd_policy(
    before: InMemoryConstraintStore,
    added: InMemoryConstraintStore,
    removed: InMemoryConstraintStore,
    item: SsdPolicy,
    put: Result<(), KirinoError>,
    name: &str,
    taken: Result<bool, KirinoError>,
    x: SsdPolicy,
)
    requires
        exists|store: &mut InMemoryConstraintStore|
            *store == before && *final(store) == added && #[trigger] call_ensures(
                InMemoryConstraintStore::add_ssd_policy,
                (store, item),
                put,
            ),
        exists|store: &mut InMemoryConstraintStore|
            *store == before && *final(store) == removed && #[trigger] call_ensures(
                InMemoryConstraintStore::remove_ssd_policy,
                (store, name),
                taken,
            ),
    ensures
        put is Err <==> exists|i: int| 0 <= i < before.ssd().len() && (#[trigger] before.ssd()[i]).name@ == item.name@,
        put matches Err(e) ==> e@ is AlreadyExists,
        added.ssd() == (if put is Ok {
            before.ssd().push(item)
        } else {
            before.ssd()
        }),
        removed.ssd().contains(x) <==> before.ssd().contains(x) && !(x.name@ == name@),
        taken matches Ok(found) && (found <==> exists|i: int| 0 <= i < before.ssd().len() && (#[trigger] before.ssd()[i]).name@ == name@),
        added.dsd() == before.dsd() && removed.dsd() == before.dsd(),
        added.bounds() == before.bounds() && removed.bounds() == before.bounds(),
        added.required() == before.required() && removed.required() == before.required(),
        added.windows() == before.windows() && removed.windows() == before.windows(),
{
    crate::collections::lemma_filter_contains(before.ssd(), other_ssd(name@), x);
}

/// A policy on activation is stored behind the others unless one with its name is there already; then nothing changes.
/// Removing takes exactly the ones asked for away, and tells whether there was one.
pub proof fn law_stored_dsd_policy(
    before: InMemoryConstraintStore,
    added: InMemoryConstraintStore,
    removed: InMemoryConstraintStore,
    item: DsdPolicy,
    put: Result<(), KirinoError>,
    name: &str,
    taken: Result<bool, KirinoError>,
    x: DsdPolicy,
)
    requires
        exists|store: &mut InMemoryConstraintStore|
            *store == before && *final(store) == added && #[trigger] call_ensures(
                InMemoryConstraintStore::add_dsd_policy,
                (store, item),
                put,
            ),
        exists|store: &mut InMemoryConstraintStore|
            *store == before && *final(store) == removed && #[trigger] call_ensures(
                InMemoryConstraintStore::remove_dsd_policy,
                (store, name),
                taken,
            ),
    ensures
        put is Err <==> exists|i: int| 0 <= i < before.dsd().len() && (#[trigger] before.dsd()[i]).name@ == item.name@,
        put matches Err(e) ==> e@ is AlreadyExists,
        added.dsd() == (if put is Ok {
            before.dsd().push(item)
        } else {
            before.dsd()
        }),
        removed.dsd().contains(x) <==> before.dsd().contains(x) && !(x.name@ == name@),
        taken matches Ok(found) && (found <==> exists|i: int| 0 <= i < before.dsd().len() && (#[trigger] before.dsd()[i]).name@ == name@),
        added.ssd() == before.ssd() && removed.ssd() == before.ssd(),
        added.bounds() == before.bounds() && removed.bounds() == before.bounds(),
        added.required() == before.required() && removed.required() == before.required(),
        added.windows() == before.windows() && removed.windows() == before.windows(),
{
    crate::collections::lemma_filter_contains(before.dsd(), other_dsd(name@), x);
}

/// A cardinality bound is stored behind the others unless one with its role is there already; then nothing changes.
/// Removing takes exactly the ones asked for away, and tells whether there was one.
pub proof fn law_stored_bound(
    before: InMemoryConstraintStore,
    added: InMemoryConstraintStore,
    removed: InMemoryConstraintStore,
    item: CardinalityConstraint,
    put: Result<(), KirinoError>,
    role: &str,
    taken: Result<bool, KirinoError>,
    x: CardinalityConstraint,
)
    requires
        exists|store: &mut InMemoryConstraintStore|
            *store == before && *final(store) == added && #[trigger] call_ensures(
                InMemoryConstraintStore::add_cardinality_constraint,
                (store, item),
                put,
            ),
        exists|store: &mut InMemoryConstraintStore|
            *store == before && *final(store) == removed && #[trigger] call_ensures(
                InMemoryConstraintStore::remove_cardinality_constraint,
                (store, role),
                taken,
            ),
    ensures
        put is Err <==> exists|i: int| 0 <= i < before.bounds().len() && (#[trigger] before.bounds()[i]).role_name@ == item.role_name@,
        put matches Err(e) ==> e@ is AlreadyExists,
        added.bounds() == (if put is Ok {
            before.bounds().push(item)
        } else {
            before.bounds()
        }),
        removed.bounds().contains(x) <==> before.bounds().contains(x) && !(x.role_name@ == role@),
        taken matches Ok(found) && (found <==> exists|i: int| 0 <= i < before.bounds().len() && (#[trigger] before.bounds()[i]).role_name@ == role@),
        added.ssd() == before.ssd() && removed.ssd() == before.ssd(),
        added.dsd() == before.dsd() && removed.dsd() == before.dsd(),
        added.required() == before.required() && removed.required() == before.required(),
        added.windows() == before.windows() && removed.windows() == before.windows(),
{
    crate::collections::lemma_filter_contains(before.bounds(), other_bound(role@), x);
}

/// A prerequisite is stored behind the others unless one with its two roles is there already; then nothing changes.
/// Removing takes exactly the ones asked for away, and tells whether there was one.
pub proof fn law_stored_prerequisite(
    before: InMemoryConstraintStore,
    added: InMemoryConstraintStore,
    removed: InMemoryConstraintStore,
    item: PrerequisiteConstraint,
    put: Result<(), KirinoError>,
    role: &str,
    other: &str,
    taken: Result<bool, KirinoError>,
    x: PrerequisiteConstraint,
)
    requires
        exists|store: &mut InMemoryConstraintStore|
            *store == before && *final(store) == added && #[trigger] call_ensures(
                InMemoryConstraintStore::add_prerequisite_constraint,
                (store, item),
                put,
            ),
        exists|store: &mut InMemoryConstraintStore|
            *store == before && *final(store) == removed && #[trigger] call_ensures(
                InMemoryConstraintStore::remove_prerequisite_constraint_for,
                (store, role, other),
                taken,
            ),
    ensures
        put is Err <==> exists|i: int| 0 <= i < before.required().len() && (#[trigger] before.required()[i]).role_name@ == item.role_name@ && before.required()[i].requires@ == item.requires@,
        put matches Err(e) ==> e@ is AlreadyExists,
        added.required() == (if put is Ok {
            before.required().push(item)
        } else {
            before.required()
        }),
        removed.required().contains(x) <==> before.required().contains(x) && !(x.role_name@ == role@ && x.requires@ == other@),
        taken matches Ok(found) && (found <==> exists|i: int| 0 <= i < before.required().len() && (#[trigger] before.required()[i]).role_name@ == role@ && before.required()[i].requires@ == other@),
        added.ssd() == before.ssd() && removed.ssd() == before.ssd(),
        added.dsd() == before.dsd() && removed.dsd() == before.dsd(),
        added.bounds() == before.bounds() && removed.bounds() == before.bounds(),
        added.windows() == before.windows() && removed.windows() == before.windows(),
{
    crate::collections::lemma_filter_contains(before.required(), other_requirement(role@, other@), x);
}

/// A time window is stored behind the others unless one with its role and its two moments is there already; then nothing changes.
/// Removing takes exactly the ones asked for away, and tells whether there was one.
pub proof fn law_stored_window(
    before: InMemoryConstraintStore,
    added: InMemoryConstraintStore,
    removed: InMemoryConstraintStore,
    item: TemporalConstraint,
    put: Result<(), KirinoError>,
    role: &str,
    from: i128,
    until: i128,
    taken: Result<bool, KirinoError>,
    x: TemporalConstraint,
)
    requires
        exists|store: &mut InMemoryConstraintStore|
            *store == before && *final(store) == added && #[trigger] call_ensures(
                InMemoryConstraintStore::add_temporal_constraint,
                (store, item),
                put,
            ),
        exists|store: &mut InMemoryConstraintStore|
            *store == before && *final(store) == removed && #[trigger] call_ensures(
                InMemoryConstraintStore::remove_temporal_constraint_for,
                (store, role, from, until),
                taken,
            ),
    ensures
        put is Err <==> exists|i: int| 0 <= i < before.windows().len() && (#[trigger] before.windows()[i]).role_name@ == item.role_name@ && before.windows()[i].valid_from == item.valid_from && before.windows()[i].valid_until == item.valid_until,
        put matches Err(e) ==> e@ is AlreadyExists,
        added.windows() == (if put is Ok {
            before.windows().push(item)
        } else {
            before.windows()
        }),
        removed.windows().contains(x) <==> before.windows().contains(x) && !(x.role_name@ == role@ && x.valid_from == from && x.valid_until == until),
        taken matches Ok(found) && (found <==> exists|i: int| 0 <= i < before.windows().len() && (#[trigger] before.windows()[i]).role_name@ == role@ && before.windows()[i].valid_from == from && before.windows()[i].valid_until == until),
        added.ssd() == before.ssd() && removed.ssd() == before.ssd(),
        added.dsd() == before.dsd() && removed.dsd() == before.dsd(),
        added.bounds() == before.bounds() && removed.bounds() == before.bounds(),
        added.required() == before.required() && removed.required() == before.required(),
{
    crate::collections::lemma_filter_contains(before.windows(), other_window(role@, from, until), x);
}

/// Removing the prerequisites of a role takes exactly those away, and tells whether there was one.
pub proof fn law_removed_prerequisites(
    before: InMemoryConstraintStore,
    removed: InMemoryConstraintStore,
    role: &str,
    taken: Result<bool, KirinoError>,
    x: PrerequisiteConstraint,
)
    requires
        exists|store: &mut InMemoryConstraintStore|
            *store == before && *final(store) == removed && #[trigger] call_ensures(
                InMemoryConstraintStore::remove_prerequisite_constraint,
                (store, role),
                taken,
            ),
    ensures
        removed.required().contains(x) <==> before.required().contains(x) && x.role_name@ != role@,
        taken matches Ok(found) && (found <==> exists|i: int|
            0 <= i < before.required().len() && (#[trigger] before.required()[i]).role_name@ == role@),
{
    crate::collections::lemma_filter_contains(before.required(), other_required(role@), x);
}

/// Removing the time windows of a role takes exactly those away, and tells whether there was one.
pub proof fn law_removed_windows(
    before: InMemoryConstraintStore,
    removed: InMemoryConstraintStore,
    role: &str,
    taken: Result<bool, KirinoError>,
    x: TemporalConstraint,
)
    requires
        exists|store: &mut InMemoryConstraintStore|
            *store == before && *final(store) == removed && #[trigger] call_ensures(
                InMemoryConstraintStore::remove_temporal_constraint,
                (store, role),
                taken,
            ),
    ensures
        removed.windows().contains(x) <==> before.windows().contains(x) && x.role_name@ != role@,
        taken matches Ok(found) && (found <==> exists|i: int|
            0 <= i < before.windows().len() && (#[trigger] before.windows()[i]).role_name@ == role@),
{
    crate::collections::lemma_filter_contains(before.windows(), other_windows(role@), x);
}

/// A new store holds no constraint, and what it lists are the constraints that it holds, in their order.
pub proof fn law_new_store_and_its_lists(
    made: InMemoryConstraintStore,
    usual: InMemoryConstraintStore,
    store: &InMemoryConstraintStore,
    ssd: Result<&Vec<SsdPolicy>, KirinoError>,
    dsd: Result<&Vec<DsdPolicy>, KirinoError>,
    bounds: Result<&Vec<CardinalityConstraint>, KirinoError>,
    required: Result<&Vec<PrerequisiteConstraint>, KirinoError>,
    windows: Result<&Vec<TemporalConstraint>, KirinoError>,
)
    requires
        call_ensures(InMemoryConstraintStore::new, (), made),
        call_ensures(InMemoryConstraintStore::default, (), usual),
        call_ensures(InMemoryConstraintStore::list_ssd_policies, (store,), ssd),
        call_ensures(InMemoryConstraintStore::list_dsd_policies, (store,), dsd),
        call_ensures(InMemoryConstraintStore::list_cardinality_constraints, (store,), bounds),
        call_ensures(InMemoryConstraintStore::list_prerequisite_constraints, (store,), required),
        call_ensures(InMemoryConstraintStore::list_temporal_constraints, (store,), windows),
    ensures
        made.ssd().len() == 0 && made.dsd().len() == 0 && made.bounds().len() == 0,
        made.required().len() == 0 && made.windows().len() == 0,
        usual.ssd().len() == 0 && usual.dsd().len() == 0 && usual.bounds().len() == 0,
        usual.required().len() == 0 && usual.windows().len() == 0,
        ssd matches Ok(list) && list@ == store.ssd(),
        dsd matches Ok(list) && list@ == store.dsd(),
        bounds matches Ok(list) && list@ == store.bounds(),
        required matches Ok(list) && list@ == store.required(),
        windows matches Ok(list) && list@ == store.windows(),
{
}

} // verus!
