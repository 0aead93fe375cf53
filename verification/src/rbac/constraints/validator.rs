//! Checks of the stored constraints, before a role is assigned or activated.
//!
//! A broken constraint and a read that fails are both reported; a caller denies on
//! either. A kind of constraint that is not stored for a role restricts nothing.
use crate::error::{ErrorView, KirinoError};
use crate::rbac::constraints::policies::{
    CardinalityConstraint, DsdPolicy, PrerequisiteConstraint, SsdPolicy, TemporalConstraint,
};
use crate::rbac::constraints::store::ConstraintStore;
use crate::text::decimal;
use vstd::prelude::*;

verus! {

/// The first entry of a list that fails a test.
pub open spec fn first_failing<A>(s: Seq<A>, passes: spec_fn(A) -> bool) -> Option<A>
    decreases s.len(),
{
    if s.len() == 0 {
        None
    } else {
        match first_failing(s.drop_last(), passes) {
            Some(x) => Some(x),
            None => if passes(s.last()) {
                None
            } else {
                Some(s.last())
            },
        }
    }
}

/// No entry fails exactly if all pass.
pub proof fn lemma_first_failing<A>(s: Seq<A>, passes: spec_fn(A) -> bool)
    ensures
        first_failing(s, passes) is None <==> (forall|i: int| 0 <= i < s.len() ==> passes(#[trigger] s[i])),
        first_failing(s, passes) matches Some(x) ==> s.contains(x) && !passes(x),
    decreases s.len(),
{
    if s.len() > 0 {
        let t = s.drop_last();
        lemma_first_failing(t, passes);
        assert forall|i: int| 0 <= i < t.len() implies t[i] == s[i] by {}
        if first_failing(s, passes) is None {
            assert forall|i: int| 0 <= i < s.len() implies passes(#[trigger] s[i]) by {
                if i < t.len() {
                    assert(passes(t[i]));
                }
            }
        } else {
            match first_failing(t, passes) {
                Some(x) => {
                    let i = choose|i: int| 0 <= i < t.len() && t[i] == x;
                    assert(s[i] == x);
                },
                None => {
                    assert(s[s.len() - 1] == s.last());
                },
            }
        }
    }
}

/// The first entry that fails in one more entry of a list.
pub proof fn lemma_first_failing_next<A>(s: Seq<A>, i: int, passes: spec_fn(A) -> bool)
    requires
        0 <= i < s.len(),
        first_failing(s.take(i), passes) is None,
    ensures
        first_failing(s.take(i + 1), passes) == (if passes(s[i]) { None } else { Some(s[i]) }),
        !passes(s[i]) ==> first_failing(s, passes) == Some(s[i]),
{
    assert(s.take(i + 1).drop_last() =~= s.take(i));
    if !passes(s[i]) {
        lemma_first_failing_keeps(s, i + 1, passes);
    }
}

proof fn lemma_first_failing_keeps<A>(s: Seq<A>, n: int, passes: spec_fn(A) -> bool)
    requires
        0 <= n <= s.len(),
        first_failing(s.take(n), passes) is Some,
    ensures
        first_failing(s, passes) == first_failing(s.take(n), passes),
    decreases s.len() - n,
{
    if n < s.len() {
        assert(s.take(n + 1).drop_last() =~= s.take(n));
        lemma_first_failing_keeps(s, n + 1, passes);
    } else {
        assert(s.take(n) =~= s);
    }
}

/// The message of a broken policy on assignment.
pub open spec fn ssd_message(policy: SsdPolicy, role: Seq<char>) -> Seq<char> {
    "SSD policy '"@ + policy.name@ + "' violated: adding '"@ + role + "' would exceed cardinality "@
        + crate::text::decimal_text(policy.cardinality as nat)
}

/// The message of a broken policy on activation.
pub open spec fn dsd_message(policy: DsdPolicy, role: Seq<char>) -> Seq<char> {
    "DSD policy '"@ + policy.name@ + "' violated: activating '"@ + role + "' exceeds cardinality "@
        + crate::text::decimal_text(policy.cardinality as nat)
}

/// The test of a policy on assignment: whether it admits a list of roles.
pub open spec fn ssd_test(roles: Seq<Seq<char>>) -> spec_fn(SsdPolicy) -> bool {
    |p: SsdPolicy| p.admits(roles)
}

/// The test of a policy on activation: whether it admits a list of roles.
pub open spec fn dsd_test(roles: Seq<Seq<char>>) -> spec_fn(DsdPolicy) -> bool {
    |p: DsdPolicy| p.admits(roles)
}

/// The test of a window: whether it leaves a role open at a moment.
pub open spec fn window_test(role: Seq<char>, now: i128) -> spec_fn(TemporalConstraint) -> bool {
    |w: TemporalConstraint| w.role_name@ == role ==> w.covers(now)
}

/// The test of a bound: whether it leaves room for one more subject of a role.
pub open spec fn bound_test(role: Seq<char>, count: usize) -> spec_fn(CardinalityConstraint) -> bool {
    |b: CardinalityConstraint| b.role_name@ == role ==> count < b.max_subjects
}

/// The test of a prerequisite: whether the roles that are held meet it for a role.
pub open spec fn requirement_test(role: Seq<char>, current: Seq<Seq<char>>) -> spec_fn(PrerequisiteConstraint) -> bool {
    |q: PrerequisiteConstraint| q.role_name@ == role ==> current.contains(q.requires@)
}

/// What the check of separation on assignment comes to.
pub open spec fn ssd_outcome<S: ConstraintStore>(store: &S, current: Seq<Seq<char>>, role: Seq<char>) -> Result<
    (),
    ErrorView,
> {
    match store.ssd_read() {
        Err(e) => Err(e),
        Ok(policies) => if current.contains(role) {
            Ok(())
        } else {
            match first_failing(policies, ssd_test(current.push(role))) {
                Some(p) => Err(ErrorView::ConstraintViolation(ssd_message(p, role))),
                None => Ok(()),
            }
        },
    }
}

/// What the check of separation on activation comes to.
pub open spec fn dsd_outcome<S: ConstraintStore>(store: &S, active: Seq<Seq<char>>, role: Seq<char>) -> Result<
    (),
    ErrorView,
> {
    match store.dsd_read() {
        Err(e) => Err(e),
        Ok(policies) => if active.contains(role) {
            Ok(())
        } else {
            match first_failing(policies, dsd_test(active.push(role))) {
                Some(p) => Err(ErrorView::ConstraintViolation(dsd_message(p, role))),
                None => Ok(()),
            }
        },
    }
}

/// What the check of the time windows comes to at a moment.
pub open spec fn temporal_outcome<S: ConstraintStore>(store: &S, role: Seq<char>, now: i128) -> Result<(), ErrorView> {
    match store.windows_read() {
        Err(e) => Err(e),
        Ok(windows) => match first_failing(
            windows,
            window_test(role, now),
        ) {
            Some(_) => Err(
                ErrorView::ConstraintViolation(
                    "Temporal constraint: role '"@ + role + "' is not available at the current time"@,
                ),
            ),
            None => Ok(()),
        },
    }
}

/// What the check of the cardinality bound comes to.
pub open spec fn cardinality_outcome<S: ConstraintStore>(store: &S, role: Seq<char>, count: usize) -> Result<
    (),
    ErrorView,
> {
    match store.bounds_read() {
        Err(e) => Err(e),
        Ok(bounds) => match first_failing(
            bounds,
            bound_test(role, count),
        ) {
            Some(b) => Err(
                ErrorView::ConstraintViolation(
                    "Cardinality constraint: role '"@ + role + "' already has "@ + crate::text::decimal_text(
                        count as nat,
                    ) + " subjects (max "@ + crate::text::decimal_text(b.max_subjects as nat) + ")"@,
                ),
            ),
            None => Ok(()),
        },
    }
}

/// What the check of the prerequisites comes to.
pub open spec fn prerequisite_outcome<S: ConstraintStore>(store: &S, role: Seq<char>, current: Seq<Seq<char>>) -> Result<
    (),
    ErrorView,
> {
    match store.required_read() {
        Err(e) => Err(e),
        Ok(required) => match first_failing(
            required,
            requirement_test(role, current),
        ) {
            Some(q) => Err(
                ErrorView::ConstraintViolation(
                    "Prerequisite constraint: role '"@ + role + "' requires '"@ + q.requires@ + "'"@,
                ),
            ),
            None => Ok(()),
        },
    }
}

/// What the checks before an assignment come to: the first that fails, in the order separation,
/// cardinality, prerequisites, time.
pub open spec fn assignment_outcome<S: ConstraintStore>(
    store: &S,
    current: Seq<Seq<char>>,
    role: Seq<char>,
    count: usize,
    now: i128,
) -> Result<(), ErrorView> {
    if ssd_outcome(store, current, role) is Err {
        ssd_outcome(store, current, role)
    } else if cardinality_outcome(store, role, count) is Err {
        cardinality_outcome(store, role, count)
    } else if prerequisite_outcome(store, role, current) is Err {
        prerequisite_outcome(store, role, current)
    } else {
        temporal_outcome(store, role, now)
    }
}

/// A result with its failure as characters.
pub open spec fn shown(r: Result<(), KirinoError>) -> Result<(), ErrorView> {
    match r {
        Ok(_) => Ok(()),
        Err(e) => Err(e@),
    }
}

/// The entries of a list and one more.
fn with_one_more(list: &[String], text: &str) -> (r: Vec<String>)
    ensures
        crate::rbac::constraints::policies::texts(r@) == crate::rbac::constraints::policies::texts(list@).push(text@),
{
    let mut r: Vec<String> = Vec::new();
    let mut i: usize = 0;
    while i < list.len()
        invariant
            i <= list@.len(),
            r@ =~= list@.take(i as int),
        decreases list.len() - i,
    {
        r.push(list[i].clone());
        i = i + 1;
    }
    r.push(text.to_owned());
    assert(crate::rbac::constraints::policies::texts(r@) =~= crate::rbac::constraints::policies::texts(list@).push(
        text@,
    ));
    r
}

/// The checks over one store.
pub struct ConstraintValidator<S> {
    store: S,
}

impl<S: ConstraintStore> ConstraintValidator<S> {
    /// The store that is read.
    pub closed spec fn source(&self) -> S {
        self.store
    }

    /// The checks over a store.
    #[must_use]
    pub fn new(store: S) -> (r: Self)
        ensures
            r.source() == store,
    {
        ConstraintValidator { store }
    }

    /// Checks the policies on assignment before a role joins those that are held.
    pub fn validate_ssd(&self, current_roles: &[String], new_role: &str) -> (r: Result<(), KirinoError>)
        requires
            self.source().valid(),
        ensures
            shown(r) == ssd_outcome(
                &self.source(),
                crate::rbac::constraints::policies::texts(current_roles@),
                new_role@,
            ),
    {
        let policies = match self.store.list_ssd_policies() {
            Ok(list) => list,
            Err(e) => {
                return Err(e);
            },
        };
        if crate::rbac::constraints::policies::holds_text(current_roles, new_role) {
            return Ok(());
        }
        let tried = with_one_more(current_roles, new_role);
        let ghost current = crate::rbac::constraints::policies::texts(current_roles@);
        let ghost passes = ssd_test(current.push(new_role@));
        let mut i: usize = 0;
        while i < policies.len()
            invariant
                i <= policies@.len(),
                current == crate::rbac::constraints::policies::texts(current_roles@),
                !current.contains(new_role@),
                passes == ssd_test(current.push(new_role@)),
                crate::rbac::constraints::policies::texts(tried@) == current.push(new_role@),
                self.source().ssd_read() == Ok::<Seq<SsdPolicy>, ErrorView>(policies@),
                forall|k: int| 0 <= k < policies@.len() ==> (#[trigger] policies@[k]).wf(),
                first_failing(policies@.take(i as int), passes) is None,
            decreases policies.len() - i,
        {
            proof {
                lemma_first_failing_next(policies@, i as int, passes);
            }
            let policy = &policies[i];
            if !policy.validate(tried.as_slice()) {
                return Err(
                    KirinoError::ConstraintViolation(
                        "SSD policy '".to_owned().concat(policy.name.as_str()).concat("' violated: adding '").concat(
                            new_role,
                        ).concat("' would exceed cardinality ").concat(
                            decimal(policy.cardinality as u128).as_str(),
                        ),
                    ),
                );
            }
            i = i + 1;
        }
        assert(policies@.take(policies@.len() as int) =~= policies@);
        Ok(())
    }

    /// Checks the policies on activation before a role joins those that are active.
    pub fn validate_dsd(&self, active_roles: &[String], new_role: &str) -> (r: Result<(), KirinoError>)
        requires
            self.source().valid(),
        ensures
            shown(r) == dsd_outcome(
                &self.source(),
                crate::rbac::constraints::policies::texts(active_roles@),
                new_role@,
            ),
    {
        let policies = match self.store.list_dsd_policies() {
            Ok(list) => list,
            Err(e) => {
                return Err(e);
            },
        };
        if crate::rbac::constraints::policies::holds_text(active_roles, new_role) {
            return Ok(());
        }
        let tried = with_one_more(active_roles, new_role);
        let ghost active = crate::rbac::constraints::policies::texts(active_roles@);
        let ghost passes = dsd_test(active.push(new_role@));
        let mut i: usize = 0;
        while i < policies.len()
            invariant
                i <= policies@.len(),
                active == crate::rbac::constraints::policies::texts(active_roles@),
                !active.contains(new_role@),
                passes == dsd_test(active.push(new_role@)),
                crate::rbac::constraints::policies::texts(tried@) == active.push(new_role@),
                self.source().dsd_read() == Ok::<Seq<DsdPolicy>, ErrorView>(policies@),
                forall|k: int| 0 <= k < policies@.len() ==> (#[trigger] policies@[k]).wf(),
                first_failing(policies@.take(i as int), passes) is None,
            decreases policies.len() - i,
        {
            proof {
                lemma_first_failing_next(policies@, i as int, passes);
            }
            let policy = &policies[i];
            if !policy.validate(tried.as_slice()) {
                return Err(
                    KirinoError::ConstraintViolation(
                        "DSD policy '".to_owned().concat(policy.name.as_str()).concat("' violated: activating '").concat(
                            new_role,
                        ).concat("' exceeds cardinality ").concat(decimal(policy.cardinality as u128).as_str()),
                    ),
                );
            }
            i = i + 1;
        }
        assert(policies@.take(policies@.len() as int) =~= policies@);
        Ok(())
    }

    /// Checks that no time window of a role is closed at a moment.
    pub fn validate_temporal_at(&self, role_name: &str, now: i128) -> (r: Result<(), KirinoError>)
        requires
            self.source().valid(),
        ensures
            shown(r) == temporal_outcome(&self.source(), role_name@, now),
    {
        let windows = match self.store.list_temporal_constraints() {
            Ok(list) => list,
            Err(e) => {
                return Err(e);
            },
        };
        let ghost passes = window_test(role_name@, now);
        let mut i: usize = 0;
        while i < windows.len()
            invariant
                i <= windows@.len(),
                passes == window_test(role_name@, now),
                self.source().windows_read() == Ok::<Seq<TemporalConstraint>, ErrorView>(windows@),
                first_failing(windows@.take(i as int), passes) is None,
            decreases windows.len() - i,
        {
            proof {
                lemma_first_failing_next(windows@, i as int, passes);
            }
            let window = &windows[i];
            if crate::text::same_text(window.role_name.as_str(), role_name) && !window.is_valid_at(now) {
                return Err(
                    KirinoError::ConstraintViolation(
                        "Temporal constraint: role '".to_owned().concat(role_name).concat(
                            "' is not available at the current time",
                        ),
                    ),
                );
            }
            i = i + 1;
        }
        assert(windows@.take(windows@.len() as int) =~= windows@);
        Ok(())
    }

    /// Checks that no time window of a role is closed at the present moment.
    pub fn validate_temporal(&self, role_name: &str) -> (r: Result<(), KirinoError>)
        requires
            self.source().valid(),
        ensures
            exists|now: i128| #[trigger]
                crate::time::is_now(now) && shown(r) == temporal_outcome(&self.source(), role_name@, now),
    {
        let now: i128 = crate::time::utc_now();
        self.validate_temporal_at(role_name, now)
    }

    /// Checks the bound of a role against the number of subjects that hold it.
    pub fn validate_cardinality(&self, role_name: &str, current_subject_count: usize) -> (r: Result<(), KirinoError>)
        requires
            self.source().valid(),
        ensures
            shown(r) == cardinality_outcome(&self.source(), role_name@, current_subject_count),
    {
        let bounds = match self.store.list_cardinality_constraints() {
            Ok(list) => list,
            Err(e) => {
                return Err(e);
            },
        };
        let ghost passes = bound_test(role_name@, current_subject_count);
        let mut i: usize = 0;
        while i < bounds.len()
            invariant
                i <= bounds@.len(),
                passes == bound_test(role_name@, current_subject_count),
                self.source().bounds_read() == Ok::<Seq<CardinalityConstraint>, ErrorView>(bounds@),
                first_failing(bounds@.take(i as int), passes) is None,
            decreases bounds.len() - i,
        {
            proof {
                lemma_first_failing_next(bounds@, i as int, passes);
            }
            let bound = &bounds[i];
            if crate::text::same_text(bound.role_name.as_str(), role_name) && !bound.validate(current_subject_count) {
                return Err(
                    KirinoError::ConstraintViolation(
                        "Cardinality constraint: role '".to_owned().concat(role_name).concat("' already has ").concat(
                            decimal(current_subject_count as u128).as_str(),
                        ).concat(" subjects (max ").concat(decimal(bound.max_subjects as u128).as_str()).concat(")"),
                    ),
                );
            }
            i = i + 1;
        }
        assert(bounds@.take(bounds@.len() as int) =~= bounds@);
        Ok(())
    }

    /// Checks that every prerequisite of a role is held.
    pub fn validate_prerequisite(&self, role_name: &str, current_roles: &[String]) -> (r: Result<(), KirinoError>)
        requires
            self.source().valid(),
        ensures
            shown(r) == prerequisite_outcome(
                &self.source(),
                role_name@,
                crate::rbac::constraints::policies::texts(current_roles@),
            ),
    {
        let required = match self.store.list_prerequisite_constraints() {
            Ok(list) => list,
            Err(e) => {
                return Err(e);
            },
        };
        let ghost current = crate::rbac::constraints::policies::texts(current_roles@);
        let ghost passes = requirement_test(role_name@, current);
        let mut i: usize = 0;
        while i < required.len()
            invariant
                i <= required@.len(),
                current == crate::rbac::constraints::policies::texts(current_roles@),
                passes == requirement_test(role_name@, current),
                self.source().required_read() == Ok::<Seq<PrerequisiteConstraint>, ErrorView>(required@),
                first_failing(required@.take(i as int), passes) is None,
            decreases required.len() - i,
        {
            proof {
                lemma_first_failing_next(required@, i as int, passes);
            }
            let constraint = &required[i];
            if crate::text::same_text(constraint.role_name.as_str(), role_name) && !constraint.validate(current_roles) {
                return Err(
                    KirinoError::ConstraintViolation(
                        "Prerequisite constraint: role '".to_owned().concat(role_name).concat("' requires '").concat(
                            constraint.requires.as_str(),
                        ).concat("'"),
                    ),
                );
            }
            i = i + 1;
        }
        assert(required@.take(required@.len() as int) =~= required@);
        Ok(())
    }

    /// The checks before a role is assigned, at a moment.
    pub fn validate_assignment_at(
        &self,
        current_roles: &[String],
        new_role: &str,
        current_subject_count: usize,
        now: i128,
    ) -> (r: Result<(), KirinoError>)
        requires
            self.source().valid(),
        ensures
            shown(r) == assignment_outcome(
                &self.source(),
                crate::rbac::constraints::policies::texts(current_roles@),
                new_role@,
                current_subject_count,
                now,
            ),
    {
        match self.validate_ssd(current_roles, new_role) {
            Ok(_) => {},
            Err(e) => {
                return Err(e);
            },
        }
        match self.validate_cardinality(new_role, current_subject_count) {
            Ok(_) => {},
            Err(e) => {
                return Err(e);
            },
        }
        match self.validate_prerequisite(new_role, current_roles) {
            Ok(_) => {},
            Err(e) => {
                return Err(e);
            },
        }
        self.validate_temporal_at(new_role, now)
    }

    /// The checks before a role is assigned, at the present moment.
    pub fn validate_assignment(&self, current_roles: &[String], new_role: &str, current_subject_count: usize) -> (r: Result<
        (),
        KirinoError,
    >)
        requires
            self.source().valid(),
        ensures
            exists|now: i128| #[trigger]
                crate::time::is_now(now) && shown(r) == assignment_outcome(
                    &self.source(),
                    crate::rbac::constraints::policies::texts(current_roles@),
                    new_role@,
                    current_subject_count,
                    now,
                ),
    {
        let now: i128 = crate::time::utc_now();
        self.validate_assignment_at(current_roles, new_role, current_subject_count, now)
    }
}

/// An empty store restricts nothing.
pub proof fn law_empty_store_permits_everything<S: ConstraintStore>(
    store: &S,
    current: Seq<Seq<char>>,
    role: Seq<char>,
    count: usize,
    now: i128,
)
    requires
        store.ssd_read() == Ok::<Seq<SsdPolicy>, ErrorView>(Seq::empty()),
        store.dsd_read() == Ok::<Seq<DsdPolicy>, ErrorView>(Seq::empty()),
        store.bounds_read() == Ok::<Seq<CardinalityConstraint>, ErrorView>(Seq::empty()),
        store.required_read() == Ok::<Seq<PrerequisiteConstraint>, ErrorView>(Seq::empty()),
        store.windows_read() == Ok::<Seq<TemporalConstraint>, ErrorView>(Seq::empty()),
    ensures
        assignment_outcome(store, current, role, count, now) is Ok,
        dsd_outcome(store, current, role) is Ok,
{
}

/// A store that cannot be read permits nothing that it would have to be read for.
pub proof fn law_unreadable_store_denies<S: ConstraintStore>(
    store: &S,
    current: Seq<Seq<char>>,
    role: Seq<char>,
    count: usize,
    now: i128,
)
    requires
        store.ssd_read() is Err || store.bounds_read() is Err || store.required_read() is Err
            || store.windows_read() is Err,
    ensures
        assignment_outcome(store, current, role, count, now) is Err,
{
}

/// An assignment passes exactly if every stored constraint is met.
pub proof fn law_assignment_passes_iff_every_constraint_is_met<S: ConstraintStore>(
    store: &S,
    current: Seq<Seq<char>>,
    role: Seq<char>,
    count: usize,
    now: i128,
)
    requires
        store.ssd_read() is Ok,
        store.bounds_read() is Ok,
        store.required_read() is Ok,
        store.windows_read() is Ok,
    ensures
        assignment_outcome(store, current, role, count, now) is Ok <==> {
            &&& current.contains(role) || forall|i: int|
                0 <= i < store.ssd_read()->Ok_0.len() ==> (#[trigger] store.ssd_read()->Ok_0[i]).admits(
                    current.push(role),
                )
            &&& forall|i: int|
                0 <= i < store.bounds_read()->Ok_0.len() && (#[trigger] store.bounds_read()->Ok_0[i]).role_name@ == role
                    ==> count < store.bounds_read()->Ok_0[i].max_subjects
            &&& forall|i: int|
                0 <= i < store.required_read()->Ok_0.len() && (#[trigger] store.required_read()->Ok_0[i]).role_name@
                    == role ==> current.contains(store.required_read()->Ok_0[i].requires@)
            &&& forall|i: int|
                0 <= i < store.windows_read()->Ok_0.len() && (#[trigger] store.windows_read()->Ok_0[i]).role_name@ == role
                    ==> store.windows_read()->Ok_0[i].covers(now)
        },
{
    let ssd = store.ssd_read()->Ok_0;
    let bounds = store.bounds_read()->Ok_0;
    let required = store.required_read()->Ok_0;
    let windows = store.windows_read()->Ok_0;
    let p1 = ssd_test(current.push(role));
    let p2 = bound_test(role, count);
    let p3 = requirement_test(role, current);
    let p4 = window_test(role, now);
    lemma_first_failing(ssd, p1);
    lemma_first_failing(bounds, p2);
    lemma_first_failing(required, p3);
    lemma_first_failing(windows, p4);
    assert(ssd_outcome(store, current, role) is Ok <==> current.contains(role) || forall|i: int|
        0 <= i < ssd.len() ==> (#[trigger] ssd[i]).admits(current.push(role))) by {
        assert forall|i: int| 0 <= i < ssd.len() implies p1(#[trigger] ssd[i]) == ssd[i].admits(current.push(role)) by {}
    }
    assert(cardinality_outcome(store, role, count) is Ok <==> forall|i: int|
        0 <= i < bounds.len() && (#[trigger] bounds[i]).role_name@ == role ==> count < bounds[i].max_subjects) by {
        assert forall|i: int| 0 <= i < bounds.len() implies p2(#[trigger] bounds[i]) == (bounds[i].role_name@ == role
            ==> count < bounds[i].max_subjects) by {}
    }
    assert(prerequisite_outcome(store, role, current) is Ok <==> forall|i: int|
        0 <= i < required.len() && (#[trigger] required[i]).role_name@ == role ==> current.contains(
            required[i].requires@,
        )) by {
        assert forall|i: int| 0 <= i < required.len() implies p3(#[trigger] required[i]) == (required[i].role_name@
            == role ==> current.contains(required[i].requires@)) by {}
    }
    assert(temporal_outcome(store, role, now) is Ok <==> forall|i: int|
        0 <= i < windows.len() && (#[trigger] windows[i]).role_name@ == role ==> windows[i].covers(now)) by {
        assert forall|i: int| 0 <= i < windows.len() implies p4(#[trigger] windows[i]) == (windows[i].role_name@ == role
            ==> windows[i].covers(now)) by {}
    }
}

/// Whether a list of texts holds a text.
pub open spec fn is_listed(list: Seq<String>, text: Seq<char>) -> bool {
    exists|i: int| 0 <= i < list.len() && #[trigger] list[i]@ == text
}

/// How many entries of a list of texts and one more text are in a set.
pub open spec fn counted_with(list: Seq<String>, text: Seq<char>, set: Set<Seq<char>>) -> nat {
    list.map_values(|s: String| s@).push(text).filter(|role: Seq<char>| set.contains(role)).len()
}

proof fn lemma_listed(list: Seq<String>, text: Seq<char>)
    ensures
        crate::rbac::constraints::policies::texts(list).contains(text) <==> is_listed(list, text),
        crate::rbac::constraints::policies::texts(list) == list.map_values(|s: String| s@),
{
    let all = crate::rbac::constraints::policies::texts(list);
    assert(all =~= list.map_values(|s: String| s@));
    if all.contains(text) {
        let i = choose|i: int| 0 <= i < all.len() && all[i] == text;
        assert(list[i]@ == text);
    }
    if is_listed(list, text) {
        let i = choose|i: int| 0 <= i < list.len() && #[trigger] list[i]@ == text;
        assert(all[i] == text);
    }
}

/// A role may join those that are held exactly if it is among them already, or with it no policy on
/// assignment counts as many roles as it bounds. A read that fails is reported.
pub proof fn law_assignment_keeps_duties_apart<S: ConstraintStore>(
    v: &ConstraintValidator<S>,
    held: &[String],
    role: &str,
    r: Result<(), KirinoError>,
)
    requires
        call_ensures(ConstraintValidator::<S>::validate_ssd, (v, held, role), r),
    ensures
        v.source().ssd_read() matches Err(e) ==> (r matches Err(f) && f@ == e),
        v.source().ssd_read() matches Ok(policies) ==> {
            &&& r is Ok <==> is_listed(held@, role@) || forall|i: int|
                0 <= i < policies.len() ==> counted_with(held@, role@, (#[trigger] policies[i]).roles@)
                    < policies[i].cardinality
            &&& r matches Err(f) ==> f@ is ConstraintViolation
        },
{
    lemma_listed(held@, role@);
    if let Ok(policies) = v.source().ssd_read() {
        let current = crate::rbac::constraints::policies::texts(held@);
        lemma_first_failing(policies, ssd_test(current.push(role@)));
        assert forall|i: int| 0 <= i < policies.len() implies ssd_test(current.push(role@))(#[trigger] policies[i]) == (
        counted_with(held@, role@, policies[i].roles@) < policies[i].cardinality) by {}
    }
}

/// A role may join those that are active exactly if it is among them already, or with it no policy on
/// activation counts as many roles as it bounds. A read that fails is reported.
pub proof fn law_activation_keeps_duties_apart<S: ConstraintStore>(
    v: &ConstraintValidator<S>,
    active: &[String],
    role: &str,
    r: Result<(), KirinoError>,
)
    requires
        call_ensures(ConstraintValidator::<S>::validate_dsd, (v, active, role), r),
    ensures
        v.source().dsd_read() matches Err(e) ==> (r matches Err(f) && f@ == e),
        v.source().dsd_read() matches Ok(policies) ==> {
            &&& r is Ok <==> is_listed(active@, role@) || forall|i: int|
                0 <= i < policies.len() ==> counted_with(active@, role@, (#[trigger] policies[i]).roles@)
                    < policies[i].cardinality
            &&& r matches Err(f) ==> f@ is ConstraintViolation
        },
{
    lemma_listed(active@, role@);
    if let Ok(policies) = v.source().dsd_read() {
        let current = crate::rbac::constraints::policies::texts(active@);
        lemma_first_failing(policies, dsd_test(current.push(role@)));
        assert forall|i: int| 0 <= i < policies.len() implies dsd_test(current.push(role@))(#[trigger] policies[i]) == (
        counted_with(active@, role@, policies[i].roles@) < policies[i].cardinality) by {}
    }
}

/// A role is available at a moment exactly if every window that is set for it is open then.
pub proof fn law_every_window_is_open<S: ConstraintStore>(
    v: &ConstraintValidator<S>,
    role: &str,
    now: i128,
    r: Result<(), KirinoError>,
)
    requires
        call_ensures(ConstraintValidator::<S>::validate_temporal_at, (v, role, now), r),
    ensures
        v.source().windows_read() matches Err(e) ==> (r matches Err(f) && f@ == e),
        v.source().windows_read() matches Ok(windows) ==> {
            &&& r is Ok <==> forall|i: int|
                0 <= i < windows.len() && (#[trigger] windows[i]).role_name@ == role@ ==> windows[i].valid_from <= now
                    && now <= windows[i].valid_until
            &&& r matches Err(f) ==> f@ is ConstraintViolation
        },
{
    if let Ok(windows) = v.source().windows_read() {
        lemma_first_failing(windows, window_test(role@, now));
        assert forall|i: int| 0 <= i < windows.len() implies window_test(role@, now)(#[trigger] windows[i]) == (
        windows[i].role_name@ == role@ ==> windows[i].valid_from <= now && now <= windows[i].valid_until) by {}
    }
}

/// One more subject may hold a role exactly if fewer do than each bound that is set for it.
pub proof fn law_every_bound_leaves_room<S: ConstraintStore>(
    v: &ConstraintValidator<S>,
    role: &str,
    count: usize,
    r: Result<(), KirinoError>,
)
    requires
        call_ensures(ConstraintValidator::<S>::validate_cardinality, (v, role, count), r),
    ensures
        v.source().bounds_read() matches Err(e) ==> (r matches Err(f) && f@ == e),
        v.source().bounds_read() matches Ok(bounds) ==> {
            &&& r is Ok <==> forall|i: int|
                0 <= i < bounds.len() && (#[trigger] bounds[i]).role_name@ == role@ ==> count < bounds[i].max_subjects
            &&& r matches Err(f) ==> f@ is ConstraintViolation
        },
{
    if let Ok(bounds) = v.source().bounds_read() {
        lemma_first_failing(bounds, bound_test(role@, count));
        assert forall|i: int| 0 <= i < bounds.len() implies bound_test(role@, count)(#[trigger] bounds[i]) == (
        bounds[i].role_name@ == role@ ==> count < bounds[i].max_subjects) by {}
    }
}

/// A role may be granted exactly to who holds every role that is required for it.
pub proof fn law_every_prerequisite_is_held<S: ConstraintStore>(
    v: &ConstraintValidator<S>,
    role: &str,
    held: &[String],
    r: Result<(), KirinoError>,
)
    requires
        call_ensures(ConstraintValidator::<S>::validate_prerequisite, (v, role, held), r),
    ensures
        v.source().required_read() matches Err(e) ==> (r matches Err(f) && f@ == e),
        v.source().required_read() matches Ok(required) ==> {
            &&& r is Ok <==> forall|i: int|
                0 <= i < required.len() && (#[trigger] required[i]).role_name@ == role@ ==> is_listed(
                    held@,
                    required[i].requires@,
                )
            &&& r matches Err(f) ==> f@ is ConstraintViolation
        },
{
    if let Ok(required) = v.source().required_read() {
        let current = crate::rbac::constraints::policies::texts(held@);
        lemma_first_failing(required, requirement_test(role@, current));
        assert forall|i: int| 0 <= i < required.len() implies requirement_test(role@, current)(#[trigger] required[i]) == (
        required[i].role_name@ == role@ ==> is_listed(held@, required[i].requires@)) by {
            lemma_listed(held@, required[i].requires@);
        }
    }
}

/// An assignment passes exactly if it passes each of the four checks on its own, and a failure is that
/// of the first that fails: separation, bounds, prerequisites, windows.
pub proof fn law_assignment_passes_every_check<S: ConstraintStore>(
    v: &ConstraintValidator<S>,
    held: &[String],
    role: &str,
    count: usize,
    now: i128,
    r: Result<(), KirinoError>,
    separation: Result<(), KirinoError>,
    bounds: Result<(), KirinoError>,
    required: Result<(), KirinoError>,
    windows: Result<(), KirinoError>,
)
    requires
        call_ensures(ConstraintValidator::<S>::validate_assignment_at, (v, held, role, count, now), r),
        call_ensures(ConstraintValidator::<S>::validate_ssd, (v, held, role), separation),
        call_ensures(ConstraintValidator::<S>::validate_cardinality, (v, role, count), bounds),
        call_ensures(ConstraintValidator::<S>::validate_prerequisite, (v, role, held), required),
        call_ensures(ConstraintValidator::<S>::validate_temporal_at, (v, role, now), windows),
    ensures
        r is Ok <==> separation is Ok && bounds is Ok && required is Ok && windows is Ok,
        r matches Err(e) ==> {
            &&& separation matches Err(f) ==> e@ == f@
            &&& separation is Ok ==> (bounds matches Err(f) ==> e@ == f@)
            &&& separation is Ok && bounds is Ok ==> (required matches Err(f) ==> e@ == f@)
            &&& separation is Ok && bounds is Ok && required is Ok ==> (windows matches Err(f) ==> e@ == f@)
        },
{
}

/// A check of the present moment answers as the check of some moment that the clock reads.
pub proof fn law_checks_of_the_present<S: ConstraintStore>(
    v: &ConstraintValidator<S>,
    held: &[String],
    role: &str,
    count: usize,
    assigned: Result<(), KirinoError>,
    windows: Result<(), KirinoError>,
)
    requires
        call_ensures(ConstraintValidator::<S>::validate_assignment, (v, held, role, count), assigned),
        call_ensures(ConstraintValidator::<S>::validate_temporal, (v, role), windows),
    ensures
        exists|now: i128| #[trigger]
            crate::time::is_now(now) && forall|r: Result<(), KirinoError>| #[trigger]
                call_ensures(ConstraintValidator::<S>::validate_assignment_at, (v, held, role, count, now), r) ==> (r is Ok
                    <==> assigned is Ok) && (r matches Err(e) ==> assigned->Err_0@ == e@),
        exists|now: i128| #[trigger]
            crate::time::is_now(now) && forall|r: Result<(), KirinoError>| #[trigger]
                call_ensures(ConstraintValidator::<S>::validate_temporal_at, (v, role, now), r) ==> (r is Ok <==> windows
                    is Ok) && (r matches Err(e) ==> windows->Err_0@ == e@),
{
    let now = choose|now: i128| #[trigger]
        crate::time::is_now(now) && shown(assigned) == assignment_outcome(
            &v.source(),
            crate::rbac::constraints::policies::texts(held@),
            role@,
            count,
            now,
        );
    assert(crate::time::is_now(now));
    let then = choose|now: i128| #[trigger]
        crate::time::is_now(now) && shown(windows) == temporal_outcome(&v.source(), role@, now);
    assert(crate::time::is_now(then));
}

/// The entry that fails first, by its place.
proof fn lemma_first_failing_place<A>(s: Seq<A>, passes: spec_fn(A) -> bool) -> (at: int)
    requires
        first_failing(s, passes) is Some,
    ensures
        0 <= at < s.len(),
        first_failing(s, passes) == Some(s[at]),
        !passes(s[at]),
        forall|i: int| 0 <= i < at ==> passes(#[trigger] s[i]),
    decreases s.len(),
{
    let t = s.drop_last();
    if first_failing(t, passes) is Some {
        let at = lemma_first_failing_place(t, passes);
        assert forall|i: int| 0 <= i < at implies passes(#[trigger] s[i]) by {
            assert(passes(t[i]));
        }
        at
    } else {
        lemma_first_failing(t, passes);
        assert forall|i: int| 0 <= i < s.len() - 1 implies passes(#[trigger] s[i]) by {
            assert(passes(t[i]));
        }
        s.len() - 1
    }
}

/// Whether a policy on assignment is the first that one more role would break.
pub open spec fn is_first_ssd_broken(policies: Seq<SsdPolicy>, held: Seq<String>, role: Seq<char>, at: int) -> bool {
    &&& 0 <= at < policies.len()
    &&& counted_with(held, role, policies[at].roles@) >= policies[at].cardinality
    &&& forall|i: int| 0 <= i < at ==> counted_with(held, role, (#[trigger] policies[i]).roles@) < policies[i].cardinality
}

/// Whether a policy on activation is the first that one more role would break.
pub open spec fn is_first_dsd_broken(policies: Seq<DsdPolicy>, held: Seq<String>, role: Seq<char>, at: int) -> bool {
    &&& 0 <= at < policies.len()
    &&& counted_with(held, role, policies[at].roles@) >= policies[at].cardinality
    &&& forall|i: int| 0 <= i < at ==> counted_with(held, role, (#[trigger] policies[i]).roles@) < policies[i].cardinality
}

/// A refused assignment names the first policy that it would break, the role and what the policy allows.
pub proof fn law_refused_assignment_names_the_policy<S: ConstraintStore>(
    v: &ConstraintValidator<S>,
    held: &[String],
    role: &str,
    e: KirinoError,
)
    requires
        call_ensures(ConstraintValidator::<S>::validate_ssd, (v, held, role), Err(e)),
        v.source().ssd_read() is Ok,
    ensures
        exists|at: int| #[trigger]
            is_first_ssd_broken(v.source().ssd_read()->Ok_0, held@, role@, at) && e@ == ErrorView::ConstraintViolation(
                "SSD policy '"@ + v.source().ssd_read()->Ok_0[at].name@ + "' violated: adding '"@ + role@
                    + "' would exceed cardinality "@ + crate::text::decimal_text(
                    v.source().ssd_read()->Ok_0[at].cardinality as nat,
                ),
            ),
{
    let policies = v.source().ssd_read()->Ok_0;
    let current = crate::rbac::constraints::policies::texts(held@);
    let test = ssd_test(current.push(role@));
    lemma_listed(held@, role@);
    assert forall|i: int| 0 <= i < policies.len() implies test(#[trigger] policies[i]) == (counted_with(
        held@,
        role@,
        policies[i].roles@,
    ) < policies[i].cardinality) by {}
    assert(shown(Err::<(), KirinoError>(e)) is Err);
    let at = lemma_first_failing_place(policies, test);
    assert(is_first_ssd_broken(policies, held@, role@, at));
}

/// A refused activation names the first policy that it would break, the role and what the policy allows.
pub proof fn law_refused_activation_names_the_policy<S: ConstraintStore>(
    v: &ConstraintValidator<S>,
    active: &[String],
    role: &str,
    e: KirinoError,
)
    requires
        call_ensures(ConstraintValidator::<S>::validate_dsd, (v, active, role), Err(e)),
        v.source().dsd_read() is Ok,
    ensures
        exists|at: int| #[trigger]
            is_first_dsd_broken(v.source().dsd_read()->Ok_0, active@, role@, at) && e@ == ErrorView::ConstraintViolation(
                "DSD policy '"@ + v.source().dsd_read()->Ok_0[at].name@ + "' violated: activating '"@ + role@
                    + "' exceeds cardinality "@ + crate::text::decimal_text(
                    v.source().dsd_read()->Ok_0[at].cardinality as nat,
                ),
            ),
{
    let policies = v.source().dsd_read()->Ok_0;
    let current = crate::rbac::constraints::policies::texts(active@);
    let test = dsd_test(current.push(role@));
    lemma_listed(active@, role@);
    assert forall|i: int| 0 <= i < policies.len() implies test(#[trigger] policies[i]) == (counted_with(
        active@,
        role@,
        policies[i].roles@,
    ) < policies[i].cardinality) by {}
    assert(shown(Err::<(), KirinoError>(e)) is Err);
    let at = lemma_first_failing_place(policies, test);
    assert(is_first_dsd_broken(policies, active@, role@, at));
}

/// Whether a bound is the first of a role that leaves no room.
pub open spec fn is_first_bound_reached(bounds: Seq<CardinalityConstraint>, role: Seq<char>, count: usize, at: int) -> bool {
    &&& 0 <= at < bounds.len()
    &&& bounds[at].role_name@ == role && bounds[at].max_subjects <= count
    &&& forall|i: int| 0 <= i < at ==> ((#[trigger] bounds[i]).role_name@ == role ==> count < bounds[i].max_subjects)
}

/// Whether a prerequisite is the first of a role that is not held.
pub open spec fn is_first_missing(
    required: Seq<PrerequisiteConstraint>,
    role: Seq<char>,
    held: Seq<String>,
    at: int,
) -> bool {
    &&& 0 <= at < required.len()
    &&& required[at].role_name@ == role && !is_listed(held, required[at].requires@)
    &&& forall|i: int|
        0 <= i < at ==> ((#[trigger] required[i]).role_name@ == role ==> is_listed(held, required[i].requires@))
}

/// A role that is full, or whose prerequisite is not held, or whose windows are not all open, is refused by
/// name: with how many have it and the first bound that leaves no room, or with the first role that is
/// missing.
pub proof fn law_refusals_say_what_is_missing<S: ConstraintStore>(
    v: &ConstraintValidator<S>,
    role: &str,
    count: usize,
    held: &[String],
    now: i128,
    full: KirinoError,
    missing: KirinoError,
    closed_now: KirinoError,
)
    requires
        call_ensures(ConstraintValidator::<S>::validate_cardinality, (v, role, count), Err(full)),
        call_ensures(ConstraintValidator::<S>::validate_prerequisite, (v, role, held), Err(missing)),
        call_ensures(ConstraintValidator::<S>::validate_temporal_at, (v, role, now), Err(closed_now)),
        v.source().bounds_read() is Ok,
        v.source().required_read() is Ok,
        v.source().windows_read() is Ok,
    ensures
        exists|at: int| #[trigger]
            is_first_bound_reached(v.source().bounds_read()->Ok_0, role@, count, at) && full@
                == ErrorView::ConstraintViolation(
                "Cardinality constraint: role '"@ + role@ + "' already has "@ + crate::text::decimal_text(count as nat)
                    + " subjects (max "@ + crate::text::decimal_text(
                    v.source().bounds_read()->Ok_0[at].max_subjects as nat,
                ) + ")"@,
            ),
        exists|at: int| #[trigger]
            is_first_missing(v.source().required_read()->Ok_0, role@, held@, at) && missing@
                == ErrorView::ConstraintViolation(
                "Prerequisite constraint: role '"@ + role@ + "' requires '"@
                    + v.source().required_read()->Ok_0[at].requires@ + "'"@,
            ),
        closed_now@ == ErrorView::ConstraintViolation(
            "Temporal constraint: role '"@ + role@ + "' is not available at the current time"@,
        ),
{
    let bounds = v.source().bounds_read()->Ok_0;
    let required = v.source().required_read()->Ok_0;
    let current = crate::rbac::constraints::policies::texts(held@);
    assert(shown(Err::<(), KirinoError>(full)) is Err);
    assert(shown(Err::<(), KirinoError>(missing)) is Err);
    let at = lemma_first_failing_place(bounds, bound_test(role@, count));
    assert forall|i: int| 0 <= i < bounds.len() implies bound_test(role@, count)(#[trigger] bounds[i]) == (
    bounds[i].role_name@ == role@ ==> count < bounds[i].max_subjects) by {}
    assert(is_first_bound_reached(bounds, role@, count, at));
    let test = requirement_test(role@, current);
    assert forall|i: int| 0 <= i < required.len() implies test(#[trigger] required[i]) == (required[i].role_name@ == role@
        ==> is_listed(held@, required[i].requires@)) by {
        lemma_listed(held@, required[i].requires@);
    }
    let place = lemma_first_failing_place(required, test);
    assert(is_first_missing(required, role@, held@, place));
}

/// A validator goes by the store that it was made over.
pub proof fn law_validator_goes_by_its_store<S: ConstraintStore>(store: S, made: ConstraintValidator<S>)
    requires
        call_ensures(ConstraintValidator::<S>::new, (store,), made),
    ensures
        made.source() == store,
{
}

} // verus!
