//! Constraint definitions: plain data and predicates over what the caller supplies.
use crate::collections::KeySet;
use crate::error::KirinoError;
use crate::time::{show_moment, utc_now};
use vstd::prelude::*;

verus! {

/// The characters of each text of a slice.
pub open spec fn texts(items: Seq<String>) -> Seq<Seq<char>> {
    crate::rbac::traits::texts_of(items)
}

/// How many entries of a list belong to a set.
pub open spec fn count_in(set: Set<Seq<char>>, list: Seq<Seq<char>>) -> nat {
    list.filter(|r: Seq<char>| set.contains(r)).len()
}

/// How many entries of a list belong to a set.
fn occurrences(set: &KeySet<String>, list: &[String]) -> (n: usize)
    requires
        set.wf(),
    ensures
        n == count_in(set@, texts(list@)),
{
    let ghost all = texts(list@);
    let ghost keep = |r: Seq<char>| set@.contains(r);
    let mut n: usize = 0;
    let mut i: usize = 0;
    assert(all.take(0).filter(keep).len() == 0) by {
        reveal(Seq::filter);
    }
    while i < list.len()
        invariant
            set.wf(),
            i <= list@.len(),
            n <= i,
            all == texts(list@),
            keep == (|r: Seq<char>| set@.contains(r)),
            n == all.take(i as int).filter(keep).len(),
        decreases list.len() - i,
    {
        proof {
            crate::collections::lemma_filter_next(all, i as int, keep);
        }
        if set.contains(&list[i]) {
            n = n + 1;
        }
        i = i + 1;
    }
    assert(all.take(all.len() as int) =~= all);
    n
}

/// Separation-of-duty policy that is checked when a role is assigned.
pub struct SsdPolicy {
    /// Identifier; unique among the stored policies.
    pub name: String,
    /// The roles that the policy counts.
    pub roles: KeySet<String>,
    /// The number of counted roles that is already too many.
    pub cardinality: usize,
}

impl SsdPolicy {
    /// Whether the value is well formed.
    pub open spec fn wf(&self) -> bool {
        self.roles.wf()
    }

    /// Whether a list of roles is admissible.
    pub open spec fn admits(&self, roles: Seq<Seq<char>>) -> bool {
        count_in(self.roles@, roles) < self.cardinality
    }

    /// A policy; a cardinality of zero becomes one.
    #[must_use]
    pub fn new(name: &str, roles: KeySet<String>, cardinality: usize) -> (r: Self)
        requires
            roles.wf(),
        ensures
            r.wf(),
            r.name@ == name@,
            r.roles == roles,
            r.cardinality == (if cardinality == 0 { 1 } else { cardinality }),
    {
        SsdPolicy {
            name: name.to_owned(),
            roles,
            cardinality: if cardinality == 0 {
                1
            } else {
                cardinality
            },
        }
    }

    /// Whether fewer than `cardinality` entries of a list are counted roles; each occurrence counts.
    #[must_use]
    pub fn validate(&self, roles: &[String]) -> (r: bool)
        requires
            self.wf(),
        ensures
            r == self.admits(texts(roles@)),
    {
        occurrences(&self.roles, roles) < self.cardinality
    }
}

/// Separation-of-duty policy that is checked when a role is activated in a session.
pub struct DsdPolicy {
    /// Identifier; unique among the stored policies.
    pub name: String,
    /// The roles that the policy counts.
    pub roles: KeySet<String>,
    /// The number of counted roles that is already too many.
    pub cardinality: usize,
}

impl DsdPolicy {
    /// Whether the value is well formed.
    pub open spec fn wf(&self) -> bool {
        self.roles.wf()
    }

    /// Whether a list of roles is admissible.
    pub open spec fn admits(&self, roles: Seq<Seq<char>>) -> bool {
        count_in(self.roles@, roles) < self.cardinality
    }

    /// A policy; a cardinality of zero becomes one.
    #[must_use]
    pub fn new(name: &str, roles: KeySet<String>, cardinality: usize) -> (r: Self)
        requires
            roles.wf(),
        ensures
            r.wf(),
            r.name@ == name@,
            r.roles == roles,
            r.cardinality == (if cardinality == 0 { 1 } else { cardinality }),
    {
        DsdPolicy {
            name: name.to_owned(),
            roles,
            cardinality: if cardinality == 0 {
                1
            } else {
                cardinality
            },
        }
    }

    /// Whether fewer than `cardinality` entries of a list are counted roles; each occurrence counts.
    #[must_use]
    pub fn validate(&self, roles: &[String]) -> (r: bool)
        requires
            self.wf(),
        ensures
            r == self.admits(texts(roles@)),
    {
        occurrences(&self.roles, roles) < self.cardinality
    }
}

/// Upper bound on how many subjects may hold one role at the same time.
pub struct CardinalityConstraint {
    /// The role.
    pub role_name: String,
    /// The largest permitted number of subjects.
    pub max_subjects: usize,
}

impl CardinalityConstraint {
    /// A bound; zero becomes one.
    #[must_use]
    pub fn new(role_name: &str, max_subjects: usize) -> (r: Self)
        ensures
            r.role_name@ == role_name@,
            r.max_subjects == (if max_subjects == 0 { 1 } else { max_subjects }),
    {
        CardinalityConstraint {
            role_name: role_name.to_owned(),
            max_subjects: if max_subjects == 0 {
                1
            } else {
                max_subjects
            },
        }
    }

    /// Whether one more subject may hold the role when `current_count` do.
    #[must_use]
    pub fn validate(&self, current_count: usize) -> (r: bool)
        ensures
            r == (current_count < self.max_subjects),
    {
        current_count < self.max_subjects
    }
}

/// Requires another role to be held before a role may be granted.
pub struct PrerequisiteConstraint {
    /// The role that carries the requirement.
    pub role_name: String,
    /// The role that must be held.
    pub requires: String,
}

impl PrerequisiteConstraint {
    /// A requirement; the names are not checked.
    #[must_use]
    pub fn new(role_name: &str, required: &str) -> (r: Self)
        ensures
            r.role_name@ == role_name@,
            r.requires@ == required@,
    {
        PrerequisiteConstraint { role_name: role_name.to_owned(), requires: required.to_owned() }
    }

    /// Whether the required role is in a list.
    #[must_use]
    pub fn validate(&self, assigned_roles: &[String]) -> (r: bool)
        ensures
            r == texts(assigned_roles@).contains(self.requires@),
    {
        holds_text(assigned_roles, self.requires.as_str())
    }
}

/// Whether a text is in a list.
pub(crate) fn holds_text(list: &[String], text: &str) -> (r: bool)
    ensures
        r == texts(list@).contains(text@),
{
    let mut i: usize = 0;
    while i < list.len()
        invariant
            i <= list@.len(),
            forall|k: int| 0 <= k < i ==> #[trigger] texts(list@)[k] != text@,
        decreases list.len() - i,
    {
        if crate::text::same_text(list[i].as_str(), text) {
            assert(texts(list@)[i as int] == text@);
            return true;
        }
        i = i + 1;
    }
    false
}

/// Time window during which a role may be held or activated.
pub struct TemporalConstraint {
    /// The role.
    pub role_name: String,
    /// The first moment of the window.
    pub valid_from: i128,
    /// The last moment of the window.
    pub valid_until: i128,
}

impl TemporalConstraint {
    /// Whether a moment lies inside the window, both ends of which belong to it.
    pub open spec fn covers(&self, now: i128) -> bool {
        self.valid_from <= now <= self.valid_until
    }

    /// A window; one that does not begin before it ends is refused.
    pub fn new(role_name: &str, valid_from: i128, valid_until: i128) -> (r: Result<Self, KirinoError>)
        requires
            valid_from > i128::MIN,
            valid_until > i128::MIN,
        ensures
            valid_from < valid_until ==> (r matches Ok(c) && c.role_name@ == role_name@ && c.valid_from == valid_from
                && c.valid_until == valid_until),
            valid_from >= valid_until ==> (r matches Err(e) && e@ == crate::error::ErrorView::Validation(
                "TemporalConstraint: valid_from ("@ + crate::time::moment_text(valid_from)
                    + ") must be before valid_until ("@ + crate::time::moment_text(valid_until) + ")"@,
            )),
    {
        if valid_from >= valid_until {
            return Err(
                KirinoError::Validation(
                    "TemporalConstraint: valid_from (".to_owned().concat(show_moment(valid_from).as_str()).concat(
                        ") must be before valid_until (",
                    ).concat(show_moment(valid_until).as_str()).concat(")"),
                ),
            );
        }
        Ok(TemporalConstraint { role_name: role_name.to_owned(), valid_from, valid_until })
    }

    /// Whether a moment lies inside the window.
    #[must_use]
    pub fn is_valid_at(&self, now: i128) -> (r: bool)
        ensures
            r == self.covers(now),
    {
        now >= self.valid_from && now <= self.valid_until
    }

    /// Whether the present moment lies inside the window.
    #[must_use]
    pub fn is_valid(&self) -> (r: bool)
        ensures
            exists|now: i128| #[trigger] crate::time::is_now(now) && r == self.covers(now),
    {
        let now: i128 = utc_now();
        self.is_valid_at(now)
    }
}

/// A policy admits a list of roles exactly if fewer of its entries than the cardinality are roles that
/// the policy counts, each occurrence counting. A cardinality of zero is taken as one.
pub proof fn law_assignment_policy_counts_occurrences(
    name: &str,
    counted: KeySet<String>,
    cardinality: usize,
    policy: SsdPolicy,
    p: &SsdPolicy,
    roles: &[String],
    r: bool,
)
    requires
        call_ensures(SsdPolicy::new, (name, counted, cardinality), policy),
        call_ensures(SsdPolicy::validate, (p, roles), r),
    ensures
        policy.name@ == name@ && policy.roles@ == counted@,
        policy.cardinality == (if cardinality == 0 { 1 } else { cardinality }),
        r <==> roles@.map_values(|s: String| s@).filter(|role: Seq<char>| p.roles@.contains(role)).len() < p.cardinality,
{
    assert(texts(roles@) =~= roles@.map_values(|s: String| s@));
}

/// A policy admits a list of roles exactly if fewer of its entries than the cardinality are roles that
/// the policy counts, each occurrence counting. A cardinality of zero is taken as one.
pub proof fn law_activation_policy_counts_occurrences(
    name: &str,
    counted: KeySet<String>,
    cardinality: usize,
    policy: DsdPolicy,
    p: &DsdPolicy,
    roles: &[String],
    r: bool,
)
    requires
        call_ensures(DsdPolicy::new, (name, counted, cardinality), policy),
        call_ensures(DsdPolicy::validate, (p, roles), r),
    ensures
        policy.name@ == name@ && policy.roles@ == counted@,
        policy.cardinality == (if cardinality == 0 { 1 } else { cardinality }),
        r <==> roles@.map_values(|s: String| s@).filter(|role: Seq<char>| p.roles@.contains(role)).len() < p.cardinality,
{
    assert(texts(roles@) =~= roles@.map_values(|s: String| s@));
}

/// One more subject may hold a role exactly while fewer than the bound do. A bound of zero is taken as
/// one.
pub proof fn law_bound_leaves_room(
    role: &str,
    max: usize,
    made: CardinalityConstraint,
    c: &CardinalityConstraint,
    count: usize,
    r: bool,
)
    requires
        call_ensures(CardinalityConstraint::new, (role, max), made),
        call_ensures(CardinalityConstraint::validate, (c, count), r),
    ensures
        made.role_name@ == role@,
        made.max_subjects == (if max == 0 { 1 } else { max }),
        r <==> count < c.max_subjects,
{
}

/// A prerequisite is met exactly by a list that holds the role that it asks for.
pub proof fn law_prerequisite_is_held(
    role: &str,
    required: &str,
    made: PrerequisiteConstraint,
    c: &PrerequisiteConstraint,
    roles: &[String],
    r: bool,
)
    requires
        call_ensures(PrerequisiteConstraint::new, (role, required), made),
        call_ensures(PrerequisiteConstraint::validate, (c, roles), r),
    ensures
        made.role_name@ == role@ && made.requires@ == required@,
        r <==> exists|i: int| 0 <= i < roles@.len() && #[trigger] roles@[i]@ == c.requires@,
{
    let all = texts(roles@);
    if all.contains(c.requires@) {
        let i = choose|i: int| 0 <= i < all.len() && all[i] == c.requires@;
        assert(roles@[i]@ == c.requires@);
    }
    if exists|i: int| 0 <= i < roles@.len() && #[trigger] roles@[i]@ == c.requires@ {
        let i = choose|i: int| 0 <= i < roles@.len() && #[trigger] roles@[i]@ == c.requires@;
        assert(all[i] == c.requires@);
    }
}

/// A window begins before it ends, or is refused, and is open at exactly the moments from its beginning
/// to its end, both among them.
pub proof fn law_window_is_open_between_its_ends(
    role: &str,
    from: i128,
    until: i128,
    made: Result<TemporalConstraint, KirinoError>,
    w: &TemporalConstraint,
    now: i128,
    r: bool,
)
    requires
        call_ensures(TemporalConstraint::new, (role, from, until), made),
        call_ensures(TemporalConstraint::is_valid_at, (w, now), r),
    ensures
        made is Ok <==> from < until,
        made matches Ok(c) ==> c.role_name@ == role@ && c.valid_from == from && c.valid_until == until,
        r <==> w.valid_from <= now && now <= w.valid_until,
{
}

/// A window is open now exactly if a moment that the clock reads lies between its ends.
pub proof fn law_window_is_open_now(window: &TemporalConstraint, r: bool)
    requires
        call_ensures(TemporalConstraint::is_valid, (window,), r),
    ensures
        exists|now: i128| #[trigger]
            crate::time::is_now(now) && (r <==> window.valid_from <= now && now <= window.valid_until),
{
}

} // verus!
