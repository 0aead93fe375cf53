//! Sessions: which subject, which active roles, until when.
//!
//! A session is honoured while three things hold: it has not ended, its version is
//! not below the subject's current version, and its roles are still assigned. A read
//! that fails aborts the change that needed it.
use crate::collections::{Key, KeySet, Table};
use crate::error::{ErrorView, KirinoError};
use crate::ids::draw_id;
use crate::rbac::constraints::policies::{holds_text, DsdPolicy};
use crate::rbac::constraints::store::ConstraintStore;
use crate::rbac::traits::{AssignmentStore, Permission, Subject};
use crate::text::quoted;
use crate::time::utc_now;
use vstd::prelude::*;

verus! {

/// The longest lifetime that a session can be given, in nanoseconds either way.
pub const MAX_TTL: i128 = 9_223_372_036_854_775_807_000_000;

/// An established session.
pub struct Session<S> {
    /// Identifier that the client presents.
    pub id: u128,
    /// The authenticated subject.
    pub subject: S,
    /// Roles that are active.
    pub active_roles: KeySet<String>,
    /// Context of the caller as JSON text; never read here.
    pub context: Option<String>,
    /// The subject's version when the session was made.
    pub version: u64,
    /// When the session was made.
    pub created_at: i128,
    /// The last moment of the session.
    pub expires_at: i128,
}

/// A session with its roles as a set.
pub struct SessionView<S> {
    /// See [`Session::id`].
    pub id: u128,
    /// See [`Session::subject`].
    pub subject: S,
    /// See [`Session::active_roles`].
    pub active_roles: Set<Seq<char>>,
    /// See [`Session::context`].
    pub context: Option<Seq<char>>,
    /// See [`Session::version`].
    pub version: u64,
    /// See [`Session::created_at`].
    pub created_at: i128,
    /// See [`Session::expires_at`].
    pub expires_at: i128,
}

impl<S> SessionView<S> {
    /// Whether the end has passed at a moment; the end itself still belongs to the session.
    pub open spec fn expired_at(self, now: i128) -> bool {
        now > self.expires_at
    }
}

impl<S: Subject> Session<S> {
    /// The session with its roles as a set.
    pub open spec fn view(&self) -> SessionView<S> {
        SessionView {
            id: self.id,
            subject: self.subject,
            active_roles: self.active_roles@,
            context: match self.context {
                Some(c) => Some(c@),
                None => None,
            },
            version: self.version,
            created_at: self.created_at,
            expires_at: self.expires_at,
        }
    }

    /// Whether the value is well formed.
    pub open spec fn wf(&self) -> bool {
        self.active_roles.wf()
    }

    /// Another session with the same contents.
    pub fn duplicate(&self) -> (r: Self)
        requires
            self.wf(),
        ensures
            r.wf(),
            r@ == self@,
    {
        Session {
            id: self.id,
            subject: self.subject.duplicate(),
            active_roles: self.active_roles.duplicate(),
            context: match &self.context {
                Some(c) => Some(c.clone()),
                None => None,
            },
            version: self.version,
            created_at: self.created_at,
            expires_at: self.expires_at,
        }
    }

    /// Whether the end has passed at a moment.
    #[must_use]
    pub fn is_expired_at(&self, now: i128) -> (r: bool)
        ensures
            r == self@.expired_at(now),
    {
        now > self.expires_at
    }

    /// Whether the end has passed.
    #[must_use]
    pub fn is_expired(&self) -> (r: bool)
        ensures
            exists|now: i128| #[trigger] crate::time::is_now(now) && r == self@.expired_at(now),
    {
        let now: i128 = utc_now();
        self.is_expired_at(now)
    }
}

/// What the check of the policies on activation comes to for a list of roles.
pub open spec fn dsd_roles_outcome<C: ConstraintStore>(store: &C, roles: Seq<Seq<char>>) -> Result<(), ErrorView> {
    match store.dsd_read() {
        Err(e) => Err(e),
        Ok(policies) => match crate::rbac::constraints::validator::first_failing(
            policies,
            crate::rbac::constraints::validator::dsd_test(roles),
        ) {
            Some(p) => Err(
                ErrorView::ConstraintViolation(
                    "DSD policy '"@ + p.name@ + "' violated for roles "@ + crate::text::braced_text(roles),
                ),
            ),
            None => Ok(()),
        },
    }
}

/// Whether an outcome is that of the policies on activation for a set of roles, listed in some order.
pub open spec fn dsd_set_outcome<C: ConstraintStore>(
    store: Option<C>,
    roles: Set<Seq<char>>,
    outcome: Result<(), ErrorView>,
) -> bool {
    match store {
        None => outcome is Ok,
        Some(c) => exists|order: Seq<Seq<char>>|
            {
                &&& order.no_duplicates()
                &&& order.to_set() == roles
                &&& outcome == #[trigger] dsd_roles_outcome(&c, order)
            },
    }
}

/// The members of a set between braces.
fn show_roles(roles: &KeySet<String>) -> (r: String)
    requires
        roles.wf(),
    ensures
        r@ == crate::text::braced_text(roles.ids()),
{
    let mut list = String::new();
    let mut i: usize = 0;
    let ghost ids = roles.ids();
    while i < roles.len()
        invariant
            roles.wf(),
            ids == roles.ids(),
            i <= ids.len(),
            list@ == crate::text::listed_text(ids.take(i as int)),
        decreases ids.len() - i,
    {
        proof {
            assert(ids.take(i + 1).drop_last() =~= ids.take(i as int));
            assert(ids.take(i + 1).last() == ids[i as int]);
        }
        let item = quoted(roles.item_at(i).as_str());
        if i > 0 {
            list.append(", ");
            list.append(item.as_str());
        } else {
            list.append(item.as_str());
            assert(list@ =~= crate::text::listed_text(ids.take(1)));
        }
        i = i + 1;
    }
    assert(ids.take(ids.len() as int) =~= ids);
    "{".to_owned().concat(list.as_str()).concat("}")
}

/// Checks a set of roles against every policy on activation; the first that is broken is reported.
pub fn validate_dsd_with_store<C: ConstraintStore>(roles: &KeySet<String>, store: &C) -> (r: Result<(), KirinoError>)
    requires
        roles.wf(),
        store.valid(),
    ensures
        crate::rbac::constraints::validator::shown(r) == dsd_roles_outcome(store, roles.ids()),
{
    let policies = match store.list_dsd_policies() {
        Ok(list) => list,
        Err(e) => {
            return Err(e);
        },
    };
    let list = roles.to_items();
    assert(crate::rbac::constraints::policies::texts(list@) =~= roles.ids());
    let ghost passes = crate::rbac::constraints::validator::dsd_test(roles.ids());
    let mut i: usize = 0;
    while i < policies.len()
        invariant
            i <= policies@.len(),
            roles.wf(),
            passes == crate::rbac::constraints::validator::dsd_test(roles.ids()),
            crate::rbac::constraints::policies::texts(list@) == roles.ids(),
            store.dsd_read() == Ok::<Seq<DsdPolicy>, ErrorView>(policies@),
            forall|k: int| 0 <= k < policies@.len() ==> (#[trigger] policies@[k]).wf(),
            crate::rbac::constraints::validator::first_failing(policies@.take(i as int), passes) is None,
        decreases policies.len() - i,
    {
        proof {
            crate::rbac::constraints::validator::lemma_first_failing_next(policies@, i as int, passes);
        }
        let policy = &policies[i];
        if !policy.validate(list.as_slice()) {
            return Err(
                KirinoError::ConstraintViolation(
                    "DSD policy '".to_owned().concat(policy.name.as_str()).concat("' violated for roles ").concat(
                        show_roles(roles).as_str(),
                    ),
                ),
            );
        }
        i = i + 1;
    }
    assert(policies@.take(policies@.len() as int) =~= policies@);
    Ok(())
}

/// The requested roles that are assigned.
pub(crate) fn assigned_only(requested: &KeySet<String>, assigned: &Vec<String>) -> (r: KeySet<String>)
    requires
        requested.wf(),
    ensures
        r.wf(),
        r@ == requested@.intersect(crate::rbac::traits::texts_of(assigned@).to_set()),
{
    let mut r: KeySet<String> = KeySet::new();
    let ghost ids = requested.ids();
    let ghost held = crate::rbac::traits::texts_of(assigned@).to_set();
    let mut i: usize = 0;
    assert(ids.take(0).to_set().intersect(held) =~= Set::<Seq<char>>::empty());
    while i < requested.len()
        invariant
            requested.wf(),
            r.wf(),
            ids == requested.ids(),
            held == crate::rbac::traits::texts_of(assigned@).to_set(),
            i <= ids.len(),
            r@ == ids.take(i as int).to_set().intersect(held),
        decreases ids.len() - i,
    {
        let item = requested.item_at(i);
        proof {
            crate::collections::lemma_take_next_to_set(ids, i as int);
        }
        if holds_text(assigned.as_slice(), item.as_str()) {
            let _ = r.insert(item.clone());
        }
        assert(r@ =~= ids.take(i + 1).to_set().intersect(held));
        i = i + 1;
    }
    assert(ids.take(ids.len() as int) =~= ids);
    r
}

/// Where sessions are made and looked up. A call that fails is a failure, never a session that is
/// not there.
pub trait SessionManager<S: Subject>: Sized {
    /// Whether the value is well formed.
    open spec fn valid(&self) -> bool {
        true
    }

    /// Whether making a session can come to this.
    open spec fn begun(
        &self,
        after: &Self,
        subject: S,
        requested: Set<Seq<char>>,
        ttl: i128,
        r: Result<Session<S>, KirinoError>,
    ) -> bool {
        true
    }

    /// Whether activating a role can come to this.
    open spec fn role_added(&self, after: &Self, id: u128, role: Seq<char>, r: Result<(), KirinoError>) -> bool {
        true
    }

    /// Whether deactivating a role can come to this.
    open spec fn role_taken(&self, after: &Self, id: u128, role: Seq<char>, r: Result<(), KirinoError>) -> bool {
        true
    }

    /// Whether looking a session up can come to this.
    open spec fn looked_up(&self, id: u128, r: Result<Option<Session<S>>, KirinoError>) -> bool {
        true
    }

    /// Whether ending a session can come to this.
    open spec fn ended(&self, after: &Self, id: u128, r: Result<(), KirinoError>) -> bool {
        true
    }

    /// Whether revoking what a subject has can come to this.
    open spec fn revoked(&self, after: &Self, subject: S, r: Result<usize, KirinoError>) -> bool {
        true
    }

    /// Whether looking the version of a subject up can come to this.
    open spec fn version_read(&self, subject: S, r: Result<u64, KirinoError>) -> bool {
        true
    }

    /// Whether counting the version of a subject up can come to this.
    open spec fn version_raised(&self, after: &Self, subject: S, r: Result<u64, KirinoError>) -> bool {
        true
    }

    /// Makes a session with those of some roles that the subject has.
    fn create_session(&mut self, subject: &S, active_roles: KeySet<String>, ttl: i128) -> (r: Result<
        Session<S>,
        KirinoError,
    >)
        requires
            old(self).valid(),
            active_roles.wf(),
            -MAX_TTL <= ttl <= MAX_TTL,
        ensures
            final(self).valid(),
            r matches Ok(s) ==> s.wf(),
            old(self).begun(final(self), *subject, active_roles@, ttl, r),
    ;

    /// Activates a role of a session.
    fn activate_role(&mut self, session_id: u128, role_name: &str) -> (r: Result<(), KirinoError>)
        requires
            old(self).valid(),
        ensures
            final(self).valid(),
            old(self).role_added(final(self), session_id, role_name@, r),
    ;

    /// Deactivates a role of a session.
    fn deactivate_role(&mut self, session_id: u128, role_name: &str) -> (r: Result<(), KirinoError>)
        requires
            old(self).valid(),
        ensures
            final(self).valid(),
            old(self).role_taken(final(self), session_id, role_name@, r),
    ;

    /// The session of an identifier, whether or not it has ended.
    fn get_session(&self, session_id: u128) -> (r: Result<Option<Session<S>>, KirinoError>)
        requires
            self.valid(),
        ensures
            r matches Ok(Some(s)) ==> s.wf(),
            self.looked_up(session_id, r),
    ;

    /// Ends a session; one that does not exist stays so.
    fn destroy_session(&mut self, session_id: u128) -> (r: Result<(), KirinoError>)
        requires
            old(self).valid(),
        ensures
            final(self).valid(),
            old(self).ended(final(self), session_id, r),
    ;

    /// Revokes what a subject has, and counts it.
    fn revoke_all_for_subject(&mut self, subject: &S) -> (r: Result<usize, KirinoError>)
        requires
            old(self).valid(),
        ensures
            final(self).valid(),
            old(self).revoked(final(self), *subject, r),
    ;

    /// The version of a subject; zero before the first bump.
    fn current_version(&self, subject: &S) -> (r: Result<u64, KirinoError>)
        requires
            self.valid(),
        ensures
            self.version_read(*subject, r),
    ;

    /// Counts the version of a subject up, which makes its earlier sessions stale.
    fn bump_version_for_subject(&mut self, subject: &S) -> (r: Result<u64, KirinoError>)
        requires
            old(self).valid(),
        ensures
            final(self).valid(),
            old(self).version_raised(final(self), *subject, r),
    ;
}

/// Sessions and version counters held in memory.
pub struct InMemorySessionManager<S, P, A, C> {
    sessions: Table<u128, Session<S>>,
    subject_versions: Table<String, u64>,
    assignment_store: A,
    constraint_store: Option<C>,
    marker: std::marker::PhantomData<P>,
}

/// The version that a table of counters has for a subject id.
pub open spec fn version_of(versions: Map<Seq<char>, u64>, subject: Seq<char>) -> u64 {
    if versions.contains_key(subject) {
        versions[subject]
    } else {
        0
    }
}

/// The version after another: past the last number the count starts again at zero.
pub open spec fn next_version(v: u64) -> u64 {
    if v == u64::MAX {
        0
    } else {
        (v + 1) as u64
    }
}

impl<S: Subject, P: Permission, A: AssignmentStore<S, P>, C: ConstraintStore> InMemorySessionManager<S, P, A, C> {
    /// The sessions by identifier.
    pub closed spec fn live(&self) -> Map<u128, SessionView<S>> {
        self.sessions@.map_values(|s: Session<S>| s@)
    }

    /// The version counters by subject id.
    pub closed spec fn versions(&self) -> Map<Seq<char>, u64> {
        self.subject_versions@
    }

    /// The assignments that roles are checked against.
    pub closed spec fn store(&self) -> A {
        self.assignment_store
    }

    /// The constraints that are enforced, if any.
    pub closed spec fn constraints(&self) -> Option<C> {
        self.constraint_store
    }

    /// Whether the tables are well formed.
    pub closed spec fn tables_wf(&self) -> bool {
        &&& self.sessions.wf()
        &&& self.subject_versions.wf()
        &&& forall|id: u128| #[trigger] self.sessions@.contains_key(id) ==> self.sessions@[id].wf()
    }

    /// Whether the parts are well formed.
    pub open spec fn wf(&self) -> bool {
        &&& self.tables_wf()
        &&& self.store().wf()
        &&& self.constraints() matches Some(c) ==> c.valid()
    }

    /// Everything but the sessions is unchanged.
    pub open spec fn same_but_sessions(&self, other: &Self) -> bool {
        &&& self.versions() == other.versions()
        &&& self.store() == other.store()
        &&& self.constraints() == other.constraints()
    }

    /// A manager without sessions, which enforces no constraints.
    #[must_use]
    pub fn new(assignment_store: A) -> (r: Self)
        requires
            assignment_store.wf(),
        ensures
            r.wf(),
            r.live() == Map::<u128, SessionView<S>>::empty(),
            r.versions() == Map::<Seq<char>, u64>::empty(),
            r.store() == assignment_store,
            r.constraints() is None,
    {
        let r = InMemorySessionManager {
            sessions: Table::new(),
            subject_versions: Table::new(),
            assignment_store,
            constraint_store: None,
            marker: std::marker::PhantomData,
        };
        assert(r.live() =~= Map::<u128, SessionView<S>>::empty());
        r
    }

    /// The manager with a constraint store, whose policies are enforced from then on.
    #[must_use]
    pub fn with_constraint_store(self, store: C) -> (r: Self)
        requires
            self.wf(),
            store.valid(),
        ensures
            r.wf(),
            r.live() == self.live(),
            r.versions() == self.versions(),
            r.store() == self.store(),
            r.constraints() == Some(store),
    {
        InMemorySessionManager {
            sessions: self.sessions,
            subject_versions: self.subject_versions,
            assignment_store: self.assignment_store,
            constraint_store: Some(store),
            marker: std::marker::PhantomData,
        }
    }

    /// The assignments that roles are checked against.
    #[must_use]
    pub fn assignment_store(&self) -> (r: &A)
        ensures
            *r == self.store(),
    {
        &self.assignment_store
    }

    /// The assignments that roles are checked against, to be changed.
    pub fn assignment_store_mut(&mut self) -> (r: &mut A)
        ensures
            *r == old(self).store(),
            final(self).store() == *final(r),
            final(self).live() == old(self).live(),
            final(self).versions() == old(self).versions(),
            final(self).constraints() == old(self).constraints(),
            old(self).tables_wf() ==> final(self).tables_wf(),
    {
        &mut self.assignment_store
    }

    /// Whether a session made for a subject at a moment is what it should be, or the refusal is.
    pub open spec fn created(
        &self,
        after: &Self,
        subject: S,
        requested: Set<Seq<char>>,
        ttl: i128,
        id: u128,
        now: i128,
        r: Result<SessionView<S>, ErrorView>,
    ) -> bool {
        match self.store().roles_read(subject.id_text()) {
            Err(e) => r == Err::<SessionView<S>, ErrorView>(e) && after.live() == self.live(),
            Ok(assigned) => {
                let roles = requested.intersect(assigned);
                match r {
                    Err(e) => {
                        &&& dsd_set_outcome(self.constraints(), roles, Err(e))
                        &&& after.live() == self.live()
                    },
                    Ok(session) => {
                        &&& dsd_set_outcome(self.constraints(), roles, Ok(()))
                        &&& session == (SessionView {
                            id,
                            subject,
                            active_roles: roles,
                            context: None,
                            version: version_of(self.versions(), subject.id_text()),
                            created_at: now,
                            expires_at: (now + ttl) as i128,
                        })
                        &&& after.live() == self.live().insert(id, session)
                    },
                }
            },
        }
    }

    /// Makes a session of the given identifier at a moment; roles that the subject does not have are
    /// left out.
    pub fn create_session_at(
        &mut self,
        subject: &S,
        active_roles: KeySet<String>,
        ttl: i128,
        id: u128,
        now: i128,
    ) -> (r: Result<Session<S>, KirinoError>)
        requires
            old(self).wf(),
            active_roles.wf(),
            i128::MIN <= now + ttl <= i128::MAX,
        ensures
            final(self).wf(),
            final(self).same_but_sessions(old(self)),
            r matches Ok(s) ==> s.wf(),
            old(self).created(final(self), *subject, active_roles@, ttl, id, now, session_shown(r)),
    {
        let ghost before = *self;
        let assigned = match self.assignment_store.roles_of(subject) {
            Ok(names) => names,
            Err(e) => {
                return Err(e);
            },
        };
        let roles = assigned_only(&active_roles, &assigned);
        match &self.constraint_store {
            Some(c) => {
                proof {
                    roles.lemma_len();
                }
                match validate_dsd_with_store(&roles, c) {
                    Ok(_) => {
                        assert(dsd_set_outcome(before.constraints(), roles@, Ok(())));
                    },
                    Err(e) => {
                        assert(dsd_set_outcome(before.constraints(), roles@, Err(e@)));
                        return Err(e);
                    },
                }
            },
            None => {},
        }
        let version: u64 = match self.subject_versions.get(&subject.subject_id().to_owned()) {
            Some(v) => *v,
            None => 0,
        };
        let expires_at: i128 = now + ttl;
        let session = Session {
            id,
            subject: subject.duplicate(),
            active_roles: roles.duplicate(),
            context: None,
            version,
            created_at: now,
            expires_at,
        };
        let stored = Session {
            id,
            subject: subject.duplicate(),
            active_roles: roles,
            context: None,
            version,
            created_at: now,
            expires_at,
        };
        let _ = self.sessions.insert(id, stored);
        assert(stored@ == session@);
        assert(self.live() =~= before.live().insert(id, session@));
        Ok(session)
    }

    /// Makes a session with a new identifier at the present moment.
    pub fn create_session(&mut self, subject: &S, active_roles: KeySet<String>, ttl: i128) -> (r: Result<
        Session<S>,
        KirinoError,
    >)
        requires
            old(self).wf(),
            active_roles.wf(),
            -MAX_TTL <= ttl <= MAX_TTL,
        ensures
            final(self).wf(),
            final(self).same_but_sessions(old(self)),
            r matches Ok(s) ==> s.wf(),
            old(self).begun(final(self), *subject, active_roles@, ttl, r),
    {
        let id: u128 = draw_id();
        let now: i128 = utc_now();
        self.create_session_at(subject, active_roles, ttl, id, now)
    }

    /// Whether the answer to an activation and the sessions after it are what they should be.
    pub open spec fn activated(
        &self,
        after: &Self,
        id: u128,
        role: Seq<char>,
        now: i128,
        r: Result<(), ErrorView>,
    ) -> bool {
        if !self.live().contains_key(id) {
            r == Err::<(), ErrorView>(ErrorView::SessionNotFound) && after.live() == self.live()
        } else {
            let session = self.live()[id];
            if session.expired_at(now) {
                r == Err::<(), ErrorView>(ErrorView::SessionExpired) && after.live() == self.live()
            } else if session.active_roles.contains(role) {
                r is Ok && after.live() == self.live()
            } else {
                match self.store().roles_read(session.subject.id_text()) {
                    Err(e) => r == Err::<(), ErrorView>(e) && after.live() == self.live(),
                    Ok(assigned) => if !assigned.contains(role) {
                        &&& r == Err::<(), ErrorView>(
                            ErrorView::NotFound("role '"@ + role + "' not assigned to subject"@),
                        )
                        &&& after.live() == self.live()
                    } else {
                        let roles = session.active_roles.insert(role);
                        &&& dsd_set_outcome(self.constraints(), roles, r)
                        &&& after.live() == (if r is Ok {
                            self.live().insert(id, SessionView { active_roles: roles, ..session })
                        } else {
                            self.live()
                        })
                    },
                }
            }
        }
    }

    /// Activates a role of a session at a moment, after checking that it is assigned and that no
    /// policy on activation is broken.
    pub fn activate_role_at(&mut self, session_id: u128, role_name: &str, now: i128) -> (r: Result<(), KirinoError>)
        requires
            old(self).wf(),
        ensures
            final(self).wf(),
            final(self).same_but_sessions(old(self)),
            old(self).activated(
                final(self),
                session_id,
                role_name@,
                now,
                crate::rbac::constraints::validator::shown(r),
            ),
    {
        let ghost before = *self;
        let mut roles = match self.sessions.get(&session_id) {
            None => {
                return Err(KirinoError::SessionNotFound);
            },
            Some(session) => {
                if session.is_expired_at(now) {
                    return Err(KirinoError::SessionExpired);
                }
                if session.active_roles.contains(&role_name.to_owned()) {
                    return Ok(());
                }
                match self.assignment_store.roles_of(&session.subject) {
                    Err(e) => {
                        return Err(e);
                    },
                    Ok(assigned) => {
                        if !holds_text(assigned.as_slice(), role_name) {
                            return Err(
                                KirinoError::NotFound(
                                    "role '".to_owned().concat(role_name).concat("' not assigned to subject"),
                                ),
                            );
                        }
                    },
                }
                session.active_roles.duplicate()
            },
        };
        let _ = roles.insert(role_name.to_owned());
        match &self.constraint_store {
            Some(c) => {
                proof {
                    roles.lemma_len();
                }
                match validate_dsd_with_store(&roles, c) {
                    Ok(_) => {
                        assert(dsd_set_outcome(before.constraints(), roles@, Ok(())));
                    },
                    Err(e) => {
                        assert(dsd_set_outcome(before.constraints(), roles@, Err(e@)));
                        return Err(e);
                    },
                }
            },
            None => {},
        }
        self.replace_roles(session_id, roles);
        Ok(())
    }

    /// Activates a role of a session at the present moment.
    pub fn activate_role(&mut self, session_id: u128, role_name: &str) -> (r: Result<(), KirinoError>)
        requires
            old(self).wf(),
        ensures
            final(self).wf(),
            old(self).role_added(final(self), session_id, role_name@, r),
    {
        let now: i128 = utc_now();
        self.activate_role_at(session_id, role_name, now)
    }

    /// Gives a session another set of roles.
    fn replace_roles(&mut self, session_id: u128, roles: KeySet<String>)
        requires
            old(self).wf(),
            old(self).live().contains_key(session_id),
            roles.wf(),
        ensures
            final(self).wf(),
            final(self).same_but_sessions(old(self)),
            final(self).live() == old(self).live().insert(
                session_id,
                SessionView { active_roles: roles@, ..old(self).live()[session_id] },
            ),
    {
        let ghost before = *self;
        match self.sessions.remove(&session_id) {
            Some(session) => {
                let session = Session {
                    id: session.id,
                    subject: session.subject,
                    active_roles: roles,
                    context: session.context,
                    version: session.version,
                    created_at: session.created_at,
                    expires_at: session.expires_at,
                };
                let _ = self.sessions.insert(session_id, session);
                assert(self.live() =~= before.live().insert(
                    session_id,
                    SessionView { active_roles: roles@, ..before.live()[session_id] },
                ));
            },
            None => {},
        }
    }

    /// Whether the answer to a deactivation and the sessions after it are what they should be.
    pub open spec fn deactivated(
        &self,
        after: &Self,
        id: u128,
        role: Seq<char>,
        now: i128,
        r: Result<(), ErrorView>,
    ) -> bool {
        if !self.live().contains_key(id) {
            r == Err::<(), ErrorView>(ErrorView::SessionNotFound) && after.live() == self.live()
        } else if self.live()[id].expired_at(now) {
            r == Err::<(), ErrorView>(ErrorView::SessionExpired) && after.live() == self.live()
        } else {
            &&& r is Ok
            &&& after.live() == self.live().insert(
                id,
                SessionView { active_roles: self.live()[id].active_roles.remove(role), ..self.live()[id] },
            )
        }
    }

    /// Deactivates a role of a session at a moment; a role that is not active is left so.
    pub fn deactivate_role_at(&mut self, session_id: u128, role_name: &str, now: i128) -> (r: Result<(), KirinoError>)
        requires
            old(self).wf(),
        ensures
            final(self).wf(),
            final(self).same_but_sessions(old(self)),
            old(self).deactivated(
                final(self),
                session_id,
                role_name@,
                now,
                crate::rbac::constraints::validator::shown(r),
            ),
    {
        let mut roles = match self.sessions.get(&session_id) {
            None => {
                return Err(KirinoError::SessionNotFound);
            },
            Some(session) => {
                if session.is_expired_at(now) {
                    return Err(KirinoError::SessionExpired);
                }
                session.active_roles.duplicate()
            },
        };
        let _ = roles.remove(&role_name.to_owned());
        self.replace_roles(session_id, roles);
        Ok(())
    }

    /// Deactivates a role of a session at the present moment.
    pub fn deactivate_role(&mut self, session_id: u128, role_name: &str) -> (r: Result<(), KirinoError>)
        requires
            old(self).wf(),
        ensures
            final(self).wf(),
            old(self).role_taken(final(self), session_id, role_name@, r),
    {
        let now: i128 = utc_now();
        self.deactivate_role_at(session_id, role_name, now)
    }

    /// The session of an identifier, whether or not it has ended.
    pub fn get_session(&self, session_id: u128) -> (r: Option<&Session<S>>)
        requires
            self.wf(),
        ensures
            match r {
                Some(s) => self.live().contains_key(session_id) && s.wf() && s@ == self.live()[session_id],
                None => !self.live().contains_key(session_id),
            },
    {
        self.sessions.get(&session_id)
    }

    /// Destroys a session; one that does not exist stays so.
    pub fn destroy_session(&mut self, session_id: u128)
        requires
            old(self).wf(),
        ensures
            final(self).wf(),
            final(self).same_but_sessions(old(self)),
            final(self).live() == old(self).live().remove(session_id),
    {
        let ghost before = *self;
        let _ = self.sessions.remove(&session_id);
        assert(self.live() =~= before.live().remove(session_id));
    }

    /// The subject's version; zero before the first bump.
    pub fn current_version(&self, subject: &S) -> (r: u64)
        requires
            self.wf(),
        ensures
            r == version_of(self.versions(), subject.id_text()),
    {
        match self.subject_versions.get(&subject.subject_id().to_owned()) {
            Some(v) => *v,
            None => 0,
        }
    }

    /// Counts the subject's version up, which makes its earlier sessions stale.
    pub fn bump_version_for_subject(&mut self, subject: &S) -> (r: u64)
        requires
            old(self).wf(),
        ensures
            final(self).wf(),
            r == next_version(version_of(old(self).versions(), subject.id_text())),
            final(self).versions() == old(self).versions().insert(subject.id_text(), r),
            final(self).live() == old(self).live(),
            final(self).store() == old(self).store(),
            final(self).constraints() == old(self).constraints(),
    {
        let current: u64 = self.current_version(subject);
        let next: u64 = current.wrapping_add(1);
        let _ = self.subject_versions.insert(subject.subject_id().to_owned(), next);
        next
    }

    /// Destroys every session of a subject and counts them.
    pub fn revoke_all_for_subject(&mut self, subject: &S) -> (r: usize)
        requires
            old(self).wf(),
        ensures
            final(self).wf(),
            final(self).same_but_sessions(old(self)),
            final(self).live() == without_subject(old(self).live(), subject.id_text()),
            r == old(self).live().len() - final(self).live().len(),
    {
        let ghost before = *self;
        let ghost m = self.live();
        let n: usize = self.sessions.len();
        let mut kept: Table<u128, Session<S>> = Table::new();
        proof {
            assert(m.dom() =~= self.sessions@.dom());
        }
        loop
            invariant
                self.sessions.wf(),
                kept.wf(),
                before.wf(),
                m == before.live(),
                self.sessions@.submap_of(before.sessions@),
                self.subject_versions == before.subject_versions,
                self.assignment_store == before.assignment_store,
                self.constraint_store == before.constraint_store,
                forall|id: u128| #[trigger] kept@.contains_key(id) <==> m.contains_key(id) && !self.sessions@.contains_key(
                    id,
                ) && m[id].subject.id_text() != subject.id_text(),
                forall|id: u128| #[trigger] kept@.contains_key(id) ==> kept@[id] == before.sessions@[id],
            ensures
                self.sessions@ == Map::<u128, Session<S>>::empty(),
            decreases self.sessions.ids().len(),
        {
            let ghost rest = self.sessions@;
            match self.sessions.pop() {
                Some((id, session)) => {
                    assert(rest.contains_key(id) && before.sessions@.dom().contains(id));
                    if !crate::text::same_text(session.subject.subject_id(), subject.subject_id()) {
                        let _ = kept.insert(id, session);
                    }
                    assert(self.sessions@.submap_of(before.sessions@)) by {
                        assert forall|k: u128| #[trigger] self.sessions@.dom().contains(k) implies before.sessions@.dom().contains(
                            k,
                        ) && self.sessions@[k] == before.sessions@[k] by {
                            assert(rest.dom().contains(k));
                        }
                    }
                },
                None => {
                    break ;
                },
            }
        }
        let k: usize = kept.len();
        proof {
            before.sessions.lemma_len();
            assert(kept@.dom().subset_of(m.dom()));
            vstd::set_lib::lemma_len_subset(kept@.dom(), m.dom());
        }
        self.sessions = kept;
        proof {
            assert(self.live() =~= without_subject(m, subject.id_text()));
            assert(self.live().dom() =~= self.sessions@.dom());
        }
        n - k
    }

    /// Drops the sessions that have ended at a moment and counts them.
    pub fn cleanup_expired_at(&mut self, now: i128) -> (r: usize)
        requires
            old(self).wf(),
        ensures
            final(self).wf(),
            final(self).same_but_sessions(old(self)),
            final(self).live() == not_expired(old(self).live(), now),
            r == old(self).live().len() - final(self).live().len(),
    {
        let ghost before = *self;
        let ghost m = self.live();
        let n: usize = self.sessions.len();
        let mut kept: Table<u128, Session<S>> = Table::new();
        proof {
            assert(m.dom() =~= self.sessions@.dom());
        }
        loop
            invariant
                self.sessions.wf(),
                kept.wf(),
                before.wf(),
                m == before.live(),
                self.sessions@.submap_of(before.sessions@),
                self.subject_versions == before.subject_versions,
                self.assignment_store == before.assignment_store,
                self.constraint_store == before.constraint_store,
                forall|id: u128| #[trigger] kept@.contains_key(id) <==> m.contains_key(id) && !self.sessions@.contains_key(
                    id,
                ) && !m[id].expired_at(now),
                forall|id: u128| #[trigger] kept@.contains_key(id) ==> kept@[id] == before.sessions@[id],
            ensures
                self.sessions@ == Map::<u128, Session<S>>::empty(),
            decreases self.sessions.ids().len(),
        {
            let ghost rest = self.sessions@;
            match self.sessions.pop() {
                Some((id, session)) => {
                    assert(rest.contains_key(id) && before.sessions@.dom().contains(id));
                    if !session.is_expired_at(now) {
                        let _ = kept.insert(id, session);
                    }
                    assert(self.sessions@.submap_of(before.sessions@)) by {
                        assert forall|k: u128| #[trigger] self.sessions@.dom().contains(k) implies before.sessions@.dom().contains(
                            k,
                        ) && self.sessions@[k] == before.sessions@[k] by {
                            assert(rest.dom().contains(k));
                        }
                    }
                },
                None => {
                    break ;
                },
            }
        }
        let k: usize = kept.len();
        proof {
            before.sessions.lemma_len();
            assert(kept@.dom().subset_of(m.dom()));
            vstd::set_lib::lemma_len_subset(kept@.dom(), m.dom());
        }
        self.sessions = kept;
        proof {
            assert(self.live() =~= not_expired(m, now));
            assert(self.live().dom() =~= self.sessions@.dom());
        }
        n - k
    }

    /// Drops the sessions that have ended and counts them.
    pub fn cleanup_expired(&mut self) -> (r: usize)
        requires
            old(self).wf(),
        ensures
            final(self).wf(),
            final(self).same_but_sessions(old(self)),
            exists|now: i128| #[trigger]
                crate::time::is_now(now) && final(self).live() == not_expired(old(self).live(), now),
            r == old(self).live().len() - final(self).live().len(),
    {
        let now: i128 = utc_now();
        self.cleanup_expired_at(now)
    }
}

impl<S: Subject, P: Permission, A: AssignmentStore<S, P>, C: ConstraintStore> SessionManager<
    S,
> for InMemorySessionManager<S, P, A, C> {
    open spec fn valid(&self) -> bool {
        self.wf()
    }

    open spec fn begun(
        &self,
        after: &Self,
        subject: S,
        requested: Set<Seq<char>>,
        ttl: i128,
        r: Result<Session<S>, KirinoError>,
    ) -> bool {
        &&& after.same_but_sessions(self)
        &&& exists|id: u128, now: i128|
            {
                &&& crate::ids::is_drawn(id)
                &&& crate::time::is_now(now)
                &&& #[trigger] self.created(after, subject, requested, ttl, id, now, session_shown(r))
            }
    }

    open spec fn role_added(&self, after: &Self, id: u128, role: Seq<char>, r: Result<(), KirinoError>) -> bool {
        &&& after.same_but_sessions(self)
        &&& exists|now: i128| #[trigger]
            crate::time::is_now(now) && self.activated(after, id, role, now, crate::rbac::constraints::validator::shown(r))
    }

    open spec fn role_taken(&self, after: &Self, id: u128, role: Seq<char>, r: Result<(), KirinoError>) -> bool {
        &&& after.same_but_sessions(self)
        &&& exists|now: i128| #[trigger]
            crate::time::is_now(now) && self.deactivated(after, id, role, now, crate::rbac::constraints::validator::shown(r))
    }

    open spec fn looked_up(&self, id: u128, r: Result<Option<Session<S>>, KirinoError>) -> bool {
        match r {
            Ok(Some(s)) => self.live().contains_key(id) && s@ == self.live()[id],
            Ok(None) => !self.live().contains_key(id),
            Err(_) => false,
        }
    }

    open spec fn ended(&self, after: &Self, id: u128, r: Result<(), KirinoError>) -> bool {
        r is Ok && after.same_but_sessions(self) && after.live() == self.live().remove(id)
    }

    open spec fn revoked(&self, after: &Self, subject: S, r: Result<usize, KirinoError>) -> bool {
        &&& after.same_but_sessions(self)
        &&& after.live() == without_subject(self.live(), subject.id_text())
        &&& r matches Ok(n) && n == self.live().len() - after.live().len()
    }

    open spec fn version_read(&self, subject: S, r: Result<u64, KirinoError>) -> bool {
        r matches Ok(v) && v == version_of(self.versions(), subject.id_text())
    }

    open spec fn version_raised(&self, after: &Self, subject: S, r: Result<u64, KirinoError>) -> bool {
        &&& r matches Ok(v) && v == next_version(version_of(self.versions(), subject.id_text()))
        &&& after.versions() == self.versions().insert(subject.id_text(), r->Ok_0)
        &&& after.live() == self.live()
        &&& after.store() == self.store()
        &&& after.constraints() == self.constraints()
    }

    fn create_session(&mut self, subject: &S, active_roles: KeySet<String>, ttl: i128) -> (r: Result<
        Session<S>,
        KirinoError,
    >) {
        self.create_session(subject, active_roles, ttl)
    }

    fn activate_role(&mut self, session_id: u128, role_name: &str) -> (r: Result<(), KirinoError>) {
        self.activate_role(session_id, role_name)
    }

    fn deactivate_role(&mut self, session_id: u128, role_name: &str) -> (r: Result<(), KirinoError>) {
        self.deactivate_role(session_id, role_name)
    }

    fn get_session(&self, session_id: u128) -> (r: Result<Option<Session<S>>, KirinoError>) {
        match self.get_session(session_id) {
            Some(s) => Ok(Some(s.duplicate())),
            None => Ok(None),
        }
    }

    fn destroy_session(&mut self, session_id: u128) -> (r: Result<(), KirinoError>) {
        self.destroy_session(session_id);
        Ok(())
    }

    fn revoke_all_for_subject(&mut self, subject: &S) -> (r: Result<usize, KirinoError>) {
        Ok(self.revoke_all_for_subject(subject))
    }

    fn current_version(&self, subject: &S) -> (r: Result<u64, KirinoError>) {
        Ok(self.current_version(subject))
    }

    fn bump_version_for_subject(&mut self, subject: &S) -> (r: Result<u64, KirinoError>) {
        Ok(self.bump_version_for_subject(subject))
    }
}

/// The sessions of every other subject.
pub open spec fn without_subject<S: Subject>(m: Map<u128, SessionView<S>>, subject: Seq<char>) -> Map<u128, SessionView<S>> {
    Map::new(|id: u128| m.contains_key(id) && m[id].subject.id_text() != subject, |id: u128| m[id])
}

/// The sessions that have not ended at a moment.
pub open spec fn not_expired<S: Subject>(m: Map<u128, SessionView<S>>, now: i128) -> Map<u128, SessionView<S>> {
    Map::new(|id: u128| m.contains_key(id) && !m[id].expired_at(now), |id: u128| m[id])
}

/// The result of making a session with its parts as mathematical values.
pub open spec fn session_shown<S: Subject>(r: Result<Session<S>, KirinoError>) -> Result<SessionView<S>, ErrorView> {
    match r {
        Ok(s) => Ok(s@),
        Err(e) => Err(e@),
    }
}

impl<S: Subject, P: Permission, A: AssignmentStore<S, P>, C: ConstraintStore> InMemorySessionManager<S, P, A, C> {
    /// A session never holds a role that the subject did not have when the session was made.
    pub proof fn law_session_roles_are_assigned(
        before: &Self,
        after: &Self,
        subject: S,
        requested: Set<Seq<char>>,
        ttl: i128,
        id: u128,
        now: i128,
        session: SessionView<S>,
    )
        requires
            before.created(after, subject, requested, ttl, id, now, Ok(session)),
        ensures
            before.store().roles_read(subject.id_text()) matches Ok(assigned) && session.active_roles.subset_of(assigned),
            session.active_roles.subset_of(requested),
            after.live().contains_key(id) && after.live()[id] == session,
    {
    }

    /// A bump makes every session of the subject stale that the version before it had not outrun,
    /// unless the count starts again.
    pub proof fn law_bump_makes_sessions_stale(versions: Map<Seq<char>, u64>, session: SessionView<S>, bumped: u64)
        requires
            bumped == next_version(version_of(versions, session.subject.id_text())),
            session.version <= version_of(versions, session.subject.id_text()),
            version_of(versions, session.subject.id_text()) < u64::MAX,
        ensures
            session.version < bumped,
    {
    }

    /// A session made after a bump carries the new version: it is not stale.
    pub proof fn law_new_session_is_fresh(
        before: &Self,
        after: &Self,
        subject: S,
        requested: Set<Seq<char>>,
        ttl: i128,
        id: u128,
        now: i128,
        session: SessionView<S>,
    )
        requires
            before.created(after, subject, requested, ttl, id, now, Ok(session)),
        ensures
            session.version == version_of(before.versions(), subject.id_text()),
    {
    }

    /// A refused activation changes no session.
    pub proof fn law_refused_activation_changes_nothing(
        before: &Self,
        after: &Self,
        id: u128,
        role: Seq<char>,
        now: i128,
        r: Result<(), ErrorView>,
    )
        requires
            before.activated(after, id, role, now, r),
            r is Err,
        ensures
            after.live() == before.live(),
    {
    }

    /// Activating a role that is active, and deactivating one that is not, change no session.
    pub proof fn law_repeated_changes_are_harmless(
        before: &Self,
        activated: &Self,
        deactivated: &Self,
        id: u128,
        role: Seq<char>,
        now: i128,
        r: Result<(), ErrorView>,
        q: Result<(), ErrorView>,
    )
        requires
            before.activated(activated, id, role, now, r),
            before.deactivated(deactivated, id, role, now, q),
        ensures
            before.live().contains_key(id) && before.live()[id].active_roles.contains(role) ==> activated.live()
                == before.live(),
            before.live().contains_key(id) && !before.live()[id].active_roles.contains(role) ==> deactivated.live()
                == before.live(),
    {
        if before.live().contains_key(id) && !before.live()[id].active_roles.contains(role) {
            assert(before.live()[id].active_roles.remove(role) =~= before.live()[id].active_roles);
            assert(deactivated.live() =~= before.live());
        }
    }
}

/// Whether constraints, where there are any, admit some roles together: they can be read, and of no
/// policy on activation are as many of its roles among them as it bounds.
pub open spec fn admitted<C: ConstraintStore>(constraints: Option<C>, roles: Set<Seq<char>>) -> bool {
    constraints matches Some(c) ==> c.dsd_read() is Ok && forall|i: int|
        0 <= i < c.dsd_read()->Ok_0.len() ==> roles.intersect((#[trigger] c.dsd_read()->Ok_0[i]).roles@).len()
            < c.dsd_read()->Ok_0[i].cardinality
}

/// Whether a refusal is that of constraints: the failure to read them, or a violation.
pub open spec fn is_refusal<C: ConstraintStore>(constraints: Option<C>, e: ErrorView) -> bool {
    constraints matches Some(c) && match c.dsd_read() {
        Err(f) => e == f,
        Ok(_) => e is ConstraintViolation,
    }
}

proof fn lemma_count_in_set(order: Seq<Seq<char>>, set: Set<Seq<char>>)
    requires
        order.no_duplicates(),
    ensures
        crate::rbac::constraints::policies::count_in(set, order) == order.to_set().intersect(set).len(),
{
    let keep = |r: Seq<char>| set.contains(r);
    let kept = order.filter(keep);
    let at = crate::collections::lemma_filter_places(order, keep);
    assert forall|i: int, j: int| 0 <= i < j < kept.len() implies kept[i] != kept[j] by {
        assert(at[i] < at[j]);
        assert(kept[i] == order[at[i]] && kept[j] == order[at[j]]);
    }
    assert(kept.no_duplicates());
    kept.unique_seq_to_set();
    assert forall|x: Seq<char>| kept.to_set().contains(x) <==> order.to_set().intersect(set).contains(x) by {
        crate::collections::lemma_filter_contains(order, keep, x);
    }
    assert(kept.to_set() =~= order.to_set().intersect(set));
}

pub(crate) proof fn lemma_admitted<C: ConstraintStore>(
    constraints: Option<C>,
    roles: Set<Seq<char>>,
    outcome: Result<(), ErrorView>,
)
    requires
        dsd_set_outcome(constraints, roles, outcome),
    ensures
        outcome is Ok <==> admitted(constraints, roles),
        outcome matches Err(e) ==> is_refusal(constraints, e),
{
    if let Some(c) = constraints {
        let order = choose|order: Seq<Seq<char>>|
            {
                &&& order.no_duplicates()
                &&& order.to_set() == roles
                &&& outcome == #[trigger] dsd_roles_outcome(&c, order)
            };
        if let Ok(policies) = c.dsd_read() {
            let test = crate::rbac::constraints::validator::dsd_test(order);
            crate::rbac::constraints::validator::lemma_first_failing(policies, test);
            assert forall|i: int| 0 <= i < policies.len() implies test(#[trigger] policies[i]) == (roles.intersect(
                policies[i].roles@,
            ).len() < policies[i].cardinality) by {
                lemma_count_in_set(order, policies[i].roles@);
            }
        }
    }
}

/// Some roles may be active together exactly if constraints admit them.
pub proof fn law_roles_active_together<C: ConstraintStore>(roles: &KeySet<String>, store: &C, r: Result<(), KirinoError>)
    requires
        call_ensures(validate_dsd_with_store::<C>, (roles, store), r),
        roles.wf(),
    ensures
        r is Ok <==> admitted(Some(*store), roles@),
        r matches Err(e) ==> is_refusal(Some(*store), e@),
{
    roles.lemma_len();
    assert(dsd_set_outcome(Some(*store), roles@, crate::rbac::constraints::validator::shown(r)));
    lemma_admitted(Some(*store), roles@, crate::rbac::constraints::validator::shown(r));
}

/// A session has ended at exactly the moments after its last one.
pub proof fn law_session_ends<S: Subject>(session: &Session<S>, now: i128, r: bool)
    requires
        call_ensures(Session::<S>::is_expired_at, (session, now), r),
    ensures
        r <==> session.expires_at < now,
{
}

impl<S: Subject, P: Permission, A: AssignmentStore<S, P>, C: ConstraintStore> InMemorySessionManager<S, P, A, C> {
    /// A session is made exactly if the roles of the subject can be read, and the ones asked for that it
    /// has are admitted together. It has exactly these roles, the version that the subject has, and ends
    /// when its lifetime is over; it is kept under its identifier, and no other session changes.
    pub proof fn law_session_is_made(
        before: Self,
        after: Self,
        subject: &S,
        requested: KeySet<String>,
        ttl: i128,
        id: u128,
        now: i128,
        r: Result<Session<S>, KirinoError>,
        other: u128,
    )
        requires
            exists|manager: &mut Self|
                *manager == before && *final(manager) == after && #[trigger] call_ensures(
                    Self::create_session_at,
                    (manager, subject, requested, ttl, id, now),
                    r,
                ),
            i128::MIN <= now + ttl <= i128::MAX,
            other != id,
        ensures
            before.store().roles_read(subject.id_text()) matches Err(e) ==> (r matches Err(f) && f@ == e),
            before.store().roles_read(subject.id_text()) matches Ok(assigned) ==> {
                &&& r is Ok <==> admitted(before.constraints(), requested@.intersect(assigned))
                &&& r matches Err(f) ==> is_refusal(before.constraints(), f@)
                &&& r matches Ok(s) ==> {
                    &&& s.id == id && s.subject == *subject && s.context is None
                    &&& forall|role: Seq<char>| #[trigger]
                        s.active_roles@.contains(role) <==> requested@.contains(role) && assigned.contains(role)
                    &&& s.version == (if before.versions().contains_key(subject.id_text()) {
                        before.versions()[subject.id_text()]
                    } else {
                        0
                    })
                    &&& s.created_at == now && s.expires_at == now + ttl
                    &&& after.live().contains_key(id) && after.live()[id] == s@
                }
            },
            r is Err ==> after.live() == before.live(),
            after.live().contains_key(other) <==> before.live().contains_key(other),
            before.live().contains_key(other) ==> after.live()[other] == before.live()[other],
            after.versions() == before.versions(),
    {
        if let Ok(assigned) = before.store().roles_read(subject.id_text()) {
            let roles = requested@.intersect(assigned);
            match r {
                Ok(s) => {
                    lemma_admitted(before.constraints(), roles, Ok(()));
                },
                Err(e) => {
                    lemma_admitted(before.constraints(), roles, Err(e@));
                },
            }
        }
    }

    /// A role is activated exactly in a session that is there and has not ended, if it is active
    /// already, or if the subject has it and it is admitted with those that are active. Then it is
    /// active besides the others; otherwise nothing changes, and the refusal says why.
    pub proof fn law_role_is_activated(
        before: Self,
        after: Self,
        id: u128,
        role: &str,
        now: i128,
        r: Result<(), KirinoError>,
        other: u128,
    )
        requires
            exists|manager: &mut Self|
                *manager == before && *final(manager) == after && #[trigger] call_ensures(
                    Self::activate_role_at,
                    (manager, id, role, now),
                    r,
                ),
            other != id,
        ensures
            ({
                let there = before.live().contains_key(id);
                let session = before.live()[id];
                let over = session.expires_at < now;
                let active = session.active_roles.contains(role@);
                let held = before.store().roles_read(session.subject.id_text());
                let fits = admitted(before.constraints(), session.active_roles.insert(role@));
                &&& r is Ok <==> there && !over && (active || held is Ok && held->Ok_0.contains(role@) && fits)
                &&& !there ==> (r matches Err(e) && e@ is SessionNotFound)
                &&& there && over ==> (r matches Err(e) && e@ is SessionExpired)
                &&& there && !over && !active && held is Err ==> (r matches Err(e) && e@ == held->Err_0)
                &&& there && !over && !active && held is Ok && !held->Ok_0.contains(role@) ==> (r matches Err(e) && e@
                    is NotFound)
                &&& there && !over && !active && held is Ok && held->Ok_0.contains(role@) && !fits ==> (r matches Err(e)
                    && is_refusal(before.constraints(), e@))
                &&& r is Err ==> after.live() == before.live()
                &&& r is Ok ==> after.live().contains_key(id) && after.live()[id] == (SessionView {
                    active_roles: session.active_roles.insert(role@),
                    ..session
                })
            }),
            after.live().contains_key(other) <==> before.live().contains_key(other),
            before.live().contains_key(other) ==> after.live()[other] == before.live()[other],
            after.versions() == before.versions(),
    {
        let outcome = crate::rbac::constraints::validator::shown(r);
        if before.live().contains_key(id) {
            let session = before.live()[id];
            if let Ok(assigned) = before.store().roles_read(session.subject.id_text()) {
                if !(session.expires_at < now) && !session.active_roles.contains(role@) && assigned.contains(role@) {
                    lemma_admitted(before.constraints(), session.active_roles.insert(role@), outcome);
                }
            }
            if session.active_roles.contains(role@) {
                assert(session.active_roles.insert(role@) =~= session.active_roles);
            }
        }
    }

    /// A role is deactivated exactly in a session that is there and has not ended, and is then not
    /// active; the others are as they were.
    pub proof fn law_role_is_deactivated(
        before: Self,
        after: Self,
        id: u128,
        role: &str,
        now: i128,
        r: Result<(), KirinoError>,
        other: u128,
    )
        requires
            exists|manager: &mut Self|
                *manager == before && *final(manager) == after && #[trigger] call_ensures(
                    Self::deactivate_role_at,
                    (manager, id, role, now),
                    r,
                ),
            other != id,
        ensures
            !before.live().contains_key(id) ==> (r matches Err(e) && e@ is SessionNotFound),
            before.live().contains_key(id) && before.live()[id].expires_at < now ==> (r matches Err(e) && e@
                is SessionExpired),
            r is Ok <==> before.live().contains_key(id) && now <= before.live()[id].expires_at,
            r is Err ==> after.live() == before.live(),
            r is Ok ==> after.live().contains_key(id) && after.live()[id] == (SessionView {
                active_roles: before.live()[id].active_roles.remove(role@),
                ..before.live()[id]
            }),
            after.live().contains_key(other) <==> before.live().contains_key(other),
            before.live().contains_key(other) ==> after.live()[other] == before.live()[other],
            after.versions() == before.versions(),
    {
    }

    /// Revoking takes away exactly the sessions of a subject, and a cleanup exactly those that have
    /// ended; either counts them.
    pub proof fn law_sessions_that_are_dropped(
        before: Self,
        revoked: Self,
        cleaned: Self,
        subject: &S,
        now: i128,
        n: usize,
        m: usize,
        id: u128,
    )
        requires
            exists|manager: &mut Self|
                *manager == before && *final(manager) == revoked && #[trigger] call_ensures(
                    Self::revoke_all_for_subject,
                    (manager, subject),
                    n,
                ),
            exists|manager: &mut Self|
                *manager == before && *final(manager) == cleaned && #[trigger] call_ensures(
                    Self::cleanup_expired_at,
                    (manager, now),
                    m,
                ),
        ensures
            revoked.live().contains_key(id) <==> before.live().contains_key(id) && before.live()[id].subject.id_text()
                != subject.id_text(),
            revoked.live().contains_key(id) ==> revoked.live()[id] == before.live()[id],
            n == before.live().len() - revoked.live().len(),
            cleaned.live().contains_key(id) <==> before.live().contains_key(id) && now <= before.live()[id].expires_at,
            cleaned.live().contains_key(id) ==> cleaned.live()[id] == before.live()[id],
            m == before.live().len() - cleaned.live().len(),
            revoked.versions() == before.versions() && cleaned.versions() == before.versions(),
    {
    }

    /// The version of a subject is zero before it is first counted up, and one more each time, as long
    /// as it can be counted; nobody else's changes, and no session does.
    pub proof fn law_version_is_counted_up(
        before: Self,
        after: Self,
        subject: &S,
        bumped: u64,
        who: &S,
        was: u64,
        is: u64,
    )
        requires
            exists|manager: &mut Self|
                *manager == before && *final(manager) == after && #[trigger] call_ensures(
                    Self::bump_version_for_subject,
                    (manager, subject),
                    bumped,
                ),
            call_ensures(Self::current_version, (&before, who), was),
            call_ensures(Self::current_version, (&after, who), is),
        ensures
            !before.versions().contains_key(who.id_text()) ==> was == 0,
            who.id_text() == subject.id_text() ==> is == bumped && (was < u64::MAX ==> is == was + 1),
            who.id_text() != subject.id_text() ==> is == was,
            after.live() == before.live(),
    {
    }

    /// A session is found by its identifier exactly while it is kept, and one that is destroyed is gone
    /// alone.
    pub proof fn law_session_is_found_until_destroyed(
        before: Self,
        after: Self,
        id: u128,
        asked: u128,
        was: Option<&Session<S>>,
        is: Option<&Session<S>>,
    )
        requires
            exists|manager: &mut Self|
                *manager == before && *final(manager) == after && #[trigger] call_ensures(
                    Self::destroy_session,
                    (manager, id),
                    (),
                ),
            call_ensures(Self::get_session, (&before, asked), was),
            call_ensures(Self::get_session, (&after, asked), is),
        ensures
            was is Some <==> before.live().contains_key(asked),
            was matches Some(s) ==> s@ == before.live()[asked],
            asked == id ==> is is None,
            asked != id ==> (is is Some <==> was is Some) && (is matches Some(s) ==> s@ == was->Some_0@),
    {
    }
}

impl<S: Subject, P: Permission, A: AssignmentStore<S, P>, C: ConstraintStore> InMemorySessionManager<S, P, A, C> {
    /// A session that is made now begins at a moment that the clock reads, lasts as long as it was asked to,
    /// and holds exactly the roles asked for that the subject has; no other session changes.
    pub proof fn law_session_is_made_now(
        before: Self,
        after: Self,
        subject: &S,
        requested: KeySet<String>,
        ttl: i128,
        r: Result<Session<S>, KirinoError>,
        other: u128,
    )
        requires
            exists|manager: &mut Self|
                *manager == before && *final(manager) == after && #[trigger] call_ensures(
                    Self::create_session,
                    (manager, subject, requested, ttl),
                    r,
                ),
            -MAX_TTL <= ttl <= MAX_TTL,
        ensures
            r matches Ok(s) ==> {
                &&& crate::time::is_now(s.created_at) && s.expires_at == s.created_at + ttl
                &&& s.subject == *subject
                &&& before.store().roles_read(subject.id_text()) matches Ok(assigned) && {
                    &&& s.active_roles@ == requested@.intersect(assigned)
                    &&& admitted(before.constraints(), s.active_roles@)
                }
                &&& after.live().contains_key(s.id) && after.live()[s.id] == s@
                &&& other != s.id ==> {
                    &&& after.live().contains_key(other) <==> before.live().contains_key(other)
                    &&& before.live().contains_key(other) ==> after.live()[other] == before.live()[other]
                }
            },
            r is Err ==> after.live() == before.live(),
            before.store().roles_read(subject.id_text()) matches Ok(assigned) ==> admitted(
                before.constraints(),
                requested@.intersect(assigned),
            ) ==> r is Ok,
            after.versions() == before.versions(),
    {
        if let Ok(assigned) = before.store().roles_read(subject.id_text()) {
            let outcome: Result<(), ErrorView> = match r {
                Ok(_) => Ok(()),
                Err(e) => Err(e@),
            };
            let (id, now) = choose|id: u128, now: i128|
                {
                    &&& crate::ids::is_drawn(id)
                    &&& crate::time::is_now(now)
                    &&& #[trigger] before.created(&after, *subject, requested@, ttl, id, now, session_shown(r))
                };
            let (secs, nanos) = choose|secs: i64, nanos: u32| #[trigger]
                crate::time::clock_reads(secs, nanos) && now == crate::time::moment_at(secs, nanos);
            assert(i128::MIN <= now + ttl <= i128::MAX);
            lemma_admitted(before.constraints(), requested@.intersect(assigned), outcome);
        }
    }

    /// A role is activated or deactivated now only in a session that is there and has not ended at a moment
    /// that the clock reads; then the roles change by that one, and otherwise nothing does.
    pub proof fn law_roles_change_now(
        before: Self,
        after: Self,
        without: Self,
        id: u128,
        role: &str,
        r: Result<(), KirinoError>,
        s: Result<(), KirinoError>,
    )
        requires
            exists|manager: &mut Self|
                *manager == before && *final(manager) == after && #[trigger] call_ensures(
                    Self::activate_role,
                    (manager, id, role),
                    r,
                ),
            exists|manager: &mut Self|
                *manager == before && *final(manager) == without && #[trigger] call_ensures(
                    Self::deactivate_role,
                    (manager, id, role),
                    s,
                ),
        ensures
            r is Err ==> after.live() == before.live(),
            s is Err ==> without.live() == before.live(),
            r is Ok ==> {
                let session = before.live()[id];
                &&& before.live().contains_key(id) && exists|now: i128| #[trigger]
                    crate::time::is_now(now) && now <= session.expires_at
                &&& after.live() == before.live().insert(
                    id,
                    SessionView { active_roles: session.active_roles.insert(role@), ..session },
                )
                &&& session.active_roles.contains(role@) || {
                    &&& before.store().roles_read(session.subject.id_text()) matches Ok(held) && held.contains(role@)
                    &&& admitted(before.constraints(), session.active_roles.insert(role@))
                }
            },
            s is Ok ==> {
                let session = before.live()[id];
                &&& before.live().contains_key(id) && exists|now: i128| #[trigger]
                    crate::time::is_now(now) && now <= session.expires_at
                &&& without.live() == before.live().insert(
                    id,
                    SessionView { active_roles: session.active_roles.remove(role@), ..session },
                )
            },
    {
        if r is Ok {
            let session = before.live()[id];
            let now = choose|now: i128| #[trigger]
                crate::time::is_now(now) && before.activated(
                    &after,
                    id,
                    role@,
                    now,
                    crate::rbac::constraints::validator::shown(r),
                );
            assert(crate::time::is_now(now));
            if session.active_roles.contains(role@) {
                assert(session.active_roles.insert(role@) =~= session.active_roles);
                assert(after.live() =~= before.live().insert(
                    id,
                    SessionView { active_roles: session.active_roles.insert(role@), ..session },
                ));
            } else {
                lemma_admitted(before.constraints(), session.active_roles.insert(role@), Ok(()));
            }
        }
    }
}

/// A session has ended now exactly if the clock can read a moment after its last one, and goes on if it can
/// read another.
pub proof fn law_session_ends_now<S: Subject>(session: &Session<S>, r: bool)
    requires
        call_ensures(Session::<S>::is_expired, (session,), r),
    ensures
        exists|now: i128| #[trigger] crate::time::is_now(now) && (r <==> session.expires_at < now),
{
}

impl<S: Subject, P: Permission, A: AssignmentStore<S, P>, C: ConstraintStore> InMemorySessionManager<S, P, A, C> {
    /// A new manager has no sessions, has counted no version and enforces nothing until constraints are
    /// given; giving them changes nothing else.
    pub proof fn law_new_manager(store: A, made: Self, constraints: C, bound: Self, id: u128, who: Seq<char>, kept: &A)
        requires
            call_ensures(Self::new, (store,), made),
            call_ensures(Self::with_constraint_store, (made, constraints), bound),
            call_ensures(Self::assignment_store, (&bound,), kept),
        ensures
            made.constraints() is None && bound.constraints() == Some(constraints),
            !made.live().contains_key(id) && !bound.live().contains_key(id),
            !made.versions().contains_key(who) && !bound.versions().contains_key(who),
            made.store() == store && bound.store() == store && *kept == store,
    {
    }

    /// A cleanup of the present moment takes away the sessions that ended before some moment that the clock
    /// reads, no others, and counts them.
    pub proof fn law_cleanup_now(before: Self, after: Self, n: usize)
        requires
            exists|manager: &mut Self|
                *manager == before && *final(manager) == after && #[trigger] call_ensures(
                    Self::cleanup_expired,
                    (manager,),
                    n,
                ),
        ensures
            exists|now: i128| #[trigger]
                crate::time::is_now(now) && forall|id: u128| #[trigger]
                    after.live().contains_key(id) <==> before.live().contains_key(id) && now
                        <= before.live()[id].expires_at,
            forall|id: u128| #[trigger] after.live().contains_key(id) ==> after.live()[id] == before.live()[id],
            n == before.live().len() - after.live().len(),
            after.versions() == before.versions(),
    {
        let now = choose|now: i128| #[trigger]
            crate::time::is_now(now) && after.live() == not_expired(before.live(), now);
        assert(crate::time::is_now(now));
    }
}

/// Nothing of a session is out of sight: two that look the same have the same parts.
pub proof fn law_sessions_that_look_the_same<S: Subject>(a: Session<S>, b: Session<S>)
    requires
        a@ == b@,
    ensures
        a.id == b.id && a.subject == b.subject && a.active_roles@ == b.active_roles@,
        a.version == b.version && a.created_at == b.created_at && a.expires_at == b.expires_at,
        a.context is Some <==> b.context is Some,
        a.context is Some ==> a.context->Some_0@ == b.context->Some_0@,
        a@.id == a.id && a@.subject == a.subject && a@.active_roles == a.active_roles@ && a@.version == a.version,
        a@.created_at == a.created_at && a@.expires_at == a.expires_at,
{
}

} // verus!
