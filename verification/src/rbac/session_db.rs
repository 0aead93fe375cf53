//! Sessions that are rows of a database.
//!
//! The functions take what was read of the database, and say what is written or answered. The
//! manager reads and writes with them.
use crate::collections::{Key, KeySet};
use crate::error::{ErrorView, KirinoError};
use crate::ids::{draw_id, show_uuid};
use crate::rbac::constraints::policies::holds_text;
use crate::rbac::constraints::store::ConstraintStore;
use crate::rbac::session::{validate_dsd_with_store, Session, SessionManager};
use crate::rbac::traits::{AssignmentStore, Permission, Subject};
use crate::time::utc_now;
use vstd::prelude::*;

verus! {

/// A session as it is stored.
pub struct SessionRow {
    /// Identifier that the client presents.
    pub id: u128,
    /// The subject, as a stored id.
    pub subject_id: String,
    /// Roles that are active.
    pub active_roles: Vec<String>,
    /// Context of the caller as JSON text; never read here.
    pub context: Option<String>,
    /// The version when the session was made.
    pub version: u64,
    /// The last moment of the session.
    pub expires_at: i128,
    /// When the session was made.
    pub created_at: i128,
}

impl SessionRow {
    /// The active roles.
    pub open spec fn roles(&self) -> Set<Seq<char>> {
        crate::rbac::traits::texts_of(self.active_roles@).to_set()
    }
}

/// A row with its parts as mathematical values.
pub struct RowView {
    /// See [`SessionRow::id`].
    pub id: u128,
    /// See [`SessionRow::subject_id`].
    pub subject_id: Seq<char>,
    /// See [`SessionRow::active_roles`].
    pub active_roles: Set<Seq<char>>,
    /// See [`SessionRow::context`].
    pub context: Option<Seq<char>>,
    /// See [`SessionRow::version`].
    pub version: u64,
    /// See [`SessionRow::expires_at`].
    pub expires_at: i128,
    /// See [`SessionRow::created_at`].
    pub created_at: i128,
}

impl View for SessionRow {
    type V = RowView;

    open spec fn view(&self) -> RowView {
        RowView {
            id: self.id,
            subject_id: self.subject_id@,
            active_roles: self.roles(),
            context: crate::text::optional_text(self.context),
            version: self.version,
            expires_at: self.expires_at,
            created_at: self.created_at,
        }
    }
}

/// The result of planning a session with its parts as mathematical values.
pub open spec fn planned_shown<S: Subject>(r: Result<(Session<S>, SessionRow), KirinoError>) -> Result<
    crate::rbac::session::SessionView<S>,
    ErrorView,
> {
    match r {
        Ok((s, _)) => Ok(s@),
        Err(e) => Err(e@),
    }
}

/// The names of a set as a list.
fn names_list(roles: &KeySet<String>) -> (r: Vec<String>)
    requires
        roles.wf(),
    ensures
        crate::rbac::traits::texts_of(r@).no_duplicates(),
        crate::rbac::traits::texts_of(r@).to_set() == roles@,
{
    let r = roles.to_items();
    assert(crate::rbac::traits::texts_of(r@) =~= crate::collections::ids_of(r@));
    r
}

/// The set of the names of a list.
fn names_set(list: &Vec<String>) -> (r: KeySet<String>)
    ensures
        r.wf(),
        r@ == crate::rbac::traits::texts_of(list@).to_set(),
{
    let r = KeySet::from_items(list);
    assert(crate::rbac::traits::texts_of(list@) =~= crate::collections::ids_of(list@));
    r
}

/// A new session and the row to be saved for it, from the roles that were read as assigned.
///
/// Roles that the subject does not have are left out; the version starts at zero.
pub fn plan_session<S: Subject, C: ConstraintStore>(
    subject: &S,
    active_roles: &KeySet<String>,
    assigned: Result<Vec<String>, KirinoError>,
    constraints: &Option<C>,
    ttl: i128,
    id: u128,
    now: i128,
) -> (r: Result<(Session<S>, SessionRow), KirinoError>)
    requires
        active_roles.wf(),
        constraints matches Some(c) ==> c.valid(),
        i128::MIN <= now + ttl <= i128::MAX,
    ensures
        match assigned {
            Err(e) => planned_shown(r) == Err::<crate::rbac::session::SessionView<S>, ErrorView>(e@),
            Ok(names) => {
                let roles = active_roles@.intersect(crate::rbac::traits::texts_of(names@).to_set());
                match r {
                    Err(e) => crate::rbac::session::dsd_set_outcome(*constraints, roles, Err(e@)),
                    Ok((session, row)) => {
                        &&& crate::rbac::session::dsd_set_outcome(*constraints, roles, Ok(()))
                        &&& session.wf()
                        &&& session@ == (crate::rbac::session::SessionView {
                            id,
                            subject: *subject,
                            active_roles: roles,
                            context: None,
                            version: 0,
                            created_at: now,
                            expires_at: (now + ttl) as i128,
                        })
                        &&& row.id == id
                        &&& row.subject_id@ == subject.id_text()
                        &&& row.roles() == roles
                        &&& crate::rbac::traits::texts_of(row.active_roles@).no_duplicates()
                        &&& row.context is None
                        &&& row.version == 0
                        &&& row.created_at == now
                        &&& row.expires_at == now + ttl
                    },
                }
            },
        },
{
    let names = match assigned {
        Ok(names) => names,
        Err(e) => {
            return Err(e);
        },
    };
    let roles = crate::rbac::session::assigned_only(active_roles, &names);
    match constraints {
        Some(c) => {
            proof {
                roles.lemma_len();
            }
            match validate_dsd_with_store(&roles, c) {
                Ok(_) => {
                    assert(crate::rbac::session::dsd_set_outcome(*constraints, roles@, Ok(())));
                },
                Err(e) => {
                    assert(crate::rbac::session::dsd_set_outcome(*constraints, roles@, Err(e@)));
                    return Err(e);
                },
            }
        },
        None => {},
    }
    let expires_at: i128 = now + ttl;
    let row = SessionRow {
        id,
        subject_id: subject.subject_id().to_owned(),
        active_roles: names_list(&roles),
        context: None,
        version: 0,
        expires_at,
        created_at: now,
    };
    let session = Session {
        id,
        subject: subject.duplicate(),
        active_roles: roles,
        context: None,
        version: 0,
        created_at: now,
        expires_at,
    };
    Ok((session, row))
}

/// Whether the activation of a role goes on to the subject's assignments: not when the role is
/// active already. A session that is missing or has ended is refused.
pub fn begin_activation(row: Option<&SessionRow>, role_name: &str, now: i128) -> (r: Result<bool, KirinoError>)
    ensures
        match row {
            None => r matches Err(e) && e@ == ErrorView::SessionNotFound,
            Some(s) => if now > s.expires_at {
                r matches Err(e) && e@ == ErrorView::SessionExpired
            } else {
                r matches Ok(more) && more == !s.roles().contains(role_name@)
            },
        },
{
    match row {
        None => Err(KirinoError::SessionNotFound),
        Some(s) => if now > s.expires_at {
            Err(KirinoError::SessionExpired)
        } else {
            Ok(!holds_text(s.active_roles.as_slice(), role_name))
        },
    }
}

/// The subject of a row, from what its stored id reads as; an id that reads as none is refused,
/// and the refusal names a session.
pub fn row_subject<S: Subject>(row: &SessionRow, session_id: u128, read: Result<S, KirinoError>) -> (r: Result<
    S,
    KirinoError,
>)
    ensures
        match read {
            Ok(s) => r matches Ok(t) && t == s,
            Err(e) => r matches Err(f) && f@ == ErrorView::Store(
                "invalid subject_id '"@ + row.subject_id@ + "' in session "@ + crate::ids::uuid_text(session_id) + ": "@
                    + e@.message(),
            ),
        },
{
    match read {
        Ok(s) => Ok(s),
        Err(e) => Err(
            KirinoError::Store(
                "invalid subject_id '".to_owned().concat(row.subject_id.as_str()).concat("' in session ").concat(
                    show_uuid(session_id).as_str(),
                ).concat(": ").concat(e.message().as_str()),
            ),
        ),
    }
}

/// The role list to be written when a role is activated, from the roles that were read as assigned.
pub fn finish_activation<C: ConstraintStore>(
    row: &SessionRow,
    role_name: &str,
    assigned: Result<Vec<String>, KirinoError>,
    constraints: &Option<C>,
) -> (r: Result<Vec<String>, KirinoError>)
    requires
        constraints matches Some(c) ==> c.valid(),
    ensures
        match assigned {
            Err(e) => r matches Err(f) && f@ == e@,
            Ok(names) => if !crate::rbac::traits::texts_of(names@).contains(role_name@) {
                r matches Err(f) && f@ == ErrorView::NotFound("role '"@ + role_name@ + "' not assigned to subject"@)
            } else {
                match r {
                    Err(f) => crate::rbac::session::dsd_set_outcome(
                        *constraints,
                        row.roles().insert(role_name@),
                        Err(f@),
                    ),
                    Ok(list) => {
                        &&& crate::rbac::session::dsd_set_outcome(*constraints, row.roles().insert(role_name@), Ok(()))
                        &&& crate::rbac::traits::texts_of(list@).no_duplicates()
                        &&& crate::rbac::traits::texts_of(list@).to_set() == row.roles().insert(role_name@)
                    },
                }
            },
        },
{
    let names = match assigned {
        Ok(names) => names,
        Err(e) => {
            return Err(e);
        },
    };
    if !holds_text(names.as_slice(), role_name) {
        return Err(
            KirinoError::NotFound("role '".to_owned().concat(role_name).concat("' not assigned to subject")),
        );
    }
    let mut roles = names_set(&row.active_roles);
    let _ = roles.insert(role_name.to_owned());
    match constraints {
        Some(c) => {
            proof {
                roles.lemma_len();
            }
            match validate_dsd_with_store(&roles, c) {
                Ok(_) => {
                    assert(crate::rbac::session::dsd_set_outcome(*constraints, roles@, Ok(())));
                },
                Err(e) => {
                    assert(crate::rbac::session::dsd_set_outcome(*constraints, roles@, Err(e@)));
                    return Err(e);
                },
            }
        },
        None => {},
    }
    Ok(names_list(&roles))
}

/// The role list to be written when a role is deactivated.
pub fn plan_deactivation(row: Option<&SessionRow>, role_name: &str, now: i128) -> (r: Result<Vec<String>, KirinoError>)
    ensures
        match row {
            None => r matches Err(e) && e@ == ErrorView::SessionNotFound,
            Some(s) => if now > s.expires_at {
                r matches Err(e) && e@ == ErrorView::SessionExpired
            } else {
                &&& r matches Ok(list)
                &&& crate::rbac::traits::texts_of(list@).no_duplicates()
                &&& crate::rbac::traits::texts_of(list@).to_set() == s.roles().remove(role_name@)
            },
        },
{
    match row {
        None => Err(KirinoError::SessionNotFound),
        Some(s) => if now > s.expires_at {
            Err(KirinoError::SessionExpired)
        } else {
            let mut roles = names_set(&s.active_roles);
            let _ = roles.remove(&role_name.to_owned());
            Ok(names_list(&roles))
        },
    }
}

/// The session of a row and its subject.
pub fn session_of_row<S: Subject>(row: SessionRow, subject: S) -> (r: Session<S>)
    ensures
        r.wf(),
        r@ == (crate::rbac::session::SessionView {
            id: row.id,
            subject,
            active_roles: row.roles(),
            context: match row.context {
                Some(c) => Some(c@),
                None => None,
            },
            version: row.version,
            created_at: row.created_at,
            expires_at: row.expires_at,
        }),
{
    let active_roles = names_set(&row.active_roles);
    Session {
        id: row.id,
        subject,
        active_roles,
        context: row.context,
        version: row.version,
        created_at: row.created_at,
        expires_at: row.expires_at,
    }
}

/// The subject's version, from the row that records it if there is one.
pub fn recorded_version(row: Option<&SessionRow>) -> (r: u64)
    ensures
        r == (match row {
            Some(s) => s.version,
            None => 0,
        }),
{
    match row {
        Some(s) => s.version,
        None => 0,
    }
}

/// The version to be recorded after another.
pub fn bumped_version(current: u64) -> (r: u64)
    ensures
        r == crate::rbac::session::next_version(current),
{
    current.wrapping_add(1)
}

/// A row that was read, with its parts as mathematical values.
pub open spec fn row_shown(row: Option<SessionRow>) -> Option<RowView> {
    match row {
        Some(r) => Some(r@),
        None => None,
    }
}

/// The row of an identifier; none where there is none.
pub open spec fn row_at(rows: Map<u128, RowView>, id: u128) -> Option<RowView> {
    if rows.contains_key(id) {
        Some(rows[id])
    } else {
        None
    }
}

/// The rows with other roles in one of them, if it is there.
pub open spec fn with_roles(rows: Map<u128, RowView>, id: u128, roles: Set<Seq<char>>) -> Map<u128, RowView> {
    if rows.contains_key(id) {
        rows.insert(id, RowView { active_roles: roles, ..rows[id] })
    } else {
        rows
    }
}

/// The rows that have not ended at a moment.
pub open spec fn rows_left(rows: Map<u128, RowView>, now: i128) -> Map<u128, RowView> {
    Map::new(|id: u128| rows.contains_key(id) && now <= rows[id].expires_at, |id: u128| rows[id])
}

/// Where sessions are kept as rows. A call that fails is a failure, never an absence, and a write
/// that fails may have been done.
pub trait PersistentSessionStore: Sized {
    /// Whether the value is well formed.
    open spec fn wf(&self) -> bool {
        true
    }

    /// The rows by identifier.
    open spec fn rows(&self) -> Map<u128, RowView> {
        arbitrary()
    }

    /// The versions that are recorded, by subject id.
    open spec fn versions(&self) -> Map<Seq<char>, u64> {
        arbitrary()
    }

    /// Puts a row in place of the one that was there.
    fn save_session(&mut self, row: &SessionRow) -> (r: Result<(), KirinoError>)
        requires
            old(self).wf(),
        ensures
            final(self).wf(),
            final(self).rows() == old(self).rows().insert(row.id, row@) || r is Err && final(self).rows()
                == old(self).rows(),
    ;

    /// The row of an identifier.
    fn load_session(&self, id: u128) -> (r: Result<Option<SessionRow>, KirinoError>)
        requires
            self.wf(),
        ensures
            r matches Ok(row) ==> row_shown(row) == row_at(self.rows(), id),
    ;

    /// Removes a row; one that is not there stays so.
    fn delete_session(&mut self, id: u128) -> (r: Result<(), KirinoError>)
        requires
            old(self).wf(),
        ensures
            final(self).wf(),
            final(self).rows() == old(self).rows().remove(id) || r is Err && final(self).rows() == old(self).rows(),
    ;

    /// Puts other roles in a row.
    fn update_roles(&mut self, id: u128, active_roles: &Vec<String>) -> (r: Result<(), KirinoError>)
        requires
            old(self).wf(),
        ensures
            final(self).wf(),
            final(self).rows() == with_roles(
                old(self).rows(),
                id,
                crate::rbac::traits::texts_of(active_roles@).to_set(),
            ) || r is Err && final(self).rows() == old(self).rows(),
    ;

    /// Removes the rows that have ended, and counts them.
    fn cleanup_expired(&mut self) -> (r: Result<usize, KirinoError>)
        requires
            old(self).wf(),
        ensures
            final(self).wf(),
            r matches Ok(n) ==> {
                &&& exists|now: i128| final(self).rows() == #[trigger] rows_left(old(self).rows(), now)
                &&& n == old(self).rows().dom().difference(final(self).rows().dom()).len()
            },
    ;

    /// The row that records the version of a subject.
    fn load_session_metadata(&self, subject_id: &str) -> (r: Result<Option<SessionRow>, KirinoError>)
        requires
            self.wf(),
        ensures
            r matches Ok(row) ==> match row {
                Some(s) => self.versions().contains_key(subject_id@) && s.version == self.versions()[subject_id@],
                None => !self.versions().contains_key(subject_id@),
            },
    ;

    /// Records the version of a subject.
    fn bump_version(&mut self, subject_id: &str, version: u64) -> (r: Result<(), KirinoError>)
        requires
            old(self).wf(),
        ensures
            final(self).wf(),
            final(self).versions() == old(self).versions().insert(subject_id@, version) || r is Err
                && final(self).versions() == old(self).versions(),
    ;
}

/// The session that a row and its subject stand for.
pub open spec fn session_at<S>(row: RowView, subject: S) -> crate::rbac::session::SessionView<S> {
    crate::rbac::session::SessionView {
        id: row.id,
        subject,
        active_roles: row.active_roles,
        context: row.context,
        version: row.version,
        created_at: row.created_at,
        expires_at: row.expires_at,
    }
}

/// Whether the subject id of a row reads as a subject, or as the failure that is answered, which
/// names a session.
pub open spec fn reads_as<S: Subject>(row: RowView, session_id: u128, read: Result<S, ErrorView>) -> bool {
    exists|id: &str, r: Result<S, KirinoError>|
        {
            &&& id@ == row.subject_id
            &&& #[trigger] call_ensures(S::try_from_subject_id, (id,), r)
            &&& match r {
                Ok(s) => read == Ok::<S, ErrorView>(s),
                Err(e) => read == Err::<S, ErrorView>(
                    ErrorView::Store(
                        "invalid subject_id '"@ + row.subject_id + "' in session "@ + crate::ids::uuid_text(session_id)
                            + ": "@ + e@.message(),
                    ),
                ),
            }
        }
}

/// Whether roles were taken from a subject one by one, each from the store that the one before
/// left, and each time with success.
pub open spec fn revoked_in_turn<S: Subject, P: Permission, A: AssignmentStore<S, P>>(
    run: Seq<A>,
    subject: S,
    names: Seq<Seq<char>>,
) -> bool {
    &&& run.len() == names.len() + 1
    &&& forall|i: int|
        0 <= i < names.len() ==> {
            &&& revocation_done::<S, P, A>(run[i], subject, #[trigger] names[i], Ok(()))
            &&& run[i].roles_read(subject.id_text()) matches Ok(before) ==> run[i + 1].roles_read(
                subject.id_text(),
            ) matches Ok(after) ==> after == before.remove(names[i])
        }
}

/// Whether saving a row can come to this.
pub open spec fn save_done<T: PersistentSessionStore>(database: T, row: RowView, r: Result<(), ErrorView>) -> bool {
    exists|store: &mut T, saved: &SessionRow, done: Result<(), KirinoError>|
        {
            &&& *store == database
            &&& saved@ == row
            &&& crate::rbac::constraints::validator::shown(done) == r
            &&& #[trigger] call_ensures(T::save_session, (store, saved), done)
        }
}

/// Whether putting other roles in a row can come to this.
pub open spec fn update_done<T: PersistentSessionStore>(
    database: T,
    id: u128,
    roles: Set<Seq<char>>,
    r: Result<(), ErrorView>,
) -> bool {
    exists|store: &mut T, names: &Vec<String>, done: Result<(), KirinoError>|
        {
            &&& *store == database
            &&& crate::rbac::traits::texts_of(names@).to_set() == roles
            &&& crate::rbac::constraints::validator::shown(done) == r
            &&& #[trigger] call_ensures(T::update_roles, (store, id, names), done)
        }
}

/// Whether taking a role from a subject can come to this.
pub open spec fn revocation_done<S: Subject, P: Permission, A: AssignmentStore<S, P>>(
    assignments: A,
    subject: S,
    name: Seq<char>,
    r: Result<(), KirinoError>,
) -> bool {
    exists|store: &mut A, role: &str|
        *store == assignments && role@ == name && #[trigger] call_ensures(A::revoke_role, (store, &subject, role), r)
}

/// Whether looking for the version of a subject can come to this.
pub open spec fn version_looked_up<T: PersistentSessionStore>(
    database: T,
    subject: Seq<char>,
    r: Result<Option<SessionRow>, KirinoError>,
) -> bool {
    exists|id: &str| id@ == subject && #[trigger] call_ensures(T::load_session_metadata, (&database, id), r)
}

/// Whether recording the version of a subject can come to this.
pub open spec fn bump_done<T: PersistentSessionStore>(
    database: T,
    subject: Seq<char>,
    version: u64,
    r: Result<(), KirinoError>,
) -> bool {
    exists|store: &mut T, id: &str|
        *store == database && id@ == subject && #[trigger] call_ensures(T::bump_version, (store, id, version), r)
}

/// Sessions that are rows of a database, for the roles of a store.
pub struct DbSessionManager<S, P, A, C, T> {
    store: T,
    assignment_store: A,
    constraint_store: Option<C>,
    marker: std::marker::PhantomData<(S, P)>,
}

impl<
    S: Subject,
    P: Permission,
    A: AssignmentStore<S, P>,
    C: ConstraintStore,
    T: PersistentSessionStore,
> DbSessionManager<S, P, A, C, T> {
    /// The database.
    pub closed spec fn database(&self) -> T {
        self.store
    }

    /// The assignments that roles are checked against.
    pub closed spec fn assignments(&self) -> A {
        self.assignment_store
    }

    /// The constraints that are enforced, if any.
    pub closed spec fn constraints(&self) -> Option<C> {
        self.constraint_store
    }

    /// Whether the parts are well formed.
    pub open spec fn wf(&self) -> bool {
        &&& self.database().wf()
        &&& self.assignments().wf()
        &&& self.constraints() matches Some(c) ==> c.valid()
    }

    /// A manager that enforces no constraints.
    #[must_use]
    pub fn new(store: T, assignment_store: A) -> (r: Self)
        requires
            store.wf(),
            assignment_store.wf(),
        ensures
            r.wf(),
            r.database() == store,
            r.assignments() == assignment_store,
            r.constraints() is None,
    {
        DbSessionManager { store, assignment_store, constraint_store: None, marker: std::marker::PhantomData }
    }

    /// The manager with a constraint store, whose policies are enforced from then on.
    #[must_use]
    pub fn with_constraint_store(self, store: C) -> (r: Self)
        requires
            self.wf(),
            store.valid(),
        ensures
            r.wf(),
            r.database() == self.database(),
            r.assignments() == self.assignments(),
            r.constraints() == Some(store),
    {
        DbSessionManager {
            store: self.store,
            assignment_store: self.assignment_store,
            constraint_store: Some(store),
            marker: std::marker::PhantomData,
        }
    }

    /// The assignments that roles are checked against.
    #[must_use]
    pub fn assignment_store(&self) -> (r: &A)
        ensures
            *r == self.assignments(),
    {
        &self.assignment_store
    }

    /// Everything but the database is unchanged.
    pub open spec fn same_but_database(&self, other: &Self) -> bool {
        &&& self.assignments() == other.assignments()
        &&& self.constraints() == other.constraints()
    }

    /// Removes the rows that have ended, and counts them.
    pub fn cleanup_expired(&mut self) -> (r: Result<usize, KirinoError>)
        requires
            old(self).wf(),
        ensures
            final(self).wf(),
            final(self).same_but_database(old(self)),
            r matches Ok(n) ==> {
                &&& exists|now: i128|
                    final(self).database().rows() == #[trigger] rows_left(old(self).database().rows(), now)
                &&& n == old(self).database().rows().dom().difference(final(self).database().rows().dom()).len()
            },
            exists|store: &mut T|
                *store == old(self).database() && #[trigger] call_ensures(T::cleanup_expired, (store,), r),
    {
        self.store.cleanup_expired()
    }

    /// Whether a session made for a subject at a moment is what it should be, or the refusal is. The
    /// version starts at zero.
    pub open spec fn created(
        &self,
        after: &Self,
        subject: S,
        requested: Set<Seq<char>>,
        ttl: i128,
        id: u128,
        now: i128,
        r: Result<crate::rbac::session::SessionView<S>, ErrorView>,
    ) -> bool {
        let rows = self.database().rows();
        match self.assignments().roles_read(subject.id_text()) {
            Err(e) => r == Err::<crate::rbac::session::SessionView<S>, ErrorView>(e) && after.database().rows() == rows,
            Ok(assigned) => {
                let roles = requested.intersect(assigned);
                let row = RowView {
                    id,
                    subject_id: subject.id_text(),
                    active_roles: roles,
                    context: None,
                    version: 0,
                    expires_at: (now + ttl) as i128,
                    created_at: now,
                };
                match r {
                    Ok(session) => {
                        &&& crate::rbac::session::dsd_set_outcome(self.constraints(), roles, Ok(()))
                        &&& save_done(self.database(), row, Ok(()))
                        &&& session == session_at(row, subject)
                        &&& after.database().rows() == rows.insert(id, row)
                    },
                    Err(e) => {
                        ||| crate::rbac::session::dsd_set_outcome(self.constraints(), roles, Err(e))
                            && after.database().rows() == rows
                        ||| {
                            &&& crate::rbac::session::dsd_set_outcome(self.constraints(), roles, Ok(()))
                            &&& save_done(self.database(), row, Err(e))
                            &&& after.database().rows() == rows || after.database().rows() == rows.insert(id, row)
                        }
                    },
                }
            },
        }
    }

    /// Makes a session of the given identifier at a moment; roles that the subject does not have are
    /// left out. It is handed out only once its row is saved, by one write.
    pub fn create_session_at(&mut self, subject: &S, active_roles: KeySet<String>, ttl: i128, id: u128, now: i128) -> (r:
        Result<Session<S>, KirinoError>)
        requires
            old(self).wf(),
            active_roles.wf(),
            i128::MIN <= now + ttl <= i128::MAX,
        ensures
            final(self).wf(),
            final(self).same_but_database(old(self)),
            r matches Ok(s) ==> s.wf(),
            old(self).created(
                final(self),
                *subject,
                active_roles@,
                ttl,
                id,
                now,
                crate::rbac::session::session_shown(r),
            ),
            r matches Ok(s) ==> exists|store: &mut T, saved: &SessionRow|
                {
                    &&& *store == old(self).database()
                    &&& *final(store) == final(self).database()
                    &&& saved@ == final(self).database().rows()[s.id]
                    &&& #[trigger] call_ensures(T::save_session, (store, saved), Ok(()))
                },
    {
        let assigned = self.assignment_store.roles_of(subject);
        let planned = plan_session(subject, &active_roles, assigned, &self.constraint_store, ttl, id, now);
        match planned {
            Err(e) => Err(e),
            Ok((session, row)) => {
                let done = self.store.save_session(&row);
                assert(save_done(
                    old(self).database(),
                    row@,
                    crate::rbac::constraints::validator::shown(done),
                ));
                match done {
                    Ok(()) => {
                        assert(done->Ok_0 == ());
                        Ok(session)
                    },
                    Err(e) => Err(e),
                }
            },
        }
    }

    /// Makes a session with a new identifier at the present moment.
    pub fn create_session(&mut self, subject: &S, active_roles: KeySet<String>, ttl: i128) -> (r: Result<
        Session<S>,
        KirinoError,
    >)
        requires
            old(self).wf(),
            active_roles.wf(),
            -crate::rbac::session::MAX_TTL <= ttl <= crate::rbac::session::MAX_TTL,
        ensures
            final(self).wf(),
            r matches Ok(s) ==> s.wf(),
            old(self).begun(final(self), *subject, active_roles@, ttl, r),
            r matches Ok(s) ==> exists|store: &mut T, saved: &SessionRow|
                {
                    &&& *store == old(self).database()
                    &&& *final(store) == final(self).database()
                    &&& saved@ == final(self).database().rows()[s.id]
                    &&& #[trigger] call_ensures(T::save_session, (store, saved), Ok(()))
                },
    {
        let now: i128 = utc_now();
        let id: u128 = draw_id();
        self.create_session_at(subject, active_roles, ttl, id, now)
    }

    /// Whether the answer to an activation and the rows after it are what they should be.
    pub open spec fn activated(&self, after: &Self, id: u128, role: Seq<char>, now: i128, r: Result<(), ErrorView>) -> bool {
        let rows = self.database().rows();
        let left = after.database().rows();
        ||| {
            &&& self.lookup_done(id) && !rows.contains_key(id)
            &&& r == Err::<(), ErrorView>(ErrorView::SessionNotFound) && left == rows
        }
        ||| r is Err && left == rows && self.lookup_failed(id, r->Err_0)
        ||| self.lookup_done(id) && rows.contains_key(id) && {
            let row = rows[id];
            if now > row.expires_at {
                r == Err::<(), ErrorView>(ErrorView::SessionExpired) && left == rows
            } else if row.active_roles.contains(role) {
                r is Ok && left == rows
            } else {
                exists|read: Result<S, ErrorView>|
                    {
                        &&& #[trigger] reads_as(row, id, read)
                        &&& match read {
                            Err(e) => r == Err::<(), ErrorView>(e) && left == rows,
                            Ok(subject) => match self.assignments().roles_read(subject.id_text()) {
                                Err(e) => r == Err::<(), ErrorView>(e) && left == rows,
                                Ok(assigned) => if !assigned.contains(role) {
                                    &&& r == Err::<(), ErrorView>(
                                        ErrorView::NotFound("role '"@ + role + "' not assigned to subject"@),
                                    )
                                    &&& left == rows
                                } else {
                                    let roles = row.active_roles.insert(role);
                                    ||| {
                                        &&& r is Err
                                        &&& crate::rbac::session::dsd_set_outcome(self.constraints(), roles, r)
                                        &&& left == rows
                                    }
                                    ||| {
                                        &&& crate::rbac::session::dsd_set_outcome(self.constraints(), roles, Ok(()))
                                        &&& update_done(self.database(), id, roles, r)
                                        &&& left == with_roles(rows, id, roles) || r is Err && left == rows
                                    }
                                },
                            },
                        }
                    }
            }
        }
    }

    /// Whether looking for a row can fail with this.
    pub open spec fn lookup_failed(&self, id: u128, e: ErrorView) -> bool {
        exists|f: KirinoError| f@ == e && #[trigger] call_ensures(T::load_session, (&self.database(), id), Err(f))
    }

    /// Whether looking for a row can find what is there.
    pub open spec fn lookup_done(&self, id: u128) -> bool {
        exists|row: Option<SessionRow>|
            {
                &&& row_shown(row) == row_at(self.database().rows(), id)
                &&& #[trigger] call_ensures(T::load_session, (&self.database(), id), Ok(row))
            }
    }

    /// Activates a role of a session at a moment, after checking that it is assigned and that no
    /// policy on activation is broken.
    pub fn activate_role_at(&mut self, session_id: u128, role_name: &str, now: i128) -> (r: Result<(), KirinoError>)
        requires
            old(self).wf(),
        ensures
            final(self).wf(),
            final(self).same_but_database(old(self)),
            old(self).activated(
                final(self),
                session_id,
                role_name@,
                now,
                crate::rbac::constraints::validator::shown(r),
            ),
    {
        let found = match self.store.load_session(session_id) {
            Ok(found) => found,
            Err(e) => {
                assert(old(self).lookup_failed(session_id, e@));
                return Err(e);
            },
        };
        assert(old(self).lookup_done(session_id));
        let row = match found {
            Some(row) => row,
            None => {
                return Err(KirinoError::SessionNotFound);
            },
        };
        match begin_activation(Some(&row), role_name, now) {
            Ok(true) => {},
            Ok(false) => {
                return Ok(());
            },
            Err(e) => {
                return Err(e);
            },
        }
        let read = S::try_from_subject_id(row.subject_id.as_str());
        let subject = match row_subject(&row, session_id, read) {
            Ok(subject) => subject,
            Err(e) => {
                assert(reads_as::<S>(row@, session_id, Err(e@)));
                return Err(e);
            },
        };
        assert(reads_as::<S>(row@, session_id, Ok(subject)));
        let assigned = self.assignment_store.roles_of(&subject);
        match finish_activation(&row, role_name, assigned, &self.constraint_store) {
            Ok(roles) => {
                let r = self.store.update_roles(session_id, &roles);
                assert(update_done(
                    old(self).database(),
                    session_id,
                    crate::rbac::traits::texts_of(roles@).to_set(),
                    crate::rbac::constraints::validator::shown(r),
                ));
                r
            },
            Err(e) => Err(e),
        }
    }

    /// Activates a role of a session at the present moment.
    pub fn activate_role(&mut self, session_id: u128, role_name: &str) -> (r: Result<(), KirinoError>)
        requires
            old(self).wf(),
        ensures
            final(self).wf(),
            old(self).role_added(final(self), session_id, role_name@, r),
    {
        self.activate_role_at(session_id, role_name, utc_now())
    }

    /// Whether the answer to a deactivation and the rows after it are what they should be.
    pub open spec fn deactivated(
        &self,
        after: &Self,
        id: u128,
        role: Seq<char>,
        now: i128,
        r: Result<(), ErrorView>,
    ) -> bool {
        let rows = self.database().rows();
        let left = after.database().rows();
        ||| {
            &&& self.lookup_done(id) && !rows.contains_key(id)
            &&& r == Err::<(), ErrorView>(ErrorView::SessionNotFound) && left == rows
        }
        ||| r is Err && left == rows && self.lookup_failed(id, r->Err_0)
        ||| self.lookup_done(id) && rows.contains_key(id) && if now > rows[id].expires_at {
            r == Err::<(), ErrorView>(ErrorView::SessionExpired) && left == rows
        } else {
            let roles = rows[id].active_roles.remove(role);
            &&& update_done(self.database(), id, roles, r)
            &&& left == with_roles(rows, id, roles) || r is Err && left == rows
        }
    }

    /// Deactivates a role of a session at a moment; a role that is not active is left so.
    pub fn deactivate_role_at(&mut self, session_id: u128, role_name: &str, now: i128) -> (r: Result<(), KirinoError>)
        requires
            old(self).wf(),
        ensures
            final(self).wf(),
            final(self).same_but_database(old(self)),
            old(self).deactivated(
                final(self),
                session_id,
                role_name@,
                now,
                crate::rbac::constraints::validator::shown(r),
            ),
    {
        let found = match self.store.load_session(session_id) {
            Ok(found) => found,
            Err(e) => {
                assert(old(self).lookup_failed(session_id, e@));
                return Err(e);
            },
        };
        assert(old(self).lookup_done(session_id));
        let planned = match &found {
            Some(row) => plan_deactivation(Some(row), role_name, now),
            None => plan_deactivation(None, role_name, now),
        };
        match planned {
            Ok(roles) => {
                let r = self.store.update_roles(session_id, &roles);
                assert(update_done(
                    old(self).database(),
                    session_id,
                    crate::rbac::traits::texts_of(roles@).to_set(),
                    crate::rbac::constraints::validator::shown(r),
                ));
                r
            },
            Err(e) => Err(e),
        }
    }

    /// Deactivates a role of a session at the present moment.
    pub fn deactivate_role(&mut self, session_id: u128, role_name: &str) -> (r: Result<(), KirinoError>)
        requires
            old(self).wf(),
        ensures
            final(self).wf(),
            old(self).role_taken(final(self), session_id, role_name@, r),
    {
        self.deactivate_role_at(session_id, role_name, utc_now())
    }

    /// The session of an identifier, whether or not it has ended.
    pub fn get_session(&self, session_id: u128) -> (r: Result<Option<Session<S>>, KirinoError>)
        requires
            self.wf(),
        ensures
            r matches Ok(Some(s)) ==> s.wf(),
            self.looked_up(session_id, r),
    {
        match self.store.load_session(session_id) {
            Err(e) => {
                assert(self.lookup_failed(session_id, e@));
                Err(e)
            },
            Ok(None) => {
                assert(self.lookup_done(session_id));
                Ok(None)
            },
            Ok(Some(row)) => {
                assert(self.lookup_done(session_id));
                let read = S::try_from_subject_id(row.subject_id.as_str());
                match row_subject(&row, row.id, read) {
                    Ok(subject) => {
                        assert(reads_as::<S>(row@, row.id, Ok(subject)));
                        Ok(Some(session_of_row(row, subject)))
                    },
                    Err(e) => {
                        assert(reads_as::<S>(row@, row.id, Err(e@)));
                        Err(e)
                    },
                }
            },
        }
    }

    /// Ends a session; one that does not exist stays so.
    pub fn destroy_session(&mut self, session_id: u128) -> (r: Result<(), KirinoError>)
        requires
            old(self).wf(),
        ensures
            final(self).wf(),
            old(self).ended(final(self), session_id, r),
            exists|store: &mut T|
                {
                    &&& *store == old(self).database()
                    &&& *final(store) == final(self).database()
                    &&& #[trigger] call_ensures(T::delete_session, (store, session_id), r)
                },
    {
        self.store.delete_session(session_id)
    }

    /// Takes every role from a subject, one by one, and counts them; the sessions stay. The first
    /// failure ends it, with what was done until then left as it is.
    pub fn revoke_all_for_subject(&mut self, subject: &S) -> (r: Result<usize, KirinoError>)
        requires
            old(self).wf(),
        ensures
            final(self).wf(),
            old(self).revoked(final(self), *subject, r),
    {
        let roles = match self.assignment_store.roles_of(subject) {
            Ok(roles) => roles,
            Err(e) => {
                return Err(e);
            },
        };
        let ghost names = crate::rbac::traits::texts_of(roles@);
        let ghost mut run: Seq<A> = seq![self.assignment_store];
        let mut i: usize = 0;
        while i < roles.len()
            invariant
                self.wf(),
                self.database() == old(self).database(),
                self.constraints() == old(self).constraints(),
                old(self).assignments().roles_read(subject.id_text()) == Ok::<Set<Seq<char>>, ErrorView>(names.to_set()),
                names == crate::rbac::traits::texts_of(roles@),
                i <= roles@.len(),
                run[0] == old(self).assignments(),
                run.last() == self.assignments(),
                revoked_in_turn::<S, P, A>(run, *subject, names.take(i as int)),
            decreases roles.len() - i,
        {
            let ghost before = self.assignment_store;
            let taken = self.assignment_store.revoke_role(subject, roles[i].as_str());
            assert(revocation_done::<S, P, A>(before, *subject, names[i as int], taken));
            match taken {
                Ok(()) => {
                    assert(taken->Ok_0 == ());
                },
                Err(e) => {
                    proof {
                        assert(names.take(i as int).to_set().subset_of(names.to_set()));
                        assert(names.to_set().contains(names[i as int]));
                    }
                    return Err(e);
                },
            }
            proof {
                let longer = run.push(self.assignment_store);
                let done = names.take(i + 1);
                assert forall|k: int| 0 <= k < done.len() implies revocation_done::<S, P, A>(
                    longer[k],
                    *subject,
                    #[trigger] done[k],
                    Ok(()),
                ) && (longer[k].roles_read(subject.id_text()) matches Ok(b) ==> longer[k + 1].roles_read(
                    subject.id_text(),
                ) matches Ok(a) ==> a == b.remove(done[k])) by {
                    if k < i {
                        assert(done[k] == names.take(i as int)[k]);
                        assert(longer[k] == run[k] && longer[k + 1] == run[k + 1]);
                    } else {
                        assert(longer[k] == before);
                    }
                }
                run = longer;
            }
            i = i + 1;
        }
        assert(names.take(names.len() as int) =~= names);
        Ok(roles.len())
    }

    /// Whether looking for the version of a subject can succeed.
    pub open spec fn version_found(&self, subject: S) -> bool {
        exists|row: Option<SessionRow>| #[trigger] version_looked_up(self.database(), subject.id_text(), Ok(row))
    }

    /// The version of a subject; zero where none is recorded.
    pub fn current_version(&self, subject: &S) -> (r: Result<u64, KirinoError>)
        requires
            self.wf(),
        ensures
            self.version_read(*subject, r),
    {
        let read = self.store.load_session_metadata(subject.subject_id());
        assert(version_looked_up(self.database(), subject.id_text(), read));
        match read {
            Ok(Some(row)) => Ok(recorded_version(Some(&row))),
            Ok(None) => Ok(recorded_version(None)),
            Err(e) => Err(e),
        }
    }

    /// Counts the version of a subject up, by one write, which makes its earlier sessions stale.
    pub fn bump_version_for_subject(&mut self, subject: &S) -> (r: Result<u64, KirinoError>)
        requires
            old(self).wf(),
        ensures
            final(self).wf(),
            old(self).version_raised(final(self), *subject, r),
            r matches Ok(v) ==> exists|store: &mut T, id: &str|
                {
                    &&& *store == old(self).database()
                    &&& *final(store) == final(self).database()
                    &&& id@ == subject.id_text()
                    &&& #[trigger] call_ensures(T::bump_version, (store, id, v), Ok(()))
                },
    {
        let next: u64 = match self.current_version(subject) {
            Ok(current) => bumped_version(current),
            Err(e) => {
                return Err(e);
            },
        };
        let done = self.store.bump_version(subject.subject_id(), next);
        assert(bump_done(old(self).database(), subject.id_text(), next, done));
        assert(exists|store: &mut T, id: &str|
            {
                &&& *store == old(self).database()
                &&& *final(store) == self.database()
                &&& id@ == subject.id_text()
                &&& #[trigger] call_ensures(T::bump_version, (store, id, next), done)
            });
        match done {
            Ok(()) => {
                assert(done->Ok_0 == ());
                Ok(next)
            },
            Err(e) => Err(e),
        }
    }
}

impl<
    S: Subject,
    P: Permission,
    A: AssignmentStore<S, P>,
    C: ConstraintStore,
    T: PersistentSessionStore,
> SessionManager<S> for DbSessionManager<S, P, A, C, T> {
    open spec fn valid(&self) -> bool {
        self.wf()
    }

    open spec fn begun(
        &self,
        after: &Self,
        subject: S,
        requested: Set<Seq<char>>,
        ttl: i128,
        r: Result<Session<S>, KirinoError>,
    ) -> bool {
        &&& after.same_but_database(self)
        &&& exists|id: u128, now: i128|
            {
                &&& crate::ids::is_drawn(id)
                &&& crate::time::is_now(now)
                &&& #[trigger] self.created(
                    after,
                    subject,
                    requested,
                    ttl,
                    id,
                    now,
                    crate::rbac::session::session_shown(r),
                )
            }
    }

    open spec fn role_added(&self, after: &Self, id: u128, role: Seq<char>, r: Result<(), KirinoError>) -> bool {
        &&& after.same_but_database(self)
        &&& exists|now: i128| #[trigger]
            crate::time::is_now(now) && self.activated(after, id, role, now, crate::rbac::constraints::validator::shown(r))
    }

    open spec fn role_taken(&self, after: &Self, id: u128, role: Seq<char>, r: Result<(), KirinoError>) -> bool {
        &&& after.same_but_database(self)
        &&& exists|now: i128| #[trigger]
            crate::time::is_now(now) && self.deactivated(after, id, role, now, crate::rbac::constraints::validator::shown(r))
    }

    open spec fn looked_up(&self, id: u128, r: Result<Option<Session<S>>, KirinoError>) -> bool {
        let rows = self.database().rows();
        match r {
            Ok(None) => self.lookup_done(id) && !rows.contains_key(id),
            Ok(Some(session)) => {
                &&& self.lookup_done(id)
                &&& rows.contains_key(id)
                &&& session@ == session_at(rows[id], session.subject)
                &&& reads_as(rows[id], rows[id].id, Ok(session.subject))
            },
            Err(e) => {
                ||| self.lookup_failed(id, e@)
                ||| self.lookup_done(id) && rows.contains_key(id) && reads_as::<S>(rows[id], rows[id].id, Err(e@))
            },
        }
    }

    open spec fn ended(&self, after: &Self, id: u128, r: Result<(), KirinoError>) -> bool {
        let rows = self.database().rows();
        &&& after.same_but_database(self)
        &&& after.database().rows() == rows.remove(id) || r is Err && after.database().rows() == rows
        &&& exists|store: &mut T| *store == self.database() && #[trigger] call_ensures(T::delete_session, (store, id), r)
    }

    /// The sessions stay; every role is taken from the subject.
    open spec fn revoked(&self, after: &Self, subject: S, r: Result<usize, KirinoError>) -> bool {
        let before = self.assignments();
        &&& after.database() == self.database()
        &&& after.constraints() == self.constraints()
        &&& match (r, before.roles_read(subject.id_text())) {
            (Err(e), Err(f)) => e@ == f && after.assignments() == before,
            (Err(e), Ok(roles)) => exists|run: Seq<A>, names: Seq<Seq<char>>, next: Seq<char>|
                {
                    &&& #[trigger] revoked_in_turn::<S, P, A>(run, subject, names)
                    &&& run[0] == before
                    &&& names.to_set().subset_of(roles)
                    &&& roles.contains(next)
                    &&& #[trigger] revocation_done::<S, P, A>(run.last(), subject, next, Err(e))
                },
            (Ok(n), read) => exists|run: Seq<A>, names: Seq<Seq<char>>|
                {
                    &&& #[trigger] revoked_in_turn::<S, P, A>(run, subject, names)
                    &&& run[0] == before
                    &&& run.last() == after.assignments()
                    &&& n == names.len()
                    &&& read == Ok::<Set<Seq<char>>, ErrorView>(names.to_set())
                },
        }
    }

    open spec fn version_read(&self, subject: S, r: Result<u64, KirinoError>) -> bool {
        match r {
            Ok(v) => {
                &&& v == crate::rbac::session::version_of(self.database().versions(), subject.id_text())
                &&& self.version_found(subject)
            },
            Err(e) => version_looked_up(self.database(), subject.id_text(), Err(e)),
        }
    }

    open spec fn version_raised(&self, after: &Self, subject: S, r: Result<u64, KirinoError>) -> bool {
        let versions = self.database().versions();
        let next = crate::rbac::session::next_version(crate::rbac::session::version_of(versions, subject.id_text()));
        &&& after.same_but_database(self)
        &&& match r {
            Ok(v) => {
                &&& v == next
                &&& self.version_found(subject)
                &&& bump_done(self.database(), subject.id_text(), next, Ok(()))
                &&& after.database().versions() == versions.insert(subject.id_text(), next)
            },
            Err(e) => {
                ||| {
                    &&& version_looked_up(self.database(), subject.id_text(), Err(e))
                    &&& after.database() == self.database()
                }
                ||| {
                    &&& self.version_found(subject)
                    &&& bump_done(self.database(), subject.id_text(), next, Err(e))
                    &&& after.database().versions() == versions || after.database().versions() == versions.insert(
                        subject.id_text(),
                        next,
                    )
                }
            },
        }
    }

    fn create_session(&mut self, subject: &S, active_roles: KeySet<String>, ttl: i128) -> (r: Result<
        Session<S>,
        KirinoError,
    >) {
        self.create_session(subject, active_roles, ttl)
    }

    fn activate_role(&mut self, session_id: u128, role_name: &str) -> (r: Result<(), KirinoError>) {
        self.activate_role(session_id, role_name)
    }

    fn deactivate_role(&mut self, session_id: u128, role_name: &str) -> (r: Result<(), KirinoError>) {
        self.deactivate_role(session_id, role_name)
    }

    fn get_session(&self, session_id: u128) -> (r: Result<Option<Session<S>>, KirinoError>) {
        self.get_session(session_id)
    }

    fn destroy_session(&mut self, session_id: u128) -> (r: Result<(), KirinoError>) {
        self.destroy_session(session_id)
    }

    fn revoke_all_for_subject(&mut self, subject: &S) -> (r: Result<usize, KirinoError>) {
        self.revoke_all_for_subject(subject)
    }

    fn current_version(&self, subject: &S) -> (r: Result<u64, KirinoError>) {
        self.current_version(subject)
    }

    fn bump_version_for_subject(&mut self, subject: &S) -> (r: Result<u64, KirinoError>) {
        self.bump_version_for_subject(subject)
    }
}

impl<
    S: Subject,
    P: Permission,
    A: AssignmentStore<S, P>,
    C: ConstraintStore,
    T: PersistentSessionStore,
> DbSessionManager<S, P, A, C, T> {
    /// A session that is handed out is saved as it is, and holds no role that the subject did not
    /// have when it was made.
    pub proof fn law_session_is_saved_with_assigned_roles(
        before: &Self,
        after: &Self,
        subject: S,
        requested: Set<Seq<char>>,
        ttl: i128,
        id: u128,
        now: i128,
        session: crate::rbac::session::SessionView<S>,
    )
        requires
            before.created(after, subject, requested, ttl, id, now, Ok(session)),
        ensures
            before.assignments().roles_read(subject.id_text()) matches Ok(assigned)
                && session.active_roles.subset_of(assigned),
            session.active_roles.subset_of(requested),
            after.database().rows().contains_key(id),
            session == session_at(after.database().rows()[id], subject),
    {
    }
}

/// Taking every role that a subject had, one by one, from stores that can be read leaves it none.
pub proof fn law_revoking_every_role_leaves_none<S: Subject, P: Permission, A: AssignmentStore<S, P>>(
    run: Seq<A>,
    subject: S,
    names: Seq<Seq<char>>,
)
    requires
        revoked_in_turn::<S, P, A>(run, subject, names),
        run[0].roles_read(subject.id_text()) == Ok::<Set<Seq<char>>, ErrorView>(names.to_set()),
        forall|i: int| 0 <= i < run.len() ==> (#[trigger] run[i]).roles_read(subject.id_text()) is Ok,
    ensures
        run.last().roles_read(subject.id_text()) == Ok::<Set<Seq<char>>, ErrorView>(Set::empty()),
{
    lemma_revoked_so_far::<S, P, A>(run, subject, names, names.len() as int);
    let left = run.last().roles_read(subject.id_text())->Ok_0;
    assert forall|name: Seq<char>| !left.contains(name) by {
        if left.contains(name) {
            assert(names.contains(name));
            let i = choose|i: int| 0 <= i < names.len() && names[i] == name;
            assert(names[i] == name);
        }
    }
    assert(left =~= Set::empty());
}

/// What is left after some steps was there at the start and is none of the roles that were taken.
proof fn lemma_revoked_so_far<S: Subject, P: Permission, A: AssignmentStore<S, P>>(
    run: Seq<A>,
    subject: S,
    names: Seq<Seq<char>>,
    n: int,
)
    requires
        revoked_in_turn::<S, P, A>(run, subject, names),
        run[0].roles_read(subject.id_text()) == Ok::<Set<Seq<char>>, ErrorView>(names.to_set()),
        forall|i: int| 0 <= i < run.len() ==> (#[trigger] run[i]).roles_read(subject.id_text()) is Ok,
        0 <= n <= names.len(),
    ensures
        forall|name: Seq<char>| #[trigger]
            run[n].roles_read(subject.id_text())->Ok_0.contains(name) ==> names.contains(name) && forall|i: int|
                0 <= i < n ==> #[trigger] names[i] != name,
    decreases n,
{
    if n > 0 {
        lemma_revoked_so_far::<S, P, A>(run, subject, names, n - 1);
        assert(names[n - 1] == names[n - 1]);
        assert(run[n - 1].roles_read(subject.id_text()) is Ok);
        assert(run[n].roles_read(subject.id_text()) is Ok);
    }
}

/// A planned session holds exactly the roles that were asked for and are assigned, at version zero
/// and until its lifetime is over, and its row says the same; it is planned exactly if the
/// assignments were read and the constraints admit its roles.
pub proof fn law_planned_session<S: Subject, C: ConstraintStore>(
    subject: &S,
    requested: &KeySet<String>,
    assigned: Result<Vec<String>, KirinoError>,
    constraints: &Option<C>,
    ttl: i128,
    id: u128,
    now: i128,
    r: Result<(Session<S>, SessionRow), KirinoError>,
)
    requires
        call_ensures(plan_session::<S, C>, (subject, requested, assigned, constraints, ttl, id, now), r),
        i128::MIN <= now + ttl <= i128::MAX,
    ensures
        assigned matches Err(e) ==> (r matches Err(f) && f@ == e@),
        assigned matches Ok(names) ==> {
            let held = Seq::new(names@.len(), |i: int| names@[i]@).to_set();
            &&& r is Ok <==> crate::rbac::session::admitted(*constraints, requested@.intersect(held))
            &&& r matches Err(e) ==> crate::rbac::session::is_refusal(*constraints, e@)
            &&& r matches Ok((s, row)) ==> {
                &&& s.active_roles@ == requested@.intersect(held) && row@.active_roles == s.active_roles@
                &&& s.id == id && row.id == id
                &&& s.subject == *subject && row.subject_id@ == subject.id_text()
                &&& s.version == 0 && row.version == 0
                &&& s.context is None && row.context is None
                &&& s.created_at == now && row.created_at == now
                &&& s.expires_at == now + ttl && row.expires_at == now + ttl
            }
        },
{
    if let Ok(names) = assigned {
        let held = Seq::new(names@.len(), |i: int| names@[i]@);
        assert(held =~= crate::rbac::traits::texts_of(names@));
        match r {
            Ok(_) => {
                crate::rbac::session::lemma_admitted(*constraints, requested@.intersect(held.to_set()), Ok(()));
            },
            Err(e) => {
                crate::rbac::session::lemma_admitted(*constraints, requested@.intersect(held.to_set()), Err(e@));
            },
        }
    }
}

/// A role can be activated or taken out of a row exactly up to its last moment; one that is active
/// already needs no look at the assignments.
pub proof fn law_row_can_be_changed_while_it_lasts(
    row: &SessionRow,
    role: &str,
    now: i128,
    begun: Result<bool, KirinoError>,
    taken: Result<Vec<String>, KirinoError>,
    missing: Result<bool, KirinoError>,
    gone: Result<Vec<String>, KirinoError>,
)
    requires
        call_ensures(begin_activation, (Some(row), role, now), begun),
        call_ensures(plan_deactivation, (Some(row), role, now), taken),
        call_ensures(begin_activation, (None, role, now), missing),
        call_ensures(plan_deactivation, (None, role, now), gone),
    ensures
        begun is Ok <==> now <= row.expires_at,
        taken is Ok <==> now <= row.expires_at,
        begun matches Err(e) ==> e@ is SessionExpired,
        taken matches Err(e) ==> e@ is SessionExpired,
        begun matches Ok(more) ==> (more <==> !crate::rbac::memory::is_among(row.active_roles@, role@)),
        taken matches Ok(list) ==> forall|name: Seq<char>|
            #[trigger] crate::rbac::memory::is_among(list@, name) <==> name != role@
                && row@.active_roles.contains(name),
        missing matches Err(e) && e@ is SessionNotFound,
        gone matches Err(e) && e@ is SessionNotFound,
{
    crate::rbac::memory::lemma_among(row.active_roles@, role@);
    if let Ok(list) = taken {
        assert forall|name: Seq<char>|
            #[trigger] crate::rbac::memory::is_among(list@, name) <==> name != role@
                && row@.active_roles.contains(name) by {
            crate::rbac::memory::lemma_among(list@, name);
        }
    }
}

/// The roles that an activation writes are those that were active and the one that is activated; it
/// writes exactly if the role is assigned and the constraints admit them together.
pub proof fn law_activation_writes_one_role_more<C: ConstraintStore>(
    row: &SessionRow,
    role: &str,
    assigned: Result<Vec<String>, KirinoError>,
    constraints: &Option<C>,
    r: Result<Vec<String>, KirinoError>,
)
    requires
        call_ensures(finish_activation::<C>, (row, role, assigned, constraints), r),
    ensures
        assigned matches Err(e) ==> (r matches Err(f) && f@ == e@),
        assigned matches Ok(names) ==> {
            let held = crate::rbac::memory::is_among(names@, role@);
            let fits = crate::rbac::session::admitted(*constraints, row@.active_roles.insert(role@));
            &&& r is Ok <==> held && fits
            &&& !held ==> (r matches Err(f) && f@ is NotFound)
            &&& held && !fits ==> (r matches Err(f) && crate::rbac::session::is_refusal(*constraints, f@))
        },
        r matches Ok(list) ==> forall|name: Seq<char>|
            #[trigger] crate::rbac::memory::is_among(list@, name) <==> name == role@
                || row@.active_roles.contains(name),
{
    if let Ok(names) = assigned {
        crate::rbac::memory::lemma_among(names@, role@);
        if crate::rbac::traits::texts_of(names@).contains(role@) {
            let outcome: Result<(), ErrorView> = match r {
                Ok(_) => Ok(()),
                Err(e) => Err(e@),
            };
            crate::rbac::session::lemma_admitted(*constraints, row@.active_roles.insert(role@), outcome);
        }
    }
    if let Ok(list) = r {
        assert forall|name: Seq<char>|
            #[trigger] crate::rbac::memory::is_among(list@, name) <==> name == role@
                || row@.active_roles.contains(name) by {
            crate::rbac::memory::lemma_among(list@, name);
        }
    }
}

/// A row and the session that is read of it have the same parts, and a version is counted up by one
/// as long as it can be counted.
pub proof fn law_row_is_read_as_it_is<S: Subject>(
    row: SessionRow,
    subject: S,
    session: Session<S>,
    recorded: u64,
    absent: u64,
    current: u64,
    next: u64,
    role: Seq<char>,
)
    requires
        call_ensures(session_of_row::<S>, (row, subject), session),
        call_ensures(recorded_version, (Some(&row),), recorded),
        call_ensures(recorded_version, (None,), absent),
        call_ensures(bumped_version, (current,), next),
    ensures
        session.id == row.id && session.subject == subject && session.version == row.version,
        session.created_at == row.created_at && session.expires_at == row.expires_at,
        session.context is Some <==> row.context is Some,
        session.context matches Some(c) ==> c@ == row.context->Some_0@,
        session.active_roles@.contains(role) <==> crate::rbac::memory::is_among(row.active_roles@, role),
        recorded == row.version && absent == 0,
        current < u64::MAX ==> next == current + 1,
{
    crate::rbac::memory::lemma_among(row.active_roles@, role);
}

impl<
    S: Subject,
    P: Permission,
    A: AssignmentStore<S, P>,
    C: ConstraintStore,
    T: PersistentSessionStore,
> DbSessionManager<S, P, A, C, T> {
    /// A session that is made holds exactly the roles asked for that the subject has, at version zero and
    /// until its lifetime is over, and is the row of its identifier; the other rows stay. It is refused
    /// only where the assignments cannot be read, the constraints do not admit it, or the row is not
    /// saved.
    pub proof fn law_session_is_made(
        before: Self,
        after: Self,
        subject: &S,
        requested: KeySet<String>,
        ttl: i128,
        id: u128,
        now: i128,
        r: Result<Session<S>, KirinoError>,
        other: u128,
    )
        requires
            exists|manager: &mut Self|
                *manager == before && *final(manager) == after && #[trigger] call_ensures(
                    Self::create_session_at,
                    (manager, subject, requested, ttl, id, now),
                    r,
                ),
            i128::MIN <= now + ttl <= i128::MAX,
            other != id,
        ensures
            before.assignments().roles_read(subject.id_text()) matches Err(e) ==> (r matches Err(f) && f@ == e),
            before.assignments().roles_read(subject.id_text()) matches Ok(assigned) ==> {
                let fits = crate::rbac::session::admitted(before.constraints(), requested@.intersect(assigned));
                &&& r is Ok ==> fits
                &&& !fits ==> (r matches Err(f) && crate::rbac::session::is_refusal(before.constraints(), f@))
                &&& fits && r is Err ==> exists|store: &mut T, row: &SessionRow, e: KirinoError|
                    {
                        &&& *store == before.database()
                        &&& row.id == id && row.subject_id@ == subject.id_text()
                        &&& e@ == r->Err_0@
                        &&& #[trigger] call_ensures(T::save_session, (store, row), Err(e))
                    }
                &&& r matches Ok(s) ==> {
                    let row = after.database().rows()[id];
                    &&& after.database().rows().contains_key(id)
                    &&& s.active_roles@ == requested@.intersect(assigned) && row.active_roles == s.active_roles@
                    &&& s.id == id && row.id == id
                    &&& s.subject == *subject && row.subject_id == subject.id_text()
                    &&& s.version == 0 && row.version == 0
                    &&& s.context is None && row.context is None
                    &&& s.created_at == now && row.created_at == now
                    &&& s.expires_at == now + ttl && row.expires_at == now + ttl
                }
            },
            after.database().rows().contains_key(other) <==> before.database().rows().contains_key(other),
            before.database().rows().contains_key(other) ==> after.database().rows()[other]
                == before.database().rows()[other],
    {
        if let Ok(assigned) = before.assignments().roles_read(subject.id_text()) {
            let roles = requested@.intersect(assigned);
            match r {
                Ok(_) => {
                    crate::rbac::session::lemma_admitted(before.constraints(), roles, Ok(()));
                },
                Err(e) => {
                    if crate::rbac::session::dsd_set_outcome(before.constraints(), roles, Err(e@)) {
                        crate::rbac::session::lemma_admitted(before.constraints(), roles, Err(e@));
                    } else {
                        crate::rbac::session::lemma_admitted(before.constraints(), roles, Ok(()));
                    }
                },
            }
        }
    }

    /// A role is activated only in a session that is there and has not ended, and only if it is active
    /// already, or if the subject of the row has it and the constraints admit it with those that are
    /// active. Then it is active besides the others, and every other row stays.
    pub proof fn law_role_is_activated(
        before: Self,
        after: Self,
        id: u128,
        role: &str,
        now: i128,
        r: Result<(), KirinoError>,
        other: u128,
    )
        requires
            exists|manager: &mut Self|
                *manager == before && *final(manager) == after && #[trigger] call_ensures(
                    Self::activate_role_at,
                    (manager, id, role, now),
                    r,
                ),
            other != id,
        ensures
            ({
                let rows = before.database().rows();
                let left = after.database().rows();
                let row = rows[id];
                &&& r is Ok ==> {
                    &&& rows.contains_key(id) && now <= row.expires_at
                    &&& left.contains_key(id) && left[id] == (RowView {
                        active_roles: row.active_roles.insert(role@),
                        ..row
                    })
                    &&& row.active_roles.contains(role@) || {
                        &&& crate::rbac::session::admitted(before.constraints(), row.active_roles.insert(role@))
                        &&& exists|text: &str, subject: S|
                            {
                                &&& text@ == row.subject_id
                                &&& #[trigger] call_ensures(S::try_from_subject_id, (text,), Ok(subject))
                                &&& before.assignments().roles_read(subject.id_text()) matches Ok(held) && held.contains(
                                    role@,
                                )
                            }
                    }
                }
                &&& left.contains_key(other) <==> rows.contains_key(other)
                &&& rows.contains_key(other) ==> left[other] == rows[other]
                &&& r is Err ==> left == rows || now <= row.expires_at && left.contains_key(id) && left[id] == (RowView {
                    active_roles: row.active_roles.insert(role@),
                    ..row
                })
            }),
            after.assignments() == before.assignments(),
    {
        let rows = before.database().rows();
        let row = rows[id];
        let outcome = crate::rbac::constraints::validator::shown(r);
        if r is Ok && !row.active_roles.contains(role@) {
            let read = choose|read: Result<S, ErrorView>|
                {
                    &&& #[trigger] reads_as(row, id, read)
                    &&& match read {
                        Err(e) => false,
                        Ok(subject) => before.assignments().roles_read(subject.id_text()) matches Ok(held) && held.contains(
                            role@,
                        ) && crate::rbac::session::dsd_set_outcome(
                            before.constraints(),
                            row.active_roles.insert(role@),
                            Ok(()),
                        ),
                    }
                };
            crate::rbac::session::lemma_admitted(before.constraints(), row.active_roles.insert(role@), Ok(()));
            let (text, s) = choose|text: &str, s: Result<S, KirinoError>|
                text@ == row.subject_id && #[trigger] call_ensures(S::try_from_subject_id, (text,), s) && match s {
                    Ok(s) => read == Ok::<S, ErrorView>(s),
                    Err(e) => read is Err,
                };
            assert(call_ensures(S::try_from_subject_id, (text,), Ok(s->Ok_0)));
        }
        if r is Ok && row.active_roles.contains(role@) {
            assert(row.active_roles.insert(role@) =~= row.active_roles);
        }
    }

    /// A role is deactivated only in a session that is there and has not ended. Then it is not active,
    /// the others are as they were, and every other row stays.
    pub proof fn law_role_is_deactivated(
        before: Self,
        after: Self,
        id: u128,
        role: &str,
        now: i128,
        r: Result<(), KirinoError>,
        other: u128,
    )
        requires
            exists|manager: &mut Self|
                *manager == before && *final(manager) == after && #[trigger] call_ensures(
                    Self::deactivate_role_at,
                    (manager, id, role, now),
                    r,
                ),
            other != id,
        ensures
            ({
                let rows = before.database().rows();
                let left = after.database().rows();
                &&& r is Ok ==> {
                    &&& rows.contains_key(id) && now <= rows[id].expires_at
                    &&& left.contains_key(id) && left[id] == (RowView {
                        active_roles: rows[id].active_roles.remove(role@),
                        ..rows[id]
                    })
                }
                &&& left.contains_key(other) <==> rows.contains_key(other)
                &&& rows.contains_key(other) ==> left[other] == rows[other]
                &&& !rows.contains_key(id) || rows[id].expires_at < now ==> left == rows
            }),
            after.assignments() == before.assignments(),
    {
    }

    /// A refusal to activate a role says what stood against it: the row could not be read, is not there
    /// or has ended, its subject id reads as none, the assignments could not be read, the role is not
    /// among them, the constraints do not admit it, or the roles could not be written.
    pub proof fn law_refused_activation(before: Self, after: Self, id: u128, role: &str, now: i128, e: KirinoError)
        requires
            exists|manager: &mut Self|
                *manager == before && *final(manager) == after && #[trigger] call_ensures(
                    Self::activate_role_at,
                    (manager, id, role, now),
                    Err(e),
                ),
        ensures
            ({
                let rows = before.database().rows();
                let row = rows[id];
                ||| exists|f: KirinoError|
                    f@ == e@ && #[trigger] call_ensures(T::load_session, (&before.database(), id), Err(f))
                ||| !rows.contains_key(id) && e@ is SessionNotFound
                ||| rows.contains_key(id) && row.expires_at < now && e@ is SessionExpired
                ||| rows.contains_key(id) && now <= row.expires_at && !row.active_roles.contains(role@) && {
                    ||| e@ is Store && exists|text: &str, f: KirinoError|
                        text@ == row.subject_id && #[trigger] call_ensures(S::try_from_subject_id, (text,), Err(f))
                    ||| exists|text: &str, subject: S|
                        {
                            &&& text@ == row.subject_id
                            &&& #[trigger] call_ensures(S::try_from_subject_id, (text,), Ok(subject))
                            &&& match before.assignments().roles_read(subject.id_text()) {
                                Err(f) => e@ == f,
                                Ok(held) => if !held.contains(role@) {
                                    e@ is NotFound
                                } else if !crate::rbac::session::admitted(
                                    before.constraints(),
                                    row.active_roles.insert(role@),
                                ) {
                                    crate::rbac::session::is_refusal(before.constraints(), e@)
                                } else {
                                    update_done(before.database(), id, row.active_roles.insert(role@), Err(e@))
                                },
                            }
                        }
                }
            }),
    {
        let rows = before.database().rows();
        let row = rows[id];
        let roles = row.active_roles.insert(role@);
        let r: Result<(), ErrorView> = Err(e@);
        assert(before.activated(&after, id, role@, now, r));
        if before.lookup_failed(id, e@) {
        } else if !rows.contains_key(id) || now > row.expires_at {
        } else {
            let left = after.database().rows();
            let read = choose|read: Result<S, ErrorView>|
                {
                    &&& #[trigger] reads_as(row, id, read)
                    &&& match read {
                        Err(f) => e@ == f,
                        Ok(subject) => match before.assignments().roles_read(subject.id_text()) {
                            Err(f) => e@ == f,
                            Ok(assigned) => if !assigned.contains(role@) {
                                e@ == ErrorView::NotFound("role '"@ + role@ + "' not assigned to subject"@)
                            } else {
                                ||| crate::rbac::session::dsd_set_outcome(before.constraints(), roles, r)
                                ||| {
                                    &&& crate::rbac::session::dsd_set_outcome(before.constraints(), roles, Ok(()))
                                    &&& update_done(before.database(), id, roles, r)
                                }
                            },
                        },
                    }
                };
            let (text, s) = choose|text: &str, s: Result<S, KirinoError>|
                {
                    &&& text@ == row.subject_id
                    &&& #[trigger] call_ensures(S::try_from_subject_id, (text,), s)
                    &&& match s {
                        Ok(s) => read == Ok::<S, ErrorView>(s),
                        Err(f) => read matches Err(g) && g is Store,
                    }
                };
            match s {
                Ok(subject) => {
                    assert(call_ensures(S::try_from_subject_id, (text,), Ok(subject)));
                    if let Ok(held) = before.assignments().roles_read(subject.id_text()) {
                        if held.contains(role@) {
                            if crate::rbac::session::dsd_set_outcome(before.constraints(), roles, r) {
                                crate::rbac::session::lemma_admitted(before.constraints(), roles, r);
                            } else {
                                crate::rbac::session::lemma_admitted(before.constraints(), roles, Ok(()));
                            }
                        }
                    }
                },
                Err(f) => {
                    assert(call_ensures(S::try_from_subject_id, (text,), Err(f)));
                },
            }
        }
    }

    /// A session that is read is the row of its identifier with the subject that its stored id reads as,
    /// and none is read exactly where there is no row.
    pub proof fn law_session_is_read(before: &Self, id: u128, r: Result<Option<Session<S>>, KirinoError>)
        requires
            call_ensures(Self::get_session, (before, id), r),
        ensures
            r matches Ok(found) ==> (found is Some <==> before.database().rows().contains_key(id)),
            r matches Ok(Some(s)) ==> {
                let row = before.database().rows()[id];
                &&& s.id == row.id && s.active_roles@ == row.active_roles && s.version == row.version
                &&& s.created_at == row.created_at && s.expires_at == row.expires_at
                &&& s@.context == row.context
                &&& exists|text: &str|
                    text@ == row.subject_id && #[trigger] call_ensures(S::try_from_subject_id, (text,), Ok(s.subject))
            },
    {
        if let Ok(Some(s)) = r {
            let row = before.database().rows()[id];
            let (text, read) = choose|text: &str, read: Result<S, KirinoError>|
                {
                    &&& text@ == row.subject_id
                    &&& #[trigger] call_ensures(S::try_from_subject_id, (text,), read)
                    &&& read matches Ok(t) && t == s.subject
                };
            assert(call_ensures(S::try_from_subject_id, (text,), Ok(s.subject)));
        }
    }

    /// The version of a subject is zero where none is recorded, and counting it up records one more, as
    /// long as it can be counted; nobody else's changes.
    pub proof fn law_version_is_counted_up(
        before: Self,
        after: Self,
        subject: &S,
        bumped: u64,
        was: u64,
        other: Seq<char>,
    )
        requires
            exists|manager: &mut Self|
                *manager == before && *final(manager) == after && #[trigger] call_ensures(
                    Self::bump_version_for_subject,
                    (manager, subject),
                    Ok(bumped),
                ),
            call_ensures(Self::current_version, (&before, subject), Ok(was)),
            other != subject.id_text(),
        ensures
            !before.database().versions().contains_key(subject.id_text()) ==> was == 0,
            before.database().versions().contains_key(subject.id_text()) ==> was
                == before.database().versions()[subject.id_text()],
            was < u64::MAX ==> bumped == was + 1,
            after.database().versions().contains_key(subject.id_text()),
            after.database().versions()[subject.id_text()] == bumped,
            after.database().versions().contains_key(other) <==> before.database().versions().contains_key(other),
            before.database().versions().contains_key(other) ==> after.database().versions()[other]
                == before.database().versions()[other],
    {
    }

    /// A session that was destroyed has no row, and the others stay; revoking touches no row, and counts
    /// the roles that the subject had.
    pub proof fn law_destroyed_and_revoked(
        before: Self,
        after: Self,
        revoked: Self,
        id: u128,
        subject: &S,
        n: usize,
        other: u128,
    )
        requires
            exists|manager: &mut Self|
                *manager == before && *final(manager) == after && #[trigger] call_ensures(
                    Self::destroy_session,
                    (manager, id),
                    Ok(()),
                ),
            exists|manager: &mut Self|
                *manager == before && *final(manager) == revoked && #[trigger] call_ensures(
                    Self::revoke_all_for_subject,
                    (manager, subject),
                    Ok(n),
                ),
            other != id,
        ensures
            !after.database().rows().contains_key(id),
            after.database().rows().contains_key(other) <==> before.database().rows().contains_key(other),
            before.database().rows().contains_key(other) ==> after.database().rows()[other]
                == before.database().rows()[other],
            revoked.database() == before.database(),
            before.assignments().roles_read(subject.id_text()) matches Ok(held) && held.len() <= n && (n == 0 ==> held
                == Set::<Seq<char>>::empty()),
    {
        let (run, names) = choose|run: Seq<A>, names: Seq<Seq<char>>|
            {
                &&& #[trigger] revoked_in_turn::<S, P, A>(run, *subject, names)
                &&& n == names.len()
                &&& before.assignments().roles_read(subject.id_text()) == Ok::<Set<Seq<char>>, ErrorView>(names.to_set())
            };
        names.lemma_cardinality_of_set();
        if n == 0 {
            assert(names.to_set() =~= Set::<Seq<char>>::empty());
        }
    }
}

impl<
    S: Subject,
    P: Permission,
    A: AssignmentStore<S, P>,
    C: ConstraintStore,
    T: PersistentSessionStore,
> DbSessionManager<S, P, A, C, T> {
    /// A session that is made now begins at a moment that the clock reads, lasts as long as it was asked to,
    /// holds exactly the roles asked for that the subject has, and is the row of its identifier.
    pub proof fn law_session_is_made_now(
        before: Self,
        after: Self,
        subject: &S,
        requested: KeySet<String>,
        ttl: i128,
        s: Session<S>,
    )
        requires
            exists|manager: &mut Self|
                *manager == before && *final(manager) == after && #[trigger] call_ensures(
                    Self::create_session,
                    (manager, subject, requested, ttl),
                    Ok(s),
                ),
            -crate::rbac::session::MAX_TTL <= ttl <= crate::rbac::session::MAX_TTL,
        ensures
            crate::time::is_now(s.created_at) && s.expires_at == s.created_at + ttl,
            s.subject == *subject && s.version == 0,
            before.assignments().roles_read(subject.id_text()) matches Ok(assigned) && {
                &&& s.active_roles@ == requested@.intersect(assigned)
                &&& crate::rbac::session::admitted(before.constraints(), s.active_roles@)
            },
            after.database().rows().contains_key(s.id) && {
                let row = after.database().rows()[s.id];
                &&& row.id == s.id && row.subject_id == subject.id_text() && row.active_roles == s.active_roles@
                &&& row.version == 0 && row.created_at == s.created_at && row.expires_at == s.expires_at
            },
    {
        let (id, now) = choose|id: u128, now: i128|
            {
                &&& crate::ids::is_drawn(id)
                &&& crate::time::is_now(now)
                &&& #[trigger] before.created(
                    &after,
                    *subject,
                    requested@,
                    ttl,
                    id,
                    now,
                    crate::rbac::session::session_shown(Ok(s)),
                )
            };
        let (secs, nanos) = choose|secs: i64, nanos: u32| #[trigger]
            crate::time::clock_reads(secs, nanos) && now == crate::time::moment_at(secs, nanos);
        assert(i128::MIN <= now + ttl <= i128::MAX);
        let assigned = before.assignments().roles_read(subject.id_text())->Ok_0;
        crate::rbac::session::lemma_admitted(before.constraints(), requested@.intersect(assigned), Ok(()));
    }

    /// A role is activated or deactivated now only in a session that is there and has not ended at a moment
    /// that the clock reads; then the roles of its row change by that one.
    pub proof fn law_roles_change_now(before: Self, after: Self, without: Self, id: u128, role: &str)
        requires
            exists|manager: &mut Self|
                *manager == before && *final(manager) == after && #[trigger] call_ensures(
                    Self::activate_role,
                    (manager, id, role),
                    Ok(()),
                ),
            exists|manager: &mut Self|
                *manager == before && *final(manager) == without && #[trigger] call_ensures(
                    Self::deactivate_role,
                    (manager, id, role),
                    Ok(()),
                ),
        ensures
            before.database().rows().contains_key(id),
            exists|now: i128| #[trigger] crate::time::is_now(now) && now <= before.database().rows()[id].expires_at,
            ({
                let row = before.database().rows()[id];
                &&& after.database().rows().contains_key(id) && after.database().rows()[id] == (RowView {
                    active_roles: row.active_roles.insert(role@),
                    ..row
                })
                &&& without.database().rows().contains_key(id) && without.database().rows()[id] == (RowView {
                    active_roles: row.active_roles.remove(role@),
                    ..row
                })
                &&& row.active_roles.contains(role@) || crate::rbac::session::admitted(
                    before.constraints(),
                    row.active_roles.insert(role@),
                )
            }),
    {
        let row = before.database().rows()[id];
        let r: Result<(), ErrorView> = Ok(());
        let now = choose|now: i128| #[trigger]
            crate::time::is_now(now) && before.activated(&after, id, role@, now, r);
        assert(crate::time::is_now(now) && now <= row.expires_at);
        if row.active_roles.contains(role@) {
            assert(row.active_roles.insert(role@) =~= row.active_roles);
        } else {
            crate::rbac::session::lemma_admitted(before.constraints(), row.active_roles.insert(role@), Ok(()));
        }
        let then = choose|now: i128| #[trigger]
            crate::time::is_now(now) && before.deactivated(&without, id, role@, now, r);
        assert(crate::time::is_now(then));
    }
}

/// The subject of a row is the one that its id was read as; a failure to read it is one of the store, and
/// its message holds the id and ends in what went wrong.
pub proof fn law_subject_of_a_row<S: Subject>(
    row: &SessionRow,
    id: u128,
    read: Result<S, KirinoError>,
    r: Result<S, KirinoError>,
)
    requires
        call_ensures(row_subject::<S>, (row, id, read), r),
    ensures
        read matches Ok(s) ==> (r matches Ok(t) && t == s),
        read matches Err(e) ==> (r matches Err(f) && f@ matches ErrorView::Store(text) && text == "invalid subject_id '"@
            + row.subject_id@ + "' in session "@ + crate::ids::uuid_text(id) + ": "@ + e@.message()),
{
}

/// Nothing of a row is out of sight: two that look the same have the same parts.
pub proof fn law_rows_that_look_the_same(a: SessionRow, b: SessionRow, role: Seq<char>)
    requires
        a@ == b@,
    ensures
        a.id == b.id && a.subject_id@ == b.subject_id@ && a.version == b.version,
        a.created_at == b.created_at && a.expires_at == b.expires_at,
        a.context is Some <==> b.context is Some,
        a.context is Some ==> a.context->Some_0@ == b.context->Some_0@,
        a@.id == a.id && a@.subject_id == a.subject_id@ && a@.version == a.version,
        a@.created_at == a.created_at && a@.expires_at == a.expires_at,
        a@.active_roles.contains(role) <==> crate::rbac::memory::is_among(a.active_roles@, role),
{
    crate::rbac::memory::lemma_among(a.active_roles@, role);
}

} // verus!
