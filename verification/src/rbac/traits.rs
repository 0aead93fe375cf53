//! The vocabulary of the decision layers: permissions, subjects, roles,
//! registries, and the outcome of a decision.
//!
//! Each trait has ghost functions for what its methods return. A verified
//! implementation defines them; one that is not verified may leave them out,
//! and then answers for the contracts of its methods itself.
use crate::collections::{Key, KeySet};
use crate::error::{ErrorView, KirinoError};
use vstd::prelude::*;

verus! {

/// The characters of each text of a list.
pub open spec fn texts_of(items: Seq<String>) -> Seq<Seq<char>> {
    Seq::new(items.len(), |i: int| items[i]@)
}

/// The characters of each text of a borrowed list.
pub open spec fn strs_of(items: Seq<&str>) -> Seq<Seq<char>> {
    Seq::new(items.len(), |i: int| items[i]@)
}

/// One permission that the engine can decide on.
///
/// The name is the persistence key, the audit label and the cache key. The
/// identity of [`Key`] tells permissions apart inside deny sets and grant sets.
pub trait Permission: Key {
    /// The name.
    open spec fn name_text(&self) -> Seq<char> {
        arbitrary()
    }

    /// The domain label.
    open spec fn domain_text(&self) -> Seq<char> {
        arbitrary()
    }

    /// The names of the permission and of every ancestor.
    open spec fn ancestry_texts(&self) -> Seq<Seq<char>> {
        arbitrary()
    }

    /// Whether the permission may stand for its descendants.
    open spec fn branch(&self) -> bool {
        false
    }

    /// What has the same identity has the same name, domain, ancestry and branch flag.
    proof fn identity_fixes_texts(a: &Self, b: &Self)
        requires
            a.id() == b.id(),
        ensures
            a.name_text() == b.name_text(),
            a.domain_text() == b.domain_text(),
            a.ancestry_texts() == b.ancestry_texts(),
            a.branch() == b.branch(),
    ;

    /// Stable, unique name.
    fn name(&self) -> (r: &str)
        ensures
            r@ == self.name_text(),
    ;

    /// Advisory label for grouping; empty when no domain is declared.
    fn domain(&self) -> (r: &str)
        ensures
            r@ == self.domain_text(),
    ;

    /// Names of this permission and of every ancestor that it descends from.
    fn ancestry_names(&self) -> (r: Vec<&str>)
        ensures
            strs_of(r@) == self.ancestry_texts(),
    ;

    /// Whether a grant of this permission covers its descendants.
    fn is_branch(&self) -> (r: bool)
        ensures
            r == self.branch(),
    ;

    /// Path components inside the domain.
    fn path_segments(&self) -> (r: Vec<&str>)
        default_ensures
            r@.len() == 0,
    {
        Vec::new()
    }

    /// Whether a pattern selects this permission: by default, its exact name.
    fn matches_pattern(&self, pattern: &str) -> (r: bool)
        default_ensures
            r == (pattern@ == self.name_text()),
    {
        crate::text::same_text(pattern, self.name())
    }

    /// Whether the permission has no children.
    fn is_leaf(&self) -> (r: bool)
        default_ensures
            r,
    {
        true
    }

    /// Every leaf permission of the type.
    fn all() -> (r: Vec<Self>)
        default_ensures
            r@.len() == 0,
    {
        Vec::new()
    }

    /// Every domain name of the type.
    fn all_domains() -> (r: Vec<&'static str>)
        default_ensures
            r@.len() == 0,
    {
        Vec::new()
    }

    /// The permission of a serialized path; by default every path is unknown.
    fn from_path(_path: &str) -> (r: Option<Self>)
        default_ensures
            r is None,
    {
        None
    }

    /// The permissions of a domain.
    fn expand_domain(_domain: &str) -> (r: Vec<Self>)
        default_ensures
            r@.len() == 0,
    {
        Vec::new()
    }
}

/// A principal that assignments, denials and cache entries are keyed by.
pub trait Subject: Key {
    /// The identity.
    open spec fn id_text(&self) -> Seq<char> {
        arbitrary()
    }

    /// The kind of principal.
    open spec fn type_text(&self) -> Seq<char> {
        arbitrary()
    }

    /// The stable identity that assignment rows, deny sets and cache entries use.
    fn subject_id(&self) -> (r: &str)
        ensures
            r@ == self.id_text(),
    ;

    /// The kind of principal (`user`, `service`, `anonymous`, `temporary`).
    fn subject_type(&self) -> (r: &'static str)
        ensures
            r@ == self.type_text(),
    ;

    /// The subject of a stored id; what an id that names no subject gives is up to the type.
    fn from_subject_id(id: &str) -> (r: Self);

    /// The subject of a stored id, or why there is none.
    fn try_from_subject_id(id: &str) -> (r: Result<Self, KirinoError>);
}

impl Subject for String {
    open spec fn id_text(&self) -> Seq<char> {
        self@
    }

    open spec fn type_text(&self) -> Seq<char> {
        "user"@
    }

    fn subject_id(&self) -> (r: &str) {
        self.as_str()
    }

    fn subject_type(&self) -> (r: &'static str) {
        "user"
    }

    fn from_subject_id(id: &str) -> (r: Self)
        ensures
            r@ == id@,
    {
        id.to_owned()
    }

    fn try_from_subject_id(id: &str) -> (r: Result<Self, KirinoError>)
        ensures
            r matches Ok(s) && s@ == id@,
    {
        Ok(id.to_owned())
    }
}

/// A named set of permissions that can be assigned to subjects.
pub trait Role<P: Permission>: Sized {
    /// Whether the value is well formed.
    open spec fn wf(&self) -> bool {
        true
    }

    /// The name.
    open spec fn name_text(&self) -> Seq<char> {
        arbitrary()
    }

    /// The authority.
    open spec fn granted(&self) -> Set<P::Id> {
        arbitrary()
    }

    /// The unique, persisted name.
    fn role_name(&self) -> (r: &str)
        ensures
            r@ == self.name_text(),
    ;

    /// Every permission that a holder of the role has by it.
    fn permissions(&self) -> (r: &KeySet<P>)
        requires
            self.wf(),
        ensures
            r.wf(),
            r@ == self.granted(),
    ;
}

/// Read-only catalogue of the permissions that are known.
pub trait PermissionRegistry<P: Permission>: Sized {
    /// Whether the value is well formed.
    open spec fn wf(&self) -> bool {
        true
    }

    /// The known permissions.
    open spec fn known(&self) -> Set<P::Id> {
        arbitrary()
    }

    /// The names of the known permissions.
    open spec fn known_names(&self) -> Set<Seq<char>> {
        arbitrary()
    }

    /// Every known permission.
    fn all_permissions(&self) -> (r: KeySet<P>)
        requires
            self.wf(),
        ensures
            r.wf(),
            r@ == self.known(),
    ;

    /// A known permission of a name.
    fn get_permission(&self, name: &str) -> (r: Option<P>)
        requires
            self.wf(),
        ensures
            match r {
                Some(p) => self.known_names().contains(name@) && p.name_text() == name@ && self.known().contains(
                    p.id(),
                ),
                None => !self.known_names().contains(name@),
            },
    ;
}

/// Read-only view of role definitions, with the names of each role's parents.
pub trait RoleRegistry<P: Permission>: Sized {
    /// Whether the value is well formed.
    open spec fn wf(&self) -> bool {
        true
    }

    /// The permissions of each known role.
    open spec fn roles(&self) -> Map<Seq<char>, Set<P::Id>> {
        arbitrary()
    }

    /// The parent names that are declared for a name, known or not.
    open spec fn parent_names(&self, name: Seq<char>) -> Seq<Seq<char>> {
        arbitrary()
    }

    /// The permissions of a role; none for an unknown role.
    fn get_role_permissions(&self, role_name: &str) -> (r: Option<KeySet<P>>)
        requires
            self.wf(),
        ensures
            match r {
                Some(perms) => self.roles().contains_key(role_name@) && perms.wf() && perms@
                    == self.roles()[role_name@],
                None => !self.roles().contains_key(role_name@),
            },
    ;

    /// The declared parents of a role.
    fn role_parents(&self, role_name: &str) -> (r: Vec<String>)
        requires
            self.wf(),
        ensures
            texts_of(r@) == self.parent_names(role_name@),
    ;

    /// Every known role name, none of them twice.
    fn list_role_names(&self) -> (r: Vec<String>)
        requires
            self.wf(),
        ensures
            texts_of(r@).no_duplicates(),
            texts_of(r@).to_set() == self.roles().dom(),
    ;
}

/// Per-subject authority: assigned roles, permissions added, permissions denied.
///
/// A read that fails is a failure, never an empty answer; a subject without a row
/// has an empty answer.
pub trait AssignmentStore<S: Subject, P: Permission>: Sized {
    /// Whether the value is well formed.
    open spec fn wf(&self) -> bool {
        true
    }

    /// What reading the roles of a subject id gives.
    open spec fn roles_read(&self, subject: Seq<char>) -> Result<Set<Seq<char>>, ErrorView> {
        arbitrary()
    }

    /// What reading the added permissions of a subject id gives.
    open spec fn extra_read(&self, subject: Seq<char>) -> Result<Set<P::Id>, ErrorView> {
        arbitrary()
    }

    /// What reading the denied permissions of a subject id gives.
    open spec fn denied_read(&self, subject: Seq<char>) -> Result<Set<P::Id>, ErrorView> {
        arbitrary()
    }

    /// The roles that a subject holds.
    fn roles_of(&self, subject: &S) -> (r: Result<Vec<String>, KirinoError>)
        requires
            self.wf(),
        ensures
            match r {
                Ok(names) => self.roles_read(subject.id_text()) == Ok::<Set<Seq<char>>, ErrorView>(
                    texts_of(names@).to_set(),
                ),
                Err(e) => self.roles_read(subject.id_text()) == Err::<Set<Seq<char>>, ErrorView>(e@),
            },
    ;

    /// The permissions that a subject has on top of its roles.
    fn extra_permissions(&self, subject: &S) -> (r: Result<KeySet<P>, KirinoError>)
        requires
            self.wf(),
        ensures
            match r {
                Ok(perms) => perms.wf() && self.extra_read(subject.id_text()) == Ok::<Set<P::Id>, ErrorView>(perms@),
                Err(e) => self.extra_read(subject.id_text()) == Err::<Set<P::Id>, ErrorView>(e@),
            },
    ;

    /// The permissions that a subject is denied.
    fn denied_permissions(&self, subject: &S) -> (r: Result<KeySet<P>, KirinoError>)
        requires
            self.wf(),
        ensures
            match r {
                Ok(perms) => perms.wf() && self.denied_read(subject.id_text()) == Ok::<Set<P::Id>, ErrorView>(perms@),
                Err(e) => self.denied_read(subject.id_text()) == Err::<Set<P::Id>, ErrorView>(e@),
            },
    ;

    /// Gives a subject a role; a role that it has stays as it is.
    fn assign_role(&mut self, subject: &S, role_name: &str) -> (r: Result<(), KirinoError>)
        requires
            old(self).wf(),
        ensures
            final(self).wf(),
            r is Ok ==> (old(self).roles_read(subject.id_text()) matches Ok(before) ==> final(self).roles_read(
                subject.id_text(),
            ) matches Ok(after) ==> after == before.insert(role_name@)),
            forall|s: Seq<char>|
                s != subject.id_text() ==> #[trigger] final(self).roles_read(s) == old(self).roles_read(s),
            forall|s: Seq<char>| #[trigger] final(self).extra_read(s) == old(self).extra_read(s),
            forall|s: Seq<char>| #[trigger] final(self).denied_read(s) == old(self).denied_read(s),
    ;

    /// Takes a role from a subject; nothing changes if the subject does not have it.
    fn revoke_role(&mut self, subject: &S, role_name: &str) -> (r: Result<(), KirinoError>)
        requires
            old(self).wf(),
        ensures
            final(self).wf(),
            r is Ok ==> (old(self).roles_read(subject.id_text()) matches Ok(before) ==> final(self).roles_read(
                subject.id_text(),
            ) matches Ok(after) ==> after == before.remove(role_name@)),
            forall|s: Seq<char>|
                s != subject.id_text() ==> #[trigger] final(self).roles_read(s) == old(self).roles_read(s),
            forall|s: Seq<char>| #[trigger] final(self).extra_read(s) == old(self).extra_read(s),
            forall|s: Seq<char>| #[trigger] final(self).denied_read(s) == old(self).denied_read(s),
    ;

    /// The ids of the subjects that hold a role.
    fn subjects_with_role(&self, role_name: &str) -> (r: Result<Vec<String>, KirinoError>)
        requires
            self.wf(),
        ensures
            r matches Ok(ids) ==> forall|s: Seq<char>| #[trigger]
                self.roles_read(s) matches Ok(roles) ==> (texts_of(ids@).contains(s) <==> roles.contains(role_name@)),
    ;

    /// Replaces the permissions that a subject has on top of its roles.
    fn set_extra_permissions(&mut self, subject: &S, perms: KeySet<P>) -> (r: Result<(), KirinoError>)
        requires
            old(self).wf(),
            perms.wf(),
        ensures
            final(self).wf(),
            r is Ok ==> (final(self).extra_read(subject.id_text()) matches Ok(after) ==> after == perms@),
            forall|s: Seq<char>|
                s != subject.id_text() ==> #[trigger] final(self).extra_read(s) == old(self).extra_read(s),
            forall|s: Seq<char>| #[trigger] final(self).roles_read(s) == old(self).roles_read(s),
            forall|s: Seq<char>| #[trigger] final(self).denied_read(s) == old(self).denied_read(s),
    ;

    /// Replaces the permissions that a subject is denied.
    fn set_denied_permissions(&mut self, subject: &S, perms: KeySet<P>) -> (r: Result<(), KirinoError>)
        requires
            old(self).wf(),
            perms.wf(),
        ensures
            final(self).wf(),
            r is Ok ==> (final(self).denied_read(subject.id_text()) matches Ok(after) ==> after == perms@),
            forall|s: Seq<char>|
                s != subject.id_text() ==> #[trigger] final(self).denied_read(s) == old(self).denied_read(s),
            forall|s: Seq<char>| #[trigger] final(self).roles_read(s) == old(self).roles_read(s),
            forall|s: Seq<char>| #[trigger] final(self).extra_read(s) == old(self).extra_read(s),
    ;
}

/// Where role definitions are kept.
///
/// A call that fails is a failure, never an empty answer; an unknown role has no permissions.
pub trait RoleStore<P: Permission>: Sized {
    /// Whether the value is well formed.
    open spec fn wf(&self) -> bool {
        true
    }

    /// What reading a role of a name gives; none where there is no such role.
    open spec fn role_read(&self, name: Seq<char>) -> Result<Option<Set<P::Id>>, ErrorView> {
        arbitrary()
    }

    /// Defines a role, in place of the one that had the name.
    fn create_role(&mut self, role_name: &str, permissions: KeySet<P>) -> (r: Result<(), KirinoError>)
        requires
            old(self).wf(),
            permissions.wf(),
        ensures
            final(self).wf(),
            r is Ok ==> (final(self).role_read(role_name@) matches Ok(after) ==> after == Some(permissions@)),
            forall|name: Seq<char>|
                name != role_name@ ==> #[trigger] final(self).role_read(name) == old(self).role_read(name),
    ;

    /// Removes a role; false if there was none of the name.
    fn delete_role(&mut self, role_name: &str) -> (r: Result<bool, KirinoError>)
        requires
            old(self).wf(),
        ensures
            final(self).wf(),
            r matches Ok(found) ==> (old(self).role_read(role_name@) matches Ok(before) ==> found == (before is Some)),
            r is Ok ==> (final(self).role_read(role_name@) matches Ok(after) ==> after is None),
            forall|name: Seq<char>|
                name != role_name@ ==> #[trigger] final(self).role_read(name) == old(self).role_read(name),
    ;

    /// The permissions of a role; none for an unknown role.
    fn get_role_permissions(&self, role_name: &str) -> (r: Result<Option<KeySet<P>>, KirinoError>)
        requires
            self.wf(),
        ensures
            match r {
                Ok(Some(perms)) => perms.wf() && self.role_read(role_name@) == Ok::<Option<Set<P::Id>>, ErrorView>(
                    Some(perms@),
                ),
                Ok(None) => self.role_read(role_name@) == Ok::<Option<Set<P::Id>>, ErrorView>(None),
                Err(e) => self.role_read(role_name@) == Err::<Option<Set<P::Id>>, ErrorView>(e@),
            },
    ;

    /// The names of the roles.
    fn list_roles(&self) -> (r: Result<Vec<String>, KirinoError>)
        requires
            self.wf(),
        ensures
            r matches Ok(names) ==> forall|name: Seq<char>| #[trigger]
                self.role_read(name) matches Ok(role) ==> (texts_of(names@).contains(name) <==> role is Some),
    ;
}

/// System-wide role of a subject.
#[derive(Debug, Clone, Copy, PartialEq, Eq, Hash, Structural)]
pub enum SystemRole {
    /// Bypasses grant resolution.
    Admin,
    /// Authority comes from grants.
    Operator,
    /// Authority comes from grants.
    Member,
    /// Authority comes from grants.
    Viewer,
}

impl SystemRole {
    /// The persisted name.
    pub open spec fn text(self) -> Seq<char> {
        match self {
            SystemRole::Admin => "admin"@,
            SystemRole::Operator => "operator"@,
            SystemRole::Member => "member"@,
            SystemRole::Viewer => "viewer"@,
        }
    }

    /// The role of a persisted name.
    pub open spec fn of_text(s: Seq<char>) -> Option<SystemRole> {
        if s == "admin"@ {
            Some(SystemRole::Admin)
        } else if s == "operator"@ {
            Some(SystemRole::Operator)
        } else if s == "member"@ {
            Some(SystemRole::Member)
        } else if s == "viewer"@ {
            Some(SystemRole::Viewer)
        } else {
            None
        }
    }

    /// The role of a persisted name; the match is exact.
    pub fn from_str_lossy(s: &str) -> (r: Option<Self>)
        ensures
            r == SystemRole::of_text(s@),
    {
        if crate::text::same_text(s, "admin") {
            Some(SystemRole::Admin)
        } else if crate::text::same_text(s, "operator") {
            Some(SystemRole::Operator)
        } else if crate::text::same_text(s, "member") {
            Some(SystemRole::Member)
        } else if crate::text::same_text(s, "viewer") {
            Some(SystemRole::Viewer)
        } else {
            None
        }
    }

    /// The persisted name.
    pub fn as_str(&self) -> (r: &'static str)
        ensures
            r@ == self.text(),
    {
        match *self {
            SystemRole::Admin => "admin",
            SystemRole::Operator => "operator",
            SystemRole::Member => "member",
            SystemRole::Viewer => "viewer",
        }
    }
}

/// The name of a system role reads back as that role, and no other name does.
pub proof fn law_system_role_name_round_trip(role: SystemRole, s: Seq<char>)
    ensures
        SystemRole::of_text(role.text()) == Some(role),
        SystemRole::of_text(s) == Some(role) ==> s == role.text(),
{
    reveal_strlit("admin");
    reveal_strlit("operator");
    reveal_strlit("member");
    reveal_strlit("viewer");
    assert("admin"@[0] == 'a' && "operator"@[0] == 'o' && "member"@[0] == 'm' && "viewer"@[0] == 'v');
}

/// Role of a subject inside one workspace, from least to most privileged.
#[derive(Debug, Clone, Copy, PartialEq, Eq, PartialOrd, Ord, Hash, Structural)]
pub enum WorkspaceRole {
    /// Lists and reads.
    Viewer,
    /// Acts on resources.
    Operator,
    /// Manages the workspace.
    Owner,
}

impl WorkspaceRole {
    /// The persisted name.
    pub open spec fn text(self) -> Seq<char> {
        match self {
            WorkspaceRole::Viewer => "viewer"@,
            WorkspaceRole::Operator => "operator"@,
            WorkspaceRole::Owner => "owner"@,
        }
    }

    /// The role of a persisted name.
    pub open spec fn of_text(s: Seq<char>) -> Option<WorkspaceRole> {
        if s == "viewer"@ {
            Some(WorkspaceRole::Viewer)
        } else if s == "operator"@ {
            Some(WorkspaceRole::Operator)
        } else if s == "owner"@ {
            Some(WorkspaceRole::Owner)
        } else {
            None
        }
    }

    /// The role of a persisted name; the match is exact.
    pub fn from_str_lossy(s: &str) -> (r: Option<Self>)
        ensures
            r == WorkspaceRole::of_text(s@),
    {
        if crate::text::same_text(s, "viewer") {
            Some(WorkspaceRole::Viewer)
        } else if crate::text::same_text(s, "operator") {
            Some(WorkspaceRole::Operator)
        } else if crate::text::same_text(s, "owner") {
            Some(WorkspaceRole::Owner)
        } else {
            None
        }
    }

    /// The persisted name.
    pub fn as_str(&self) -> (r: &'static str)
        ensures
            r@ == self.text(),
    {
        match *self {
            WorkspaceRole::Viewer => "viewer",
            WorkspaceRole::Operator => "operator",
            WorkspaceRole::Owner => "owner",
        }
    }
}

/// The name of a workspace role reads back as that role, and no other name does.
pub proof fn law_workspace_role_name_round_trip(role: WorkspaceRole, s: Seq<char>)
    ensures
        WorkspaceRole::of_text(role.text()) == Some(role),
        WorkspaceRole::of_text(s) == Some(role) ==> s == role.text(),
{
    reveal_strlit("viewer");
    reveal_strlit("operator");
    reveal_strlit("owner");
    assert("viewer"@[0] == 'v' && "operator"@[1] == 'p' && "owner"@[1] == 'w');
}

/// What a scoped decision needs about the acting subject.
pub struct PermissionContext {
    /// The authenticated principal.
    pub user_id: u128,
    /// System-wide role.
    pub system_role: SystemRole,
    /// Groups that the subject belongs to.
    pub group_ids: Vec<u128>,
    /// Workspace of the request, if any.
    pub workspace_id: Option<u128>,
    /// Role inside that workspace, if any.
    pub workspace_role: Option<WorkspaceRole>,
    /// Version of the subject's authority when the session was made.
    pub session_version: u64,
    /// Current version of the subject's authority.
    pub current_user_version: u64,
}

impl PermissionContext {
    /// Whether the session is older than the subject's current authority.
    pub open spec fn stale(&self) -> bool {
        self.session_version < self.current_user_version
    }

    /// Whether the session is older than the subject's current authority.
    pub fn is_session_stale(&self) -> (r: bool)
        ensures
            r == self.stale(),
    {
        self.session_version < self.current_user_version
    }
}

/// What granted or denied.
#[derive(Debug, Clone, Copy, PartialEq, Eq, Structural)]
pub enum GrantSource {
    /// A role that the subject holds.
    RoleDefault,
    /// A grant to the subject with global scope.
    GlobalGrant,
    /// A grant to a group of the subject.
    GroupGrant,
    /// A grant to the subject.
    UserGrant,
    /// The role inside a workspace.
    WorkspaceRole,
    /// A grant inside one workspace.
    WorkspaceGrant,
    /// The subject is an administrator.
    AdminBypass,
}

/// Outcome of a decision.
#[derive(Debug)]
#[allow(inconsistent_fields)]
pub enum PermissionDecision {
    /// The permission is granted.
    Granted {
        /// Why, for audit.
        reason: String,
        /// What granted.
        source: GrantSource,
    },
    /// The permission is denied.
    Denied {
        /// Why, for audit.
        reason: String,
        /// What denied, when something was reached.
        source: Option<GrantSource>,
    },
}

/// The outcome of a decision with its reason as characters.
#[allow(inconsistent_fields)]
pub enum DecisionView {
    /// See [`PermissionDecision::Granted`].
    Granted { reason: Seq<char>, source: GrantSource },
    /// See [`PermissionDecision::Denied`].
    Denied { reason: Seq<char>, source: Option<GrantSource> },
}

impl View for PermissionDecision {
    type V = DecisionView;

    open spec fn view(&self) -> DecisionView {
        match *self {
            PermissionDecision::Granted { reason, source } => DecisionView::Granted { reason: reason@, source },
            PermissionDecision::Denied { reason, source } => DecisionView::Denied { reason: reason@, source },
        }
    }
}

/// Decision maker for scoped checks.
pub trait GrantResolver<P: Permission>: Sized {
    /// Whether the value is well formed.
    open spec fn wf(&self) -> bool {
        true
    }

    /// The decision on a permission.
    open spec fn decision(
        &self,
        ctx: PermissionContext,
        permission: P,
        resource: Option<Seq<char>>,
    ) -> Result<DecisionView, ErrorView> {
        arbitrary()
    }

    /// Decides on a permission, for one resource where one is given.
    fn resolve(
        &self,
        ctx: &PermissionContext,
        permission: &P,
        resource_id: Option<&str>,
    ) -> (r: Result<PermissionDecision, KirinoError>)
        requires
            self.wf(),
        ensures
            decision_shown(r) == self.decision(*ctx, *permission, crate::text::str_text(resource_id)),
    ;
}

/// The result of a decision with texts as characters.
pub open spec fn decision_shown(r: Result<PermissionDecision, KirinoError>) -> Result<DecisionView, ErrorView> {
    match r {
        Ok(d) => Ok(d@),
        Err(e) => Err(e@),
    }
}

/// A session is stale exactly if the subject's authority has been counted on since it was made.
pub proof fn law_stale_session(ctx: &PermissionContext, r: bool)
    requires
        call_ensures(PermissionContext::is_session_stale, (ctx,), r),
    ensures
        r <==> ctx.session_version < ctx.current_user_version,
{
}

/// Each system role is read back of its name, and of no other text.
pub proof fn law_system_roles_are_read_of_their_names(role: SystemRole, name: &'static str, s: &str, r: Option<SystemRole>)
    requires
        call_ensures(SystemRole::as_str, (&role,), name),
        call_ensures(SystemRole::from_str_lossy, (s,), r),
    ensures
        name@ == (match role {
            SystemRole::Admin => "admin"@,
            SystemRole::Operator => "operator"@,
            SystemRole::Member => "member"@,
            SystemRole::Viewer => "viewer"@,
        }),
        r == Some(role) <==> s@ == name@,
        r is None <==> s@ != "admin"@ && s@ != "operator"@ && s@ != "member"@ && s@ != "viewer"@,
{
    law_system_role_name_round_trip(role, s@);
}

/// Each workspace role is read back of its name, and of no other text.
pub proof fn law_workspace_roles_are_read_of_their_names(
    role: WorkspaceRole,
    name: &'static str,
    s: &str,
    r: Option<WorkspaceRole>,
)
    requires
        call_ensures(WorkspaceRole::as_str, (&role,), name),
        call_ensures(WorkspaceRole::from_str_lossy, (s,), r),
    ensures
        name@ == (match role {
            WorkspaceRole::Viewer => "viewer"@,
            WorkspaceRole::Operator => "operator"@,
            WorkspaceRole::Owner => "owner"@,
        }),
        r == Some(role) <==> s@ == name@,
        r is None <==> s@ != "viewer"@ && s@ != "operator"@ && s@ != "owner"@,
{
    law_workspace_role_name_round_trip(role, s@);
}

/// A decision is seen as what it is, with its reason and what it came from.
pub proof fn law_decisions_are_told_apart(d: PermissionDecision)
    ensures
        match d {
            PermissionDecision::Granted { reason, source } => d@ == (DecisionView::Granted { reason: reason@, source }),
            PermissionDecision::Denied { reason, source } => d@ == (DecisionView::Denied { reason: reason@, source }),
        },
{
}

/// A text is a subject of its own, and of the kind of a person.
pub proof fn law_text_is_a_subject(
    text: &String,
    id: &str,
    kind: &'static str,
    name: &str,
    read: String,
    tried: Result<String, KirinoError>,
)
    requires
        call_ensures(<String as Subject>::subject_id, (text,), id),
        call_ensures(<String as Subject>::subject_type, (text,), kind),
        call_ensures(<String as Subject>::from_subject_id, (name,), read),
        call_ensures(<String as Subject>::try_from_subject_id, (name,), tried),
    ensures
        id@ == text@ && kind@ == "user"@,
        read@ == name@,
        tried matches Ok(s) && s@ == name@,
{
}

} // verus!
