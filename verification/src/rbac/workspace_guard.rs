//! Workspace membership: which role a subject has in a workspace, and what it allows there.
//!
//! A permission has to be held globally and be allowed by the workspace role. Direct
//! membership comes before a group grant; without either there is no role.
use crate::collections::{Key, Table};
use crate::error::{ErrorView, KirinoError};
use crate::rbac::constraints::policies::holds_text;
use vstd::prelude::*;

verus! {

/// Role inside a workspace, from least to most privileged.
#[derive(Debug, Clone, Copy, PartialEq, Eq, PartialOrd, Ord, Hash, Structural)]
pub enum WorkspaceRole {
    /// Reads.
    Viewer,
    /// Operates.
    Operator,
    /// Controls.
    Owner,
}

impl WorkspaceRole {
    /// The canonical name.
    pub open spec fn text(self) -> Seq<char> {
        match self {
            WorkspaceRole::Viewer => "viewer"@,
            WorkspaceRole::Operator => "operator"@,
            WorkspaceRole::Owner => "owner"@,
        }
    }

    /// The role of a name.
    pub open spec fn of_text(s: Seq<char>) -> Option<WorkspaceRole> {
        if s == "owner"@ {
            Some(WorkspaceRole::Owner)
        } else if s == "operator"@ {
            Some(WorkspaceRole::Operator)
        } else if s == "viewer"@ {
            Some(WorkspaceRole::Viewer)
        } else {
            None
        }
    }

    /// The canonical name.
    pub fn as_str(self) -> (r: &'static str)
        ensures
            r@ == self.text(),
    {
        match self {
            WorkspaceRole::Viewer => "viewer",
            WorkspaceRole::Operator => "operator",
            WorkspaceRole::Owner => "owner",
        }
    }

    /// The role of a name; the match is exact.
    pub fn from_str_lossy(s: &str) -> (r: Option<Self>)
        ensures
            r == WorkspaceRole::of_text(s@),
    {
        if crate::text::same_text(s, "owner") {
            Some(WorkspaceRole::Owner)
        } else if crate::text::same_text(s, "operator") {
            Some(WorkspaceRole::Operator)
        } else if crate::text::same_text(s, "viewer") {
            Some(WorkspaceRole::Viewer)
        } else {
            None
        }
    }
}

/// The name of a role reads back as that role, and no other name does.
pub proof fn law_role_name_round_trip(role: WorkspaceRole, s: Seq<char>)
    ensures
        WorkspaceRole::of_text(role.text()) == Some(role),
        WorkspaceRole::of_text(s) == Some(role) ==> s == role.text(),
{
    reveal_strlit("viewer");
    reveal_strlit("operator");
    reveal_strlit("owner");
    assert("viewer"@[0] == 'v' && "operator"@[1] == 'p' && "owner"@[1] == 'w');
}

/// A permission that may be bound to a workspace.
pub trait ScopedPermission: Sized {
    /// The name.
    open spec fn name_text(&self) -> Seq<char> {
        arbitrary()
    }

    /// The name.
    fn name(&self) -> (r: &str)
        ensures
            r@ == self.name_text(),
    ;

    /// Whether the permission means something only inside a workspace; advisory.
    fn requires_workspace(&self) -> (r: bool)
        default_ensures
            !r,
    {
        false
    }
}

/// What a role allows, by the name of the permission.
pub open spec fn allows(role: WorkspaceRole, name: Seq<char>) -> bool {
    match role {
        WorkspaceRole::Owner => true,
        WorkspaceRole::Operator => !crate::text::has_prefix(name, "workspace.manage"@) && !crate::text::has_prefix(
            name,
            "rbac."@,
        ),
        WorkspaceRole::Viewer => crate::text::has_suffix(name, ".list"@) || crate::text::has_suffix(name, ".read"@)
            || crate::text::has_prefix(name, "device.list"@),
    }
}

/// Whether a role allows a permission.
pub fn role_can<P: ScopedPermission>(role: WorkspaceRole, perm: &P) -> (r: bool)
    ensures
        r == allows(role, perm.name_text()),
{
    let name = perm.name();
    match role {
        WorkspaceRole::Owner => true,
        WorkspaceRole::Operator => !crate::text::starts_with(name, "workspace.manage") && !crate::text::starts_with(
            name,
            "rbac.",
        ),
        WorkspaceRole::Viewer => crate::text::ends_with(name, ".list") || crate::text::ends_with(name, ".read")
            || crate::text::starts_with(name, "device.list"),
    }
}

/// Where memberships are read from. A read that fails is a failure, never an absence.
pub trait WorkspaceStore<S: Key, W: Key>: Sized {
    /// Whether the value is well formed.
    open spec fn wf(&self) -> bool {
        true
    }

    /// What reading a direct membership gives.
    open spec fn direct_read(&self, subject: S::Id, workspace: W::Id) -> Result<Option<WorkspaceRole>, ErrorView> {
        arbitrary()
    }

    /// What reading a group grant gives.
    open spec fn group_read(&self, subject: S::Id, workspace: W::Id) -> Result<Option<WorkspaceRole>, ErrorView> {
        arbitrary()
    }

    /// What listing the workspaces of a subject gives.
    open spec fn list_read(&self, subject: S::Id) -> Result<Set<W::Id>, ErrorView> {
        arbitrary()
    }

    /// The role by direct membership.
    fn direct_membership(&self, subject: &S, workspace: &W) -> (r: Result<Option<WorkspaceRole>, KirinoError>)
        requires
            self.wf(),
        ensures
            role_shown(r) == self.direct_read(subject.id(), workspace.id()),
    ;

    /// The role by a group grant.
    fn group_grants(&self, subject: &S, workspace: &W) -> (r: Result<Option<WorkspaceRole>, KirinoError>)
        requires
            self.wf(),
        ensures
            role_shown(r) == self.group_read(subject.id(), workspace.id()),
    ;

    /// The workspaces that are listed for a subject, none of them twice.
    fn accessible_workspaces(&self, subject: &S) -> (r: Result<Vec<W>, KirinoError>)
        requires
            self.wf(),
        ensures
            match r {
                Ok(list) => {
                    &&& crate::collections::ids_of(list@).no_duplicates()
                    &&& self.list_read(subject.id()) == Ok::<Set<W::Id>, ErrorView>(
                        crate::collections::ids_of(list@).to_set(),
                    )
                },
                Err(e) => self.list_read(subject.id()) == Err::<Set<W::Id>, ErrorView>(e@),
            },
    ;
}

/// A role that was read, with its failure as characters.
pub open spec fn role_shown(r: Result<Option<WorkspaceRole>, KirinoError>) -> Result<Option<WorkspaceRole>, ErrorView> {
    match r {
        Ok(role) => Ok(role),
        Err(e) => Err(e@),
    }
}

/// The role of a subject in a workspace: by membership, else by group.
pub open spec fn resolved_role<S: Key, W: Key, T: WorkspaceStore<S, W>>(store: &T, subject: S::Id, workspace: W::Id) -> Result<
    Option<WorkspaceRole>,
    ErrorView,
> {
    match store.direct_read(subject, workspace) {
        Err(e) => Err(e),
        Ok(Some(role)) => Ok(Some(role)),
        Ok(None) => store.group_read(subject, workspace),
    }
}

/// What a check comes to.
pub open spec fn check_outcome<S: Key, W: Key, T: WorkspaceStore<S, W>>(
    store: &T,
    subject: S::Id,
    workspace: W::Id,
    name: Seq<char>,
    global: Seq<Seq<char>>,
) -> Result<bool, ErrorView> {
    if !global.contains(name) {
        Ok(false)
    } else {
        match resolved_role::<S, W, T>(store, subject, workspace) {
            Err(e) => Err(e),
            Ok(None) => Ok(false),
            Ok(Some(role)) => Ok(allows(role, name)),
        }
    }
}

/// The checks over one store.
pub struct WorkspaceGuard<S, W, Store> {
    store: Store,
    marker: std::marker::PhantomData<(S, W)>,
}

impl<S: Key, W: Key, Store: WorkspaceStore<S, W>> WorkspaceGuard<S, W, Store> {
    /// The store that is read.
    pub closed spec fn source(&self) -> Store {
        self.store
    }

    /// The checks over a store.
    pub fn new(store: Store) -> (r: Self)
        ensures
            r.source() == store,
    {
        WorkspaceGuard { store, marker: std::marker::PhantomData }
    }

    /// Whether a subject that holds the given global permissions has one in a workspace.
    pub fn check<P: ScopedPermission>(
        &self,
        subject: &S,
        permission: &P,
        workspace: &W,
        global_permissions: &[String],
    ) -> (r: Result<bool, KirinoError>)
        requires
            self.source().wf(),
        ensures
            match r {
                Ok(b) => check_outcome::<S, W, Store>(
                    &self.source(),
                    subject.id(),
                    workspace.id(),
                    permission.name_text(),
                    crate::rbac::traits::texts_of(global_permissions@),
                ) == Ok::<bool, ErrorView>(b),
                Err(e) => check_outcome::<S, W, Store>(
                    &self.source(),
                    subject.id(),
                    workspace.id(),
                    permission.name_text(),
                    crate::rbac::traits::texts_of(global_permissions@),
                ) == Err::<bool, ErrorView>(e@),
            },
    {
        if !holds_text(global_permissions, permission.name()) {
            return Ok(false);
        }
        match self.resolve_workspace_role(subject, workspace) {
            Ok(Some(role)) => Ok(role_can(role, permission)),
            Ok(None) => Ok(false),
            Err(e) => Err(e),
        }
    }

    /// The role of a subject in a workspace.
    pub fn resolve_workspace_role(&self, subject: &S, workspace: &W) -> (r: Result<Option<WorkspaceRole>, KirinoError>)
        requires
            self.source().wf(),
        ensures
            role_shown(r) == resolved_role::<S, W, Store>(&self.source(), subject.id(), workspace.id()),
    {
        match self.store.direct_membership(subject, workspace) {
            Ok(Some(role)) => Ok(Some(role)),
            Ok(None) => self.store.group_grants(subject, workspace),
            Err(e) => Err(e),
        }
    }

    /// The workspaces that the store lists for a subject.
    pub fn accessible_workspaces(&self, subject: &S) -> (r: Result<Vec<W>, KirinoError>)
        requires
            self.source().wf(),
        ensures
            match r {
                Ok(list) => {
                    &&& crate::collections::ids_of(list@).no_duplicates()
                    &&& self.source().list_read(subject.id()) == Ok::<Set<W::Id>, ErrorView>(
                        crate::collections::ids_of(list@).to_set(),
                    )
                },
                Err(e) => self.source().list_read(subject.id()) == Err::<Set<W::Id>, ErrorView>(e@),
            },
    {
        self.store.accessible_workspaces(subject)
    }
}

/// Memberships and group grants held in memory.
pub struct InMemoryWorkspaceStore<S, W> {
    members: Table<(S, W), WorkspaceRole>,
    group_grants: Table<(S, W), WorkspaceRole>,
}

/// The role that a table of roles has for a pair.
pub open spec fn role_at<A>(m: Map<A, WorkspaceRole>, k: A) -> Option<WorkspaceRole> {
    if m.contains_key(k) {
        Some(m[k])
    } else {
        None
    }
}

/// The second of each pair whose first is given.
pub open spec fn seconds_of<A, B>(m: Map<(A, B), WorkspaceRole>, a: A) -> Set<B> {
    Set::new(|b: B| m.contains_key((a, b)))
}

impl<S: Key, W: Key> InMemoryWorkspaceStore<S, W> {
    /// The role of each direct member.
    pub closed spec fn member_rows(&self) -> Map<(S::Id, W::Id), WorkspaceRole> {
        self.members@
    }

    /// The role of each group grant.
    pub closed spec fn group_rows(&self) -> Map<(S::Id, W::Id), WorkspaceRole> {
        self.group_grants@
    }

    /// A store without rows.
    pub fn new() -> (r: Self)
        ensures
            r.wf(),
            r.member_rows() == Map::<(S::Id, W::Id), WorkspaceRole>::empty(),
            r.group_rows() == Map::<(S::Id, W::Id), WorkspaceRole>::empty(),
    {
        InMemoryWorkspaceStore { members: Table::new(), group_grants: Table::new() }
    }

    /// Makes a subject a member, in place of the role that it had.
    pub fn add_member(&mut self, subject: S, workspace: W, role: WorkspaceRole)
        requires
            old(self).wf(),
        ensures
            final(self).wf(),
            final(self).member_rows() == old(self).member_rows().insert((subject.id(), workspace.id()), role),
            final(self).group_rows() == old(self).group_rows(),
    {
        let _ = self.members.insert((subject, workspace), role);
    }

    /// Grants a group a role, in place of the one that it had.
    pub fn add_group_grant(&mut self, group_id: S, workspace: W, role: WorkspaceRole)
        requires
            old(self).wf(),
        ensures
            final(self).wf(),
            final(self).member_rows() == old(self).member_rows(),
            final(self).group_rows() == old(self).group_rows().insert((group_id.id(), workspace.id()), role),
    {
        let _ = self.group_grants.insert((group_id, workspace), role);
    }
}

impl<S: Key, W: Key> Default for InMemoryWorkspaceStore<S, W> {
    /// A store without rows.
    fn default() -> (r: Self)
        ensures
            r.wf(),
            r.member_rows() == Map::<(S::Id, W::Id), WorkspaceRole>::empty(),
            r.group_rows() == Map::<(S::Id, W::Id), WorkspaceRole>::empty(),
    {
        Self::new()
    }
}

impl<S: Key, W: Key> WorkspaceStore<S, W> for InMemoryWorkspaceStore<S, W> {
    closed spec fn wf(&self) -> bool {
        self.members.wf() && self.group_grants.wf()
    }

    open spec fn direct_read(&self, subject: S::Id, workspace: W::Id) -> Result<Option<WorkspaceRole>, ErrorView> {
        Ok(role_at(self.member_rows(), (subject, workspace)))
    }

    open spec fn group_read(&self, subject: S::Id, workspace: W::Id) -> Result<Option<WorkspaceRole>, ErrorView> {
        Ok(role_at(self.group_rows(), (subject, workspace)))
    }

    open spec fn list_read(&self, subject: S::Id) -> Result<Set<W::Id>, ErrorView> {
        Ok(seconds_of(self.member_rows(), subject))
    }

    fn direct_membership(&self, subject: &S, workspace: &W) -> (r: Result<Option<WorkspaceRole>, KirinoError>) {
        match self.members.get(&(subject.duplicate(), workspace.duplicate())) {
            Some(role) => Ok(Some(*role)),
            None => Ok(None),
        }
    }

    fn group_grants(&self, subject: &S, workspace: &W) -> (r: Result<Option<WorkspaceRole>, KirinoError>) {
        match self.group_grants.get(&(subject.duplicate(), workspace.duplicate())) {
            Some(role) => Ok(Some(*role)),
            None => Ok(None),
        }
    }

    fn accessible_workspaces(&self, subject: &S) -> (r: Result<Vec<W>, KirinoError>) {
        let mut list: Vec<W> = Vec::new();
        let mut i: usize = 0;
        let ghost pairs = self.members.ids();
        while i < self.members.len()
            invariant
                self.wf(),
                pairs == self.members.ids(),
                i <= pairs.len(),
                crate::collections::ids_of(list@).no_duplicates(),
                forall|w: W::Id| #[trigger]
                    crate::collections::ids_of(list@).contains(w) <==> pairs.take(i as int).contains((subject.id(), w)),
            decreases pairs.len() - i,
        {
            let ghost before = crate::collections::ids_of(list@);
            let ghost pair = pairs[i as int];
            let key = self.members.key_at(i);
            proof {
                assert forall|p: (S::Id, W::Id)| #[trigger] pairs.take(i + 1).contains(p) <==> (pairs.take(i as int).contains(p)
                    || p == pair) by {
                    crate::collections::lemma_take_next_to_set(pairs, i as int);
                    assert(pairs.take(i + 1).to_set().contains(p) == pairs.take(i as int).to_set().insert(pair).contains(p));
                }
                assert(!pairs.take(i as int).contains(pair)) by {
                    if pairs.take(i as int).contains(pair) {
                        let j = choose|j: int| 0 <= j < i && pairs.take(i as int)[j] == pair;
                        assert(pairs[j] == pairs[i as int]);
                    }
                }
            }
            if key.0.same(subject) {
                list.push(key.1.duplicate());
                proof {
                    let after = crate::collections::ids_of(list@);
                    assert(after =~= before.push(pair.1));
                    assert(!before.contains(pair.1));
                    assert forall|w: W::Id| #[trigger] after.contains(w) <==> (before.contains(w) || w == pair.1) by {
                        if before.contains(w) {
                            let j = choose|j: int| 0 <= j < before.len() && before[j] == w;
                            assert(after[j] == w);
                        }
                        if w == pair.1 {
                            assert(after[before.len() as int] == w);
                        }
                    }
                }
            }
            i = i + 1;
        }
        proof {
            assert(pairs.take(pairs.len() as int) =~= pairs);
            assert(crate::collections::ids_of(list@).to_set() =~= seconds_of(self.member_rows(), subject.id()));
        }
        Ok(list)
    }
}

/// A workspace role adds nothing to what is held globally: without the global permission the
/// answer is no, whatever the role.
pub proof fn law_global_permission_is_required<S: Key, W: Key, T: WorkspaceStore<S, W>>(
    store: &T,
    subject: S::Id,
    workspace: W::Id,
    name: Seq<char>,
    global: Seq<Seq<char>>,
)
    requires
        !global.contains(name),
    ensures
        check_outcome::<S, W, T>(store, subject, workspace, name, global) == Ok::<bool, ErrorView>(false),
{
}

/// A direct membership is neither raised nor lowered by a group grant.
pub proof fn law_membership_beats_group<S: Key, W: Key, T: WorkspaceStore<S, W>>(
    store: &T,
    subject: S::Id,
    workspace: W::Id,
    role: WorkspaceRole,
)
    requires
        store.direct_read(subject, workspace) == Ok::<Option<WorkspaceRole>, ErrorView>(Some(role)),
    ensures
        resolved_role::<S, W, T>(store, subject, workspace) == Ok::<Option<WorkspaceRole>, ErrorView>(Some(role)),
{
}

/// Without a membership and without a group grant the answer is no.
pub proof fn law_no_role_denies<S: Key, W: Key, T: WorkspaceStore<S, W>>(
    store: &T,
    subject: S::Id,
    workspace: W::Id,
    name: Seq<char>,
    global: Seq<Seq<char>>,
)
    requires
        store.direct_read(subject, workspace) == Ok::<Option<WorkspaceRole>, ErrorView>(None),
        store.group_read(subject, workspace) == Ok::<Option<WorkspaceRole>, ErrorView>(None),
    ensures
        check_outcome::<S, W, T>(store, subject, workspace, name, global) == Ok::<bool, ErrorView>(false),
{
}

/// An owner may do all that any other role may.
pub proof fn law_owner_allows_what_others_allow(role: WorkspaceRole, name: Seq<char>)
    requires
        allows(role, name),
    ensures
        allows(WorkspaceRole::Owner, name),
{
}

/// Whether a name is one that an operator is kept from: it begins with `workspace.manage` or `rbac.`.
pub open spec fn is_management(name: Seq<char>) -> bool {
    (exists|rest: Seq<char>| name == #[trigger] ("workspace.manage"@ + rest)) || (exists|rest: Seq<char>|
        name == #[trigger] ("rbac."@ + rest))
}

/// Whether a name is one that a viewer may: it ends in `.list` or `.read`, or begins with
/// `device.list`.
pub open spec fn is_viewing(name: Seq<char>) -> bool {
    (exists|front: Seq<char>| name == #[trigger] (front + ".list"@)) || (exists|front: Seq<char>|
        name == #[trigger] (front + ".read"@)) || (exists|rest: Seq<char>| name == #[trigger] ("device.list"@ + rest))
}

/// What each role may, by the name of the permission: an owner everything, an operator everything but
/// management, a viewer what is viewing.
pub proof fn law_roles_may<P: ScopedPermission>(role: WorkspaceRole, perm: &P, r: bool)
    requires
        call_ensures(role_can::<P>, (role, perm), r),
    ensures
        role is Owner ==> r,
        role is Operator ==> (r <==> !is_management(perm.name_text())),
        role is Viewer ==> (r <==> is_viewing(perm.name_text())),
{
    lemma_names(perm.name_text());
}

proof fn lemma_names(name: Seq<char>)
    ensures
        allows(WorkspaceRole::Owner, name),
        allows(WorkspaceRole::Operator, name) <==> !is_management(name),
        allows(WorkspaceRole::Viewer, name) <==> is_viewing(name),
{
    crate::text::lemma_prefix_rest(name, "workspace.manage"@);
    crate::text::lemma_prefix_rest(name, "rbac."@);
    crate::text::lemma_prefix_rest(name, "device.list"@);
    crate::text::lemma_suffix_front(name, ".list"@);
    crate::text::lemma_suffix_front(name, ".read"@);
}

/// A check says yes exactly if the permission is held globally, and the role of the subject in the
/// workspace allows it. The role is that of its membership, and only without one that of a group. A
/// read that fails is reported, unless the permission is not held in the first place.
pub proof fn law_workspace_check<S: Key, W: Key, T: WorkspaceStore<S, W>, P: ScopedPermission>(
    guard: &WorkspaceGuard<S, W, T>,
    subject: &S,
    permission: &P,
    workspace: &W,
    global_permissions: &[String],
    r: Result<bool, KirinoError>,
)
    requires
        call_ensures(
            WorkspaceGuard::<S, W, T>::check::<P>,
            (guard, subject, permission, workspace, global_permissions),
            r,
        ),
    ensures
        ({
            let name = permission.name_text();
            let held = exists|i: int| 0 <= i < global_permissions@.len() && #[trigger] global_permissions@[i]@ == name;
            let direct = guard.source().direct_read(subject.id(), workspace.id());
            let group = guard.source().group_read(subject.id(), workspace.id());
            let role = if direct is Ok && direct->Ok_0 is None {
                group
            } else {
                direct
            };
            &&& !held ==> r == Ok::<bool, KirinoError>(false)
            &&& held && role is Err ==> (r matches Err(e) && e@ == role->Err_0)
            &&& held && role is Ok ==> (r matches Ok(yes) && (yes <==> match role->Ok_0 {
                None => false,
                Some(WorkspaceRole::Owner) => true,
                Some(WorkspaceRole::Operator) => !is_management(name),
                Some(WorkspaceRole::Viewer) => is_viewing(name),
            }))
        }),
{
    let name = permission.name_text();
    let texts = crate::rbac::traits::texts_of(global_permissions@);
    lemma_names(name);
    if texts.contains(name) {
        let i = choose|i: int| 0 <= i < texts.len() && texts[i] == name;
        assert(global_permissions@[i]@ == name);
    }
    if exists|i: int| 0 <= i < global_permissions@.len() && #[trigger] global_permissions@[i]@ == name {
        let i = choose|i: int| 0 <= i < global_permissions@.len() && #[trigger] global_permissions@[i]@ == name;
        assert(texts[i] == name);
    }
}

/// A subject that is made a member has the role given, and so has one by a group; nobody else is
/// concerned, and members find the workspace in their list.
pub proof fn law_membership_is_read_back<S: Key, W: Key>(
    before: InMemoryWorkspaceStore<S, W>,
    joined: InMemoryWorkspaceStore<S, W>,
    granted: InMemoryWorkspaceStore<S, W>,
    subject: S,
    workspace: W,
    role: WorkspaceRole,
    other: (S::Id, W::Id),
)
    requires
        exists|store: &mut InMemoryWorkspaceStore<S, W>|
            *store == before && *final(store) == joined && #[trigger] call_ensures(
                InMemoryWorkspaceStore::<S, W>::add_member,
                (store, subject, workspace, role),
                (),
            ),
        exists|store: &mut InMemoryWorkspaceStore<S, W>|
            *store == before && *final(store) == granted && #[trigger] call_ensures(
                InMemoryWorkspaceStore::<S, W>::add_group_grant,
                (store, subject, workspace, role),
                (),
            ),
        other != (subject.id(), workspace.id()),
    ensures
        joined.direct_read(subject.id(), workspace.id()) == Ok::<Option<WorkspaceRole>, ErrorView>(Some(role)),
        joined.direct_read(other.0, other.1) == before.direct_read(other.0, other.1),
        joined.group_read(subject.id(), workspace.id()) == before.group_read(subject.id(), workspace.id()),
        joined.list_read(subject.id()) matches Ok(list) && list.contains(workspace.id()),
        granted.group_read(subject.id(), workspace.id()) == Ok::<Option<WorkspaceRole>, ErrorView>(Some(role)),
        granted.group_read(other.0, other.1) == before.group_read(other.0, other.1),
        granted.direct_read(subject.id(), workspace.id()) == before.direct_read(subject.id(), workspace.id()),
{
}

/// The names of the roles.
pub proof fn law_role_names(role: WorkspaceRole, name: &'static str, text: &str, read: Option<WorkspaceRole>)
    requires
        call_ensures(WorkspaceRole::as_str, (role,), name),
        call_ensures(WorkspaceRole::from_str_lossy, (text,), read),
    ensures
        role is Viewer ==> name@ == "viewer"@,
        role is Operator ==> name@ == "operator"@,
        role is Owner ==> name@ == "owner"@,
        read == Some(role) <==> text@ == name@,
        read is None ==> text@ != name@,
{
    law_role_name_round_trip(role, text@);
}

/// The role of a subject in a workspace is that of its membership, and only where there is none that of a
/// group; what cannot be read is a failure.
pub proof fn law_role_in_a_workspace<S: Key, W: Key, T: WorkspaceStore<S, W>>(
    guard: &WorkspaceGuard<S, W, T>,
    subject: &S,
    workspace: &W,
    r: Result<Option<WorkspaceRole>, KirinoError>,
    direct: Result<Option<WorkspaceRole>, KirinoError>,
    group: Result<Option<WorkspaceRole>, KirinoError>,
)
    requires
        call_ensures(WorkspaceGuard::<S, W, T>::resolve_workspace_role, (guard, subject, workspace), r),
        call_ensures(T::direct_membership, (&guard.source(), subject, workspace), direct),
        call_ensures(T::group_grants, (&guard.source(), subject, workspace), group),
    ensures
        direct matches Ok(Some(role)) ==> (r matches Ok(Some(found)) && found == role),
        direct matches Err(e) ==> (r matches Err(f) && f@ == e@),
        direct matches Ok(None) ==> match group {
            Ok(role) => r matches Ok(found) && found == role,
            Err(e) => r matches Err(f) && f@ == e@,
        },
{
}

/// The workspaces that are listed for a subject are exactly those that it is a member of, each once.
pub proof fn law_listed_workspaces<S: Key, W: Key>(
    guard: &WorkspaceGuard<S, W, InMemoryWorkspaceStore<S, W>>,
    subject: &S,
    r: Result<Vec<W>, KirinoError>,
    workspace: &W,
    role: Result<Option<WorkspaceRole>, KirinoError>,
)
    requires
        call_ensures(
            WorkspaceGuard::<S, W, InMemoryWorkspaceStore<S, W>>::accessible_workspaces,
            (guard, subject),
            r,
        ),
        call_ensures(InMemoryWorkspaceStore::<S, W>::direct_membership, (&guard.source(), subject, workspace), role),
    ensures
        r is Ok && role is Ok,
        role->Ok_0 is Some <==> exists|i: int| 0 <= i < r->Ok_0@.len() && (#[trigger] r->Ok_0@[i]).id() == workspace.id(),
        forall|i: int, j: int|
            0 <= i < j < r->Ok_0@.len() ==> (#[trigger] r->Ok_0@[i]).id() != (#[trigger] r->Ok_0@[j]).id(),
{
    let ids = crate::collections::ids_of(r->Ok_0@);
    if role->Ok_0 is Some {
        assert(ids.to_set().contains(workspace.id()));
        let i = choose|i: int| 0 <= i < ids.len() && ids[i] == workspace.id();
        assert(r->Ok_0@[i].id() == workspace.id());
    }
    if exists|i: int| 0 <= i < r->Ok_0@.len() && (#[trigger] r->Ok_0@[i]).id() == workspace.id() {
        let i = choose|i: int| 0 <= i < r->Ok_0@.len() && (#[trigger] r->Ok_0@[i]).id() == workspace.id();
        assert(ids[i] == workspace.id());
        assert(ids.to_set().contains(workspace.id()));
    }
    assert forall|i: int, j: int| 0 <= i < j < r->Ok_0@.len() implies (#[trigger] r->Ok_0@[i]).id() != (
    #[trigger] r->Ok_0@[j]).id() by {
        assert(ids[i] != ids[j]);
    }
}

/// A new store makes no one a member of anything; a guard goes by the store that it is made over.
pub proof fn law_new_store_and_guard<S: Key, W: Key, T: WorkspaceStore<S, W>>(
    made: InMemoryWorkspaceStore<S, W>,
    usual: InMemoryWorkspaceStore<S, W>,
    subject: S::Id,
    workspace: W::Id,
    store: T,
    guard: WorkspaceGuard<S, W, T>,
)
    requires
        call_ensures(InMemoryWorkspaceStore::<S, W>::new, (), made),
        call_ensures(InMemoryWorkspaceStore::<S, W>::default, (), usual),
        call_ensures(WorkspaceGuard::<S, W, T>::new, (store,), guard),
    ensures
        !made.member_rows().contains_key((subject, workspace)) && !made.group_rows().contains_key((subject, workspace)),
        !usual.member_rows().contains_key((subject, workspace)) && !usual.group_rows().contains_key((subject, workspace)),
        guard.source() == store,
{
}

} // verus!
