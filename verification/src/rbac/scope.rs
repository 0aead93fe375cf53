//! Scoped grants: one permission, held everywhere, in a group or in a workspace.
//!
//! A stale session is denied. An administrator is granted. Then a denial wins over
//! every grant, then the default of the system role grants, then the union of the
//! grants whose scope applies; the most specific of these labels the decision.
use crate::collections::{Key, KeySet, Table};
use crate::error::{ErrorView, KirinoError};
use crate::ids::show_uuid;
use crate::rbac::traits::{
    DecisionView, GrantResolver, GrantSource, Permission, PermissionContext, PermissionDecision, RoleRegistry,
    SystemRole,
};
use vstd::prelude::*;

verus! {

/// Where a grant applies.
#[derive(Debug, Clone, Copy, PartialEq, Eq, Hash, Structural)]
pub enum GrantScope {
    /// The whole system.
    Global,
    /// Members of this group.
    Group(u128),
    /// Inside this workspace.
    Workspace(u128),
}

impl GrantScope {
    /// The rank of the scope: a narrower one is higher.
    pub open spec fn rank(self) -> u8 {
        match self {
            GrantScope::Global => 0,
            GrantScope::Group(_) => 1,
            GrantScope::Workspace(_) => 2,
        }
    }

    /// Whether the scope applies to a context.
    pub open spec fn applies(self, ctx: PermissionContext) -> bool {
        match self {
            GrantScope::Global => true,
            GrantScope::Group(g) => ctx.group_ids@.contains(g),
            GrantScope::Workspace(w) => ctx.workspace_id == Some(w),
        }
    }

    /// The text of the scope.
    pub open spec fn text(self) -> Seq<char> {
        match self {
            GrantScope::Global => "Global"@,
            GrantScope::Group(g) => "Group("@ + crate::ids::uuid_text(g) + ")"@,
            GrantScope::Workspace(w) => "Workspace("@ + crate::ids::uuid_text(w) + ")"@,
        }
    }

    /// The rank of the scope.
    #[must_use]
    pub fn specificity(&self) -> (r: u8)
        ensures
            r == self.rank(),
    {
        match *self {
            GrantScope::Global => 0,
            GrantScope::Group(_) => 1,
            GrantScope::Workspace(_) => 2,
        }
    }

    /// Whether the scope applies to a context.
    #[must_use]
    pub fn applies_to(&self, ctx: &PermissionContext) -> (r: bool)
        ensures
            r == self.applies(*ctx),
    {
        match *self {
            GrantScope::Global => true,
            GrantScope::Group(g) => {
                let mut i: usize = 0;
                while i < ctx.group_ids.len()
                    invariant
                        i <= ctx.group_ids@.len(),
                        *self == GrantScope::Group(g),
                        forall|k: int| 0 <= k < i ==> ctx.group_ids@[k] != g,
                    decreases ctx.group_ids.len() - i,
                {
                    if ctx.group_ids[i] == g {
                        return true;
                    }
                    i = i + 1;
                }
                false
            },
            GrantScope::Workspace(w) => match ctx.workspace_id {
                Some(x) => x == w,
                None => false,
            },
        }
    }

    /// The text of the scope.
    fn show(&self) -> (r: String)
        ensures
            r@ == self.text(),
    {
        match *self {
            GrantScope::Global => "Global".to_owned(),
            GrantScope::Group(g) => "Group(".to_owned().concat(show_uuid(g).as_str()).concat(")"),
            GrantScope::Workspace(w) => "Workspace(".to_owned().concat(show_uuid(w).as_str()).concat(")"),
        }
    }
}

/// One permission held at one scope.
pub struct ScopedGrant<P> {
    /// The permission, which a branch holds for all that descend from it.
    pub permission: P,
    /// Where the grant applies.
    pub scope: GrantScope,
}

impl<P> ScopedGrant<P> {
    /// A permission at a scope.
    #[must_use]
    pub fn new(permission: P, scope: GrantScope) -> (r: Self)
        ensures
            r.permission == permission,
            r.scope == scope,
    {
        ScopedGrant { permission, scope }
    }
}

/// Whether a granted permission covers a requested one: it has its name, or is a branch that it
/// descends from.
pub open spec fn covers<P: Permission>(grant: P, requested: P) -> bool {
    grant.name_text() == requested.name_text() || (grant.branch() && requested.ancestry_texts().contains(
        grant.name_text(),
    ))
}

/// Whether some permission of a set covers a requested one.
pub open spec fn set_covers<P: Permission>(set: Set<P::Id>, requested: P) -> bool {
    exists|p: P| set.contains(#[trigger] p.id()) && covers(p, requested)
}

/// Whether a granted permission covers a requested one.
pub fn grant_matches<P: Permission>(grant: &P, requested: &P) -> (r: bool)
    ensures
        r == covers(*grant, *requested),
{
    if crate::text::same_text(grant.name(), requested.name()) {
        return true;
    }
    if !grant.is_branch() {
        return false;
    }
    let names = requested.ancestry_names();
    let mut i: usize = 0;
    let ghost texts = crate::rbac::traits::strs_of(names@);
    while i < names.len()
        invariant
            i <= names@.len(),
            texts == crate::rbac::traits::strs_of(names@),
            texts == requested.ancestry_texts(),
            grant.branch(),
            forall|k: int| 0 <= k < i ==> #[trigger] texts[k] != grant.name_text(),
        decreases names.len() - i,
    {
        if crate::text::same_text(names[i], grant.name()) {
            assert(texts[i as int] == grant.name_text());
            return true;
        }
        i = i + 1;
    }
    false
}

/// Whether some permission of a set covers a requested one.
fn some_matches<P: Permission>(set: &KeySet<P>, requested: &P) -> (r: bool)
    requires
        set.wf(),
    ensures
        r == set_covers(set@, *requested),
{
    let mut i: usize = 0;
    while i < set.len()
        invariant
            set.wf(),
            i <= set.items().len(),
            forall|k: int| 0 <= k < i ==> !covers(#[trigger] set.items()[k], *requested),
        decreases set.items().len() - i,
    {
        let p = set.item_at(i);
        if grant_matches(p, requested) {
            assert(set@.contains(p.id()) && covers(*p, *requested));
            return true;
        }
        i = i + 1;
    }
    proof {
        assert forall|p: P| set@.contains(#[trigger] p.id()) implies !covers(p, *requested) by {
            let k = choose|k: int| 0 <= k < set.ids().len() && set.ids()[k] == p.id();
            P::identity_fixes_texts(&set.items()[k], &p);
            assert(!covers(set.items()[k], *requested));
        }
    }
    false
}

/// Where scoped grants are read from. A read that fails is a failure, never an empty answer.
pub trait ScopedGrantStore<P: Permission>: Sized {
    /// Whether the value is well formed.
    open spec fn wf(&self) -> bool {
        true
    }

    /// What reading the grants of a user gives.
    open spec fn user_read(&self, user: u128) -> Result<Seq<ScopedGrant<P>>, ErrorView> {
        arbitrary()
    }

    /// What reading the grants of a group gives.
    open spec fn group_read(&self, group: u128) -> Result<Seq<ScopedGrant<P>>, ErrorView> {
        arbitrary()
    }

    /// What reading the deny set of a user gives.
    open spec fn denied_read(&self, user: u128) -> Result<Set<P::Id>, ErrorView> {
        arbitrary()
    }

    /// The grants of a user, at any scope.
    fn user_grants(&self, user_id: u128) -> (r: Result<Vec<ScopedGrant<P>>, KirinoError>)
        requires
            self.wf(),
        ensures
            match r {
                Ok(list) => self.user_read(user_id) == Ok::<Seq<ScopedGrant<P>>, ErrorView>(list@),
                Err(e) => self.user_read(user_id) == Err::<Seq<ScopedGrant<P>>, ErrorView>(e@),
            },
    ;

    /// The grants of a group, at any scope.
    fn group_grants(&self, group_id: u128) -> (r: Result<Vec<ScopedGrant<P>>, KirinoError>)
        requires
            self.wf(),
        ensures
            match r {
                Ok(list) => self.group_read(group_id) == Ok::<Seq<ScopedGrant<P>>, ErrorView>(list@),
                Err(e) => self.group_read(group_id) == Err::<Seq<ScopedGrant<P>>, ErrorView>(e@),
            },
    ;

    /// The deny set of a user.
    fn denied(&self, user_id: u128) -> (r: Result<KeySet<P>, KirinoError>)
        requires
            self.wf(),
        ensures
            match r {
                Ok(set) => set.wf() && self.denied_read(user_id) == Ok::<Set<P::Id>, ErrorView>(set@),
                Err(e) => self.denied_read(user_id) == Err::<Set<P::Id>, ErrorView>(e@),
            },
    ;
}

/// A copy of a list of grants.
fn copy_grants<P: Permission>(list: &Vec<ScopedGrant<P>>) -> (r: Vec<ScopedGrant<P>>)
    ensures
        r@ == list@,
{
    let mut r: Vec<ScopedGrant<P>> = Vec::new();
    let mut i: usize = 0;
    while i < list.len()
        invariant
            i <= list@.len(),
            r@ =~= list@.take(i as int),
        decreases list.len() - i,
    {
        let grant = ScopedGrant { permission: list[i].permission.duplicate(), scope: list[i].scope };
        assert(grant == list@[i as int]);
        r.push(grant);
        i = i + 1;
    }
    assert(list@.take(list@.len() as int) =~= list@);
    r
}

/// The list that a table of lists holds for a key; empty without an entry.
pub open spec fn list_at<A>(m: Map<u128, Seq<A>>, k: u128) -> Seq<A> {
    if m.contains_key(k) {
        m[k]
    } else {
        Seq::empty()
    }
}

/// Scoped grants held in memory.
pub struct MemoryScopedGrantStore<P> {
    user: Table<u128, Vec<ScopedGrant<P>>>,
    group: Table<u128, Vec<ScopedGrant<P>>>,
    denies: Table<u128, KeySet<P>>,
}

impl<P: Permission> MemoryScopedGrantStore<P> {
    /// The grants of each user that has a row.
    pub closed spec fn user_rows(&self) -> Map<u128, Seq<ScopedGrant<P>>> {
        self.user@.map_values(|v: Vec<ScopedGrant<P>>| v@)
    }

    /// The grants of each group that has a row.
    pub closed spec fn group_rows(&self) -> Map<u128, Seq<ScopedGrant<P>>> {
        self.group@.map_values(|v: Vec<ScopedGrant<P>>| v@)
    }

    /// The deny set of each user that has a row.
    pub closed spec fn deny_rows(&self) -> Map<u128, Set<P::Id>> {
        crate::rbac::memory::sets_of(self.denies)
    }

    /// A store without rows.
    #[must_use]
    pub fn new() -> (r: Self)
        ensures
            r.wf(),
            r.user_rows() == Map::<u128, Seq<ScopedGrant<P>>>::empty(),
            r.group_rows() == Map::<u128, Seq<ScopedGrant<P>>>::empty(),
            r.deny_rows() == Map::<u128, Set<P::Id>>::empty(),
    {
        let r = MemoryScopedGrantStore { user: Table::new(), group: Table::new(), denies: Table::new() };
        assert(r.user_rows() =~= Map::<u128, Seq<ScopedGrant<P>>>::empty());
        assert(r.group_rows() =~= Map::<u128, Seq<ScopedGrant<P>>>::empty());
        assert(r.deny_rows() =~= Map::<u128, Set<P::Id>>::empty());
        r
    }

    /// Adds a grant to those of a user.
    pub fn grant_user(&mut self, user: u128, grant: ScopedGrant<P>) -> (r: &mut Self)
        requires
            old(self).wf(),
        ensures
            *final(self) == *final(r),
            r.wf(),
            r.user_rows() == old(self).user_rows().insert(user, list_at(old(self).user_rows(), user).push(grant)),
            r.group_rows() == old(self).group_rows(),
            r.deny_rows() == old(self).deny_rows(),
    {
        let ghost before = *self;
        let mut list: Vec<ScopedGrant<P>> = match self.user.remove(&user) {
            Some(list) => list,
            None => Vec::new(),
        };
        list.push(grant);
        let _ = self.user.insert(user, list);
        assert(self.user_rows() =~= before.user_rows().insert(user, list_at(before.user_rows(), user).push(grant)));
        self
    }

    /// Adds a grant to those of a group.
    pub fn grant_group(&mut self, group: u128, grant: ScopedGrant<P>) -> (r: &mut Self)
        requires
            old(self).wf(),
        ensures
            *final(self) == *final(r),
            r.wf(),
            r.user_rows() == old(self).user_rows(),
            r.group_rows() == old(self).group_rows().insert(group, list_at(old(self).group_rows(), group).push(grant)),
            r.deny_rows() == old(self).deny_rows(),
    {
        let ghost before = *self;
        let mut list: Vec<ScopedGrant<P>> = match self.group.remove(&group) {
            Some(list) => list,
            None => Vec::new(),
        };
        list.push(grant);
        let _ = self.group.insert(group, list);
        assert(self.group_rows() =~= before.group_rows().insert(group, list_at(before.group_rows(), group).push(grant)));
        self
    }

    /// Adds a permission to the deny set of a user.
    pub fn deny(&mut self, user: u128, permission: P) -> (r: &mut Self)
        requires
            old(self).wf(),
        ensures
            *final(self) == *final(r),
            r.wf(),
            r.user_rows() == old(self).user_rows(),
            r.group_rows() == old(self).group_rows(),
            r.deny_rows() == old(self).deny_rows().insert(
                user,
                crate::rbac::memory::set_at(old(self).deny_rows(), user).insert(permission.id()),
            ),
    {
        let ghost before = *self;
        let mut set = match self.denies.remove(&user) {
            Some(set) => set,
            None => KeySet::new(),
        };
        let _ = set.insert(permission);
        let _ = self.denies.insert(user, set);
        assert(self.deny_rows() =~= before.deny_rows().insert(
            user,
            crate::rbac::memory::set_at(before.deny_rows(), user).insert(permission.id()),
        ));
        self
    }
}

impl<P: Permission> Default for MemoryScopedGrantStore<P> {
    /// A store without rows.
    fn default() -> (r: Self)
        ensures
            r.wf(),
            r.user_rows() == Map::<u128, Seq<ScopedGrant<P>>>::empty(),
            r.group_rows() == Map::<u128, Seq<ScopedGrant<P>>>::empty(),
            r.deny_rows() == Map::<u128, Set<P::Id>>::empty(),
    {
        Self::new()
    }
}

impl<P: Permission> ScopedGrantStore<P> for MemoryScopedGrantStore<P> {
    closed spec fn wf(&self) -> bool {
        &&& self.user.wf()
        &&& self.group.wf()
        &&& crate::rbac::memory::sets_wf(self.denies)
    }

    open spec fn user_read(&self, user: u128) -> Result<Seq<ScopedGrant<P>>, ErrorView> {
        Ok(list_at(self.user_rows(), user))
    }

    open spec fn group_read(&self, group: u128) -> Result<Seq<ScopedGrant<P>>, ErrorView> {
        Ok(list_at(self.group_rows(), group))
    }

    open spec fn denied_read(&self, user: u128) -> Result<Set<P::Id>, ErrorView> {
        Ok(crate::rbac::memory::set_at(self.deny_rows(), user))
    }

    fn user_grants(&self, user_id: u128) -> (r: Result<Vec<ScopedGrant<P>>, KirinoError>) {
        match self.user.get(&user_id) {
            Some(list) => Ok(copy_grants(list)),
            None => Ok(Vec::new()),
        }
    }

    fn group_grants(&self, group_id: u128) -> (r: Result<Vec<ScopedGrant<P>>, KirinoError>) {
        match self.group.get(&group_id) {
            Some(list) => Ok(copy_grants(list)),
            None => Ok(Vec::new()),
        }
    }

    fn denied(&self, user_id: u128) -> (r: Result<KeySet<P>, KirinoError>) {
        match self.denies.get(&user_id) {
            Some(set) => Ok(set.duplicate()),
            None => Ok(KeySet::new()),
        }
    }
}

/// Where a candidate grant is attached.
#[derive(Debug, Clone, Copy, PartialEq, Eq, Structural)]
pub enum Attachment {
    /// To the user.
    User,
    /// To a group of the user.
    Group,
}

/// A grant that may decide, with its attachment.
pub struct Candidate<P> {
    /// Where the grant is attached.
    pub attachment: Attachment,
    /// The grant.
    pub grant: ScopedGrant<P>,
}

/// Grants as candidates of one attachment.
pub open spec fn attached<P>(attachment: Attachment, grants: Seq<ScopedGrant<P>>) -> Seq<Candidate<P>> {
    Seq::new(grants.len(), |i: int| Candidate { attachment, grant: grants[i] })
}

/// The candidates: the grants of the user, then those of the groups in their order.
pub open spec fn candidates<P: Permission, G: ScopedGrantStore<P>>(store: &G, user: u128, groups: Seq<u128>) -> Result<
    Seq<Candidate<P>>,
    ErrorView,
>
    decreases groups.len(),
{
    if groups.len() == 0 {
        match store.user_read(user) {
            Ok(grants) => Ok(attached(Attachment::User, grants)),
            Err(e) => Err(e),
        }
    } else {
        match candidates::<P, G>(store, user, groups.drop_last()) {
            Err(e) => Err(e),
            Ok(list) => match store.group_read(groups.last()) {
                Ok(grants) => Ok(list + attached(Attachment::Group, grants)),
                Err(e) => Err(e),
            },
        }
    }
}

/// Whether a candidate grants a requested permission in a context.
pub open spec fn candidate_grants<P: Permission>(c: Candidate<P>, ctx: PermissionContext, requested: P) -> bool {
    c.grant.scope.applies(ctx) && covers(c.grant.permission, requested)
}

/// The first of the most specific candidates that grant a requested permission.
pub open spec fn best_candidate<P: Permission>(list: Seq<Candidate<P>>, ctx: PermissionContext, requested: P) -> Option<
    Candidate<P>,
>
    decreases list.len(),
{
    if list.len() == 0 {
        None
    } else {
        let best = best_candidate(list.drop_last(), ctx, requested);
        let c = list.last();
        if candidate_grants(c, ctx, requested) && (best matches Some(b) ==> c.grant.scope.rank() > b.grant.scope.rank()) {
            Some(c)
        } else {
            best
        }
    }
}

/// The source that a grant is labelled with.
pub open spec fn source_of(attachment: Attachment, scope: GrantScope) -> GrantSource {
    if scope is Workspace {
        GrantSource::WorkspaceGrant
    } else if attachment == Attachment::User {
        GrantSource::UserGrant
    } else {
        GrantSource::GroupGrant
    }
}

/// The source that a grant is labelled with.
fn grant_source(attachment: Attachment, scope: &GrantScope) -> (r: GrantSource)
    ensures
        r == source_of(attachment, *scope),
{
    match *scope {
        GrantScope::Workspace(_) => GrantSource::WorkspaceGrant,
        _ => match attachment {
            Attachment::User => GrantSource::UserGrant,
            Attachment::Group => GrantSource::GroupGrant,
        },
    }
}

/// The scoped decision.
pub open spec fn resolution<P: Permission, G: ScopedGrantStore<P>, R: RoleRegistry<P>>(
    store: &G,
    roles: &R,
    ctx: PermissionContext,
    requested: P,
) -> Result<DecisionView, ErrorView> {
    if ctx.stale() {
        Ok(
            DecisionView::Denied {
                reason: "session version is stale — re-authentication required"@,
                source: None,
            },
        )
    } else if ctx.system_role == SystemRole::Admin {
        Ok(DecisionView::Granted { reason: "system administrator"@, source: GrantSource::AdminBypass })
    } else {
        match store.denied_read(ctx.user_id) {
            Err(e) => Err(e),
            Ok(denied) => if set_covers(denied, requested) {
                Ok(DecisionView::Denied { reason: "denied by explicit deny set"@, source: None })
            } else if roles.roles().contains_key(ctx.system_role.text()) && set_covers(
                roles.roles()[ctx.system_role.text()],
                requested,
            ) {
                Ok(
                    DecisionView::Granted {
                        reason: "role default for "@ + ctx.system_role.text(),
                        source: GrantSource::RoleDefault,
                    },
                )
            } else {
                match candidates::<P, G>(store, ctx.user_id, ctx.group_ids@) {
                    Err(e) => Err(e),
                    Ok(list) => match best_candidate(list, ctx, requested) {
                        Some(c) => Ok(
                            DecisionView::Granted {
                                reason: "scoped grant ("@ + c.grant.scope.text() + ")"@,
                                source: source_of(c.attachment, c.grant.scope),
                            },
                        ),
                        None => Ok(
                            DecisionView::Denied {
                                reason: "no matching grant at any applicable scope"@,
                                source: None,
                            },
                        ),
                    },
                }
            },
        }
    }
}

/// The decision maker over a grant store and role definitions.
pub struct ScopedGrantResolver<P, G, R> {
    store: G,
    roles: R,
    marker: std::marker::PhantomData<P>,
}

impl<P: Permission, G: ScopedGrantStore<P>, R: RoleRegistry<P>> ScopedGrantResolver<P, G, R> {
    /// The grants.
    pub closed spec fn grants(&self) -> G {
        self.store
    }

    /// The role definitions.
    pub closed spec fn defaults(&self) -> R {
        self.roles
    }

    /// A decision maker; nothing is remembered between decisions.
    #[must_use]
    pub fn new(store: G, roles: R) -> (r: Self)
        ensures
            r.grants() == store,
            r.defaults() == roles,
    {
        ScopedGrantResolver { store, roles, marker: std::marker::PhantomData }
    }

    /// The grants of a user and of groups as candidates.
    fn collect(&self, user: u128, groups: &Vec<u128>) -> (r: Result<Vec<Candidate<P>>, KirinoError>)
        requires
            self.grants().wf(),
        ensures
            match r {
                Ok(list) => candidates::<P, G>(&self.grants(), user, groups@) == Ok::<Seq<Candidate<P>>, ErrorView>(list@),
                Err(e) => candidates::<P, G>(&self.grants(), user, groups@) == Err::<Seq<Candidate<P>>, ErrorView>(e@),
            },
    {
        let mut list: Vec<Candidate<P>> = Vec::new();
        match self.store.user_grants(user) {
            Ok(grants) => {
                push_attached(&mut list, Attachment::User, grants);
            },
            Err(e) => {
                proof {
                    lemma_candidates_fail::<P, G>(&self.store, user, groups@, 0);
                }
                return Err(e);
            },
        }
        assert(list@ =~= attached(Attachment::User, self.store.user_read(user)->Ok_0));
        let mut i: usize = 0;
        assert(groups@.take(0) =~= Seq::<u128>::empty());
        while i < groups.len()
            invariant
                self.grants().wf(),
                i <= groups@.len(),
                candidates::<P, G>(&self.grants(), user, groups@.take(i as int)) == Ok::<Seq<Candidate<P>>, ErrorView>(
                    list@,
                ),
            decreases groups.len() - i,
        {
            assert(groups@.take(i + 1).drop_last() =~= groups@.take(i as int));
            assert(groups@.take(i + 1).last() == groups@[i as int]);
            match self.store.group_grants(groups[i]) {
                Ok(grants) => {
                    push_attached(&mut list, Attachment::Group, grants);
                },
                Err(e) => {
                    proof {
                        lemma_candidates_fail::<P, G>(&self.store, user, groups@, i + 1);
                    }
                    return Err(e);
                },
            }
            i = i + 1;
        }
        assert(groups@.take(groups@.len() as int) =~= groups@);
        Ok(list)
    }
}

/// Adds grants of one attachment to a list of candidates.
fn push_attached<P>(list: &mut Vec<Candidate<P>>, attachment: Attachment, grants: Vec<ScopedGrant<P>>)
    ensures
        final(list)@ == old(list)@ + attached(attachment, grants@),
{
    let ghost before = list@;
    let ghost all = attached(attachment, grants@);
    for grant in iter: grants
        invariant
            all == attached(attachment, iter.seq()),
            list@ == before + all.take(iter.index() as int),
    {
        list.push(Candidate { attachment, grant });
        assert(list@ =~= before + all.take(iter.index() + 1));
    }
    assert(all.take(all.len() as int) =~= all);
}

/// A read that fails for the user or for one of the groups fails the whole.
proof fn lemma_candidates_fail<P: Permission, G: ScopedGrantStore<P>>(store: &G, user: u128, groups: Seq<u128>, n: int)
    requires
        0 <= n <= groups.len(),
        candidates::<P, G>(store, user, groups.take(n)) is Err || (n == 0 && store.user_read(user) is Err),
    ensures
        candidates::<P, G>(store, user, groups) == (if n == 0 {
            Err::<Seq<Candidate<P>>, ErrorView>(store.user_read(user)->Err_0)
        } else {
            candidates::<P, G>(store, user, groups.take(n))
        }),
    decreases groups.len() - n,
{
    if n == 0 {
        assert(groups.take(0) =~= Seq::<u128>::empty());
        assert(candidates::<P, G>(store, user, groups.take(0)) == Err::<Seq<Candidate<P>>, ErrorView>(
            store.user_read(user)->Err_0,
        ));
    }
    if n < groups.len() {
        assert(groups.take(n + 1).drop_last() =~= groups.take(n));
        lemma_candidates_fail::<P, G>(store, user, groups, n + 1);
    } else {
        assert(groups.take(n) =~= groups);
    }
}

impl<P: Permission, G: ScopedGrantStore<P>, R: RoleRegistry<P>> GrantResolver<P> for ScopedGrantResolver<P, G, R> {
    open spec fn wf(&self) -> bool {
        self.grants().wf() && self.defaults().wf()
    }

    open spec fn decision(&self, ctx: PermissionContext, permission: P, resource: Option<Seq<char>>) -> Result<
        DecisionView,
        ErrorView,
    > {
        resolution::<P, G, R>(&self.grants(), &self.defaults(), ctx, permission)
    }

    fn resolve(&self, ctx: &PermissionContext, permission: &P, _resource_id: Option<&str>) -> (r: Result<
        PermissionDecision,
        KirinoError,
    >) {
        if ctx.is_session_stale() {
            return Ok(
                PermissionDecision::Denied {
                    reason: "session version is stale — re-authentication required".to_owned(),
                    source: None,
                },
            );
        }
        if ctx.system_role == SystemRole::Admin {
            return Ok(
                PermissionDecision::Granted {
                    reason: "system administrator".to_owned(),
                    source: GrantSource::AdminBypass,
                },
            );
        }
        match self.store.denied(ctx.user_id) {
            Ok(denied) => {
                if some_matches(&denied, permission) {
                    return Ok(
                        PermissionDecision::Denied {
                            reason: "denied by explicit deny set".to_owned(),
                            source: None,
                        },
                    );
                }
            },
            Err(e) => {
                return Err(e);
            },
        }
        match self.roles.get_role_permissions(ctx.system_role.as_str()) {
            Some(perms) => {
                if some_matches(&perms, permission) {
                    return Ok(
                        PermissionDecision::Granted {
                            reason: "role default for ".to_owned().concat(ctx.system_role.as_str()),
                            source: GrantSource::RoleDefault,
                        },
                    );
                }
            },
            None => {},
        }
        let list = match self.collect(ctx.user_id, &ctx.group_ids) {
            Ok(list) => list,
            Err(e) => {
                return Err(e);
            },
        };
        let mut best: Option<usize> = None;
        let mut i: usize = 0;
        while i < list.len()
            invariant
                i <= list@.len(),
                best matches Some(b) ==> b < i,
                best_candidate(list@.take(i as int), *ctx, *permission) == (match best {
                    Some(b) => Some(list@[b as int]),
                    None => None,
                }),
            decreases list.len() - i,
        {
            assert(list@.take(i + 1).drop_last() =~= list@.take(i as int));
            assert(list@.take(i + 1).last() == list@[i as int]);
            let grant = &list[i].grant;
            if grant.scope.applies_to(ctx) && grant_matches(&grant.permission, permission) {
                let more_specific = match best {
                    Some(b) => grant.scope.specificity() > list[b].grant.scope.specificity(),
                    None => true,
                };
                if more_specific {
                    best = Some(i);
                }
            }
            i = i + 1;
        }
        assert(list@.take(list@.len() as int) =~= list@);
        match best {
            Some(b) => Ok(
                PermissionDecision::Granted {
                    reason: "scoped grant (".to_owned().concat(list[b].grant.scope.show().as_str()).concat(")"),
                    source: grant_source(list[b].attachment, &list[b].grant.scope),
                },
            ),
            None => Ok(
                PermissionDecision::Denied {
                    reason: "no matching grant at any applicable scope".to_owned(),
                    source: None,
                },
            ),
        }
    }
}

/// The candidate that labels a decision grants it, none that grants it is more specific, and
/// none as specific comes before it; there is none exactly if no candidate grants.
pub proof fn law_best_candidate_is_first_of_the_most_specific<P: Permission>(
    list: Seq<Candidate<P>>,
    ctx: PermissionContext,
    requested: P,
)
    ensures
        match best_candidate(list, ctx, requested) {
            None => forall|j: int| 0 <= j < list.len() ==> !candidate_grants(#[trigger] list[j], ctx, requested),
            Some(c) => exists|i: int|
                {
                    &&& 0 <= i < list.len()
                    &&& #[trigger] list[i] == c
                    &&& candidate_grants(c, ctx, requested)
                    &&& forall|j: int|
                        0 <= j < list.len() && candidate_grants(#[trigger] list[j], ctx, requested)
                            ==> list[j].grant.scope.rank() <= c.grant.scope.rank() && (j < i
                            ==> list[j].grant.scope.rank() < c.grant.scope.rank())
                },
        },
    decreases list.len(),
{
    if list.len() > 0 {
        let front = list.drop_last();
        law_best_candidate_is_first_of_the_most_specific(front, ctx, requested);
        let last = list.len() - 1;
        assert forall|j: int| 0 <= j < last implies front[j] == list[j] by {}
        match best_candidate(front, ctx, requested) {
            None => {
                if candidate_grants(list[last], ctx, requested) {
                    assert(list[last] == best_candidate(list, ctx, requested)->Some_0);
                    assert forall|j: int| 0 <= j < list.len() && candidate_grants(#[trigger] list[j], ctx, requested) implies j
                        == last by {
                        if j < last {
                            assert(!candidate_grants(front[j], ctx, requested));
                        }
                    }
                } else {
                    assert forall|j: int| 0 <= j < list.len() implies !candidate_grants(#[trigger] list[j], ctx, requested) by {
                        if j < last {
                            assert(!candidate_grants(front[j], ctx, requested));
                        }
                    }
                }
            },
            Some(b) => {
                let i = choose|i: int|
                    {
                        &&& 0 <= i < front.len()
                        &&& #[trigger] front[i] == b
                        &&& candidate_grants(b, ctx, requested)
                        &&& forall|j: int|
                            0 <= j < front.len() && candidate_grants(#[trigger] front[j], ctx, requested)
                                ==> front[j].grant.scope.rank() <= b.grant.scope.rank() && (j < i
                                ==> front[j].grant.scope.rank() < b.grant.scope.rank())
                    };
                let c = best_candidate(list, ctx, requested)->Some_0;
                let at = if candidate_grants(list[last], ctx, requested) && list[last].grant.scope.rank()
                    > b.grant.scope.rank() {
                    last
                } else {
                    i
                };
                assert(list[at] == c);
                assert forall|j: int|
                    0 <= j < list.len() && candidate_grants(#[trigger] list[j], ctx, requested) implies list[j].grant.scope.rank()
                    <= c.grant.scope.rank() && (j < at ==> list[j].grant.scope.rank() < c.grant.scope.rank()) by {
                    if j < last {
                        assert(candidate_grants(front[j], ctx, requested));
                    }
                }
            },
        }
    }
}

/// Grants add up: what some candidates grant is still granted when there are more.
pub proof fn law_more_grants_never_deny<P: Permission>(
    some: Seq<Candidate<P>>,
    more: Seq<Candidate<P>>,
    ctx: PermissionContext,
    requested: P,
)
    requires
        forall|i: int| 0 <= i < some.len() ==> more.contains(#[trigger] some[i]),
        best_candidate(some, ctx, requested) is Some,
    ensures
        best_candidate(more, ctx, requested) is Some,
{
    law_best_candidate_is_first_of_the_most_specific(some, ctx, requested);
    law_best_candidate_is_first_of_the_most_specific(more, ctx, requested);
    let c = best_candidate(some, ctx, requested)->Some_0;
    let i = choose|i: int| 0 <= i < some.len() && #[trigger] some[i] == c && candidate_grants(c, ctx, requested);
    assert(more.contains(some[i]));
    let j = choose|j: int| 0 <= j < more.len() && more[j] == some[i];
    assert(candidate_grants(more[j], ctx, requested));
}

/// A grant inside a workspace is invisible outside of it, and a grant at a group outside of it.
pub proof fn law_scope_confines<P: Permission>(c: Candidate<P>, ctx: PermissionContext, requested: P)
    requires
        candidate_grants(c, ctx, requested),
    ensures
        c.grant.scope matches GrantScope::Workspace(w) ==> ctx.workspace_id == Some(w),
        c.grant.scope matches GrantScope::Group(g) ==> ctx.group_ids@.contains(g),
{
}

/// The order of precedence: a stale session is denied, even an administrator's; an administrator
/// is granted whatever is denied; what is denied is granted to nobody else.
pub proof fn law_precedence<P: Permission, G: ScopedGrantStore<P>, R: RoleRegistry<P>>(
    store: &G,
    roles: &R,
    ctx: PermissionContext,
    requested: P,
)
    ensures
        ctx.stale() ==> (resolution::<P, G, R>(store, roles, ctx, requested) matches Ok(DecisionView::Denied { .. })),
        !ctx.stale() && ctx.system_role == SystemRole::Admin ==> (resolution::<P, G, R>(store, roles, ctx, requested)
            matches Ok(DecisionView::Granted { source: GrantSource::AdminBypass, .. })),
        ctx.system_role != SystemRole::Admin && (store.denied_read(ctx.user_id) matches Ok(denied) && set_covers(
            denied,
            requested,
        )) ==> (resolution::<P, G, R>(store, roles, ctx, requested) matches Ok(DecisionView::Denied { .. })),
{
}

/// What is denied by a branch is denied for all that descends from it.
pub proof fn law_branch_denial_covers_descendants<P: Permission>(denied: Set<P::Id>, branch: P, requested: P)
    requires
        denied.contains(branch.id()),
        branch.branch(),
        requested.ancestry_texts().contains(branch.name_text()),
    ensures
        set_covers(denied, requested),
{
    assert(denied.contains(branch.id()) && covers(branch, requested));
}

/// An empty store grants a non-administrator nothing that no role default grants.
pub proof fn law_empty_store_denies<P: Permission, G: ScopedGrantStore<P>, R: RoleRegistry<P>>(
    store: &G,
    roles: &R,
    ctx: PermissionContext,
    requested: P,
)
    requires
        ctx.system_role != SystemRole::Admin,
        store.denied_read(ctx.user_id) is Ok,
        store.user_read(ctx.user_id) == Ok::<Seq<ScopedGrant<P>>, ErrorView>(Seq::empty()),
        forall|g: u128| #[trigger] store.group_read(g) == Ok::<Seq<ScopedGrant<P>>, ErrorView>(Seq::empty()),
        !roles.roles().contains_key(ctx.system_role.text()),
    ensures
        resolution::<P, G, R>(store, roles, ctx, requested) matches Ok(DecisionView::Denied { .. }),
{
    lemma_no_candidates::<P, G>(store, ctx.user_id, ctx.group_ids@);
}

proof fn lemma_no_candidates<P: Permission, G: ScopedGrantStore<P>>(store: &G, user: u128, groups: Seq<u128>)
    requires
        store.user_read(user) == Ok::<Seq<ScopedGrant<P>>, ErrorView>(Seq::empty()),
        forall|g: u128| #[trigger] store.group_read(g) == Ok::<Seq<ScopedGrant<P>>, ErrorView>(Seq::empty()),
    ensures
        candidates::<P, G>(store, user, groups) matches Ok(list) && list.len() == 0,
    decreases groups.len(),
{
    if groups.len() > 0 {
        lemma_no_candidates::<P, G>(store, user, groups.drop_last());
    }
}

/// Whether a permission has the name of another, or is a branch that the other descends from.
pub open spec fn is_or_holds<P: Permission>(grant: P, requested: P) -> bool {
    grant.name_text() == requested.name_text() || grant.branch() && requested.ancestry_texts().contains(
        grant.name_text(),
    )
}

/// Whether a grant is for a permission, and for where a context is: everywhere, in a group of the
/// context, or in its workspace.
pub open spec fn grants_here<P: Permission>(grant: ScopedGrant<P>, ctx: PermissionContext, requested: P) -> bool {
    &&& is_or_holds(grant.permission, requested)
    &&& match grant.scope {
        GrantScope::Global => true,
        GrantScope::Group(g) => exists|i: int| 0 <= i < ctx.group_ids@.len() && #[trigger] ctx.group_ids@[i] == g,
        GrantScope::Workspace(w) => ctx.workspace_id == Some(w),
    }
}

/// A granted permission covers a requested one exactly if it has its name, or is a branch that it
/// descends from.
pub proof fn law_grant_covers_itself_and_its_descendants<P: Permission>(grant: &P, requested: &P, r: bool)
    requires
        call_ensures(grant_matches::<P>, (grant, requested), r),
    ensures
        r <==> is_or_holds(*grant, *requested),
        grant.name_text() == requested.name_text() ==> r,
        grant.name_text() != requested.name_text() && !grant.branch() ==> !r,
{
}

/// A global scope applies everywhere, that of a group to whoever is in it, and that of a workspace
/// inside of it; a workspace is narrower than a group, and a group than everything.
pub proof fn law_scopes_apply(scope: &GrantScope, ctx: &PermissionContext, applies: bool, rank: u8)
    requires
        call_ensures(GrantScope::applies_to, (scope, ctx), applies),
        call_ensures(GrantScope::specificity, (scope,), rank),
    ensures
        *scope == GrantScope::Global ==> applies && rank == 0,
        *scope matches GrantScope::Group(g) ==> applies == ctx.group_ids@.contains(g) && rank == 1,
        *scope matches GrantScope::Workspace(w) ==> applies == (ctx.workspace_id == Some(w)) && rank == 2,
{
}

/// What the candidates are: the grants of the user first, then those of each group.
proof fn lemma_candidates_are<P: Permission, G: ScopedGrantStore<P>>(store: &G, user: u128, groups: Seq<u128>)
    ensures
        candidates::<P, G>(store, user, groups) is Ok <==> store.user_read(user) is Ok && forall|k: int|
            0 <= k < groups.len() ==> store.group_read(#[trigger] groups[k]) is Ok,
        candidates::<P, G>(store, user, groups) matches Ok(list) ==> {
            let own = store.user_read(user)->Ok_0;
            &&& list.len() >= own.len()
            &&& forall|j: int|
                0 <= j < own.len() ==> (#[trigger] list[j]) == (Candidate { attachment: Attachment::User, grant: own[j] })
            &&& forall|j: int|
                own.len() <= j < list.len() ==> (#[trigger] list[j]).attachment == Attachment::Group && exists|k: int|
                    0 <= k < groups.len() && store.group_read(#[trigger] groups[k])->Ok_0.contains(list[j].grant)
            &&& forall|k: int, x: int|
                0 <= k < groups.len() && 0 <= x < store.group_read(groups[k])->Ok_0.len() ==> list.contains(
                    Candidate {
                        attachment: Attachment::Group,
                        grant: #[trigger] store.group_read(groups[k])->Ok_0[x],
                    },
                )
        },
        candidates::<P, G>(store, user, groups) matches Err(e) ==> store.user_read(user) == Err::<
            Seq<ScopedGrant<P>>,
            ErrorView,
        >(e) || exists|k: int|
            0 <= k < groups.len() && store.group_read(#[trigger] groups[k]) == Err::<Seq<ScopedGrant<P>>, ErrorView>(e),
    decreases groups.len(),
{
    if groups.len() > 0 {
        let front = groups.drop_last();
        let last = groups.len() - 1;
        lemma_candidates_are::<P, G>(store, user, front);
        assert forall|k: int| 0 <= k < last implies front[k] == groups[k] by {}
        let before = candidates::<P, G>(store, user, front);
        if before is Ok && store.user_read(user) is Ok {
            assert(forall|k: int| 0 <= k < last ==> store.group_read(#[trigger] front[k]) is Ok);
            assert(forall|k: int| 0 <= k < last ==> store.group_read(#[trigger] groups[k]) is Ok);
        } else if before is Err {
            if exists|k: int|
                0 <= k < front.len() && store.group_read(#[trigger] front[k]) == Err::<Seq<ScopedGrant<P>>, ErrorView>(
                    before->Err_0,
                ) {
                let k = choose|k: int|
                    0 <= k < front.len() && store.group_read(#[trigger] front[k]) == Err::<
                        Seq<ScopedGrant<P>>,
                        ErrorView,
                    >(before->Err_0);
                assert(store.group_read(groups[k]) is Err);
            }
        }
        if let Ok(list) = candidates::<P, G>(store, user, groups) {
            let own = store.user_read(user)->Ok_0;
            let old_list = before->Ok_0;
            let more = store.group_read(groups[last])->Ok_0;
            assert(list == old_list + attached(Attachment::Group, more));
            assert forall|j: int| own.len() <= j < list.len() implies (#[trigger] list[j]).attachment == Attachment::Group
                && exists|k: int|
                0 <= k < groups.len() && store.group_read(#[trigger] groups[k])->Ok_0.contains(list[j].grant) by {
                if j < old_list.len() {
                    assert(list[j] == old_list[j]);
                    let k = choose|k: int|
                        0 <= k < front.len() && store.group_read(#[trigger] front[k])->Ok_0.contains(old_list[j].grant);
                    assert(store.group_read(groups[k])->Ok_0.contains(list[j].grant));
                } else {
                    assert(more[j - old_list.len()] == list[j].grant);
                    assert(store.group_read(groups[last])->Ok_0.contains(list[j].grant));
                }
            }
            assert forall|k: int, x: int|
                0 <= k < groups.len() && 0 <= x < store.group_read(groups[k])->Ok_0.len() implies list.contains(
                Candidate { attachment: Attachment::Group, grant: #[trigger] store.group_read(groups[k])->Ok_0[x] },
            ) by {
                let c = Candidate { attachment: Attachment::Group, grant: store.group_read(groups[k])->Ok_0[x] };
                if k < last {
                    assert(store.group_read(front[k])->Ok_0[x] == c.grant);
                    assert(old_list.contains(c));
                    let j = choose|j: int| 0 <= j < old_list.len() && old_list[j] == c;
                    assert(list[j] == c);
                } else {
                    assert(list[old_list.len() + x] == c);
                }
            }
        }
    }
}

/// Whether some permission of a set is a requested one or a branch that it descends from.
pub open spec fn set_is_or_holds<P: Permission>(set: Set<P::Id>, requested: P) -> bool {
    exists|p: P| set.contains(#[trigger] p.id()) && is_or_holds(p, requested)
}

/// Whether some grant of a user is for a permission where a context is.
pub open spec fn user_grant_applies<P: Permission, G: ScopedGrantStore<P>>(store: &G, ctx: PermissionContext, requested: P) -> bool {
    exists|i: int|
        0 <= i < store.user_read(ctx.user_id)->Ok_0.len() && grants_here(
            #[trigger] store.user_read(ctx.user_id)->Ok_0[i],
            ctx,
            requested,
        )
}

/// Whether some grant of one of the groups is for a permission where a context is.
pub open spec fn group_grant_applies<P: Permission, G: ScopedGrantStore<P>>(store: &G, ctx: PermissionContext, requested: P) -> bool {
    exists|k: int, i: int|
        {
            &&& 0 <= k < ctx.group_ids@.len()
            &&& 0 <= i < store.group_read(ctx.group_ids@[k])->Ok_0.len()
            &&& grants_here(#[trigger] store.group_read(ctx.group_ids@[k])->Ok_0[i], ctx, requested)
        }
}

/// The decision for each system role. A session that is older than the authority of the user is
/// denied, and an administrator with another is granted. For everyone else, what the deny set covers
/// is denied; then what the definition of the system role covers is granted by it; then what a grant
/// of the user or of a group covers where the context is, is granted; and nothing else is. A read that
/// fails is reported.
pub proof fn law_scoped_decision<P: Permission, G: ScopedGrantStore<P>, R: RoleRegistry<P>>(
    resolver: &ScopedGrantResolver<P, G, R>,
    ctx: &PermissionContext,
    permission: &P,
    resource_id: Option<&str>,
    r: Result<PermissionDecision, KirinoError>,
)
    requires
        call_ensures(ScopedGrantResolver::<P, G, R>::resolve, (resolver, ctx, permission, resource_id), r),
    ensures
        ({
            let store = resolver.grants();
            let roles = resolver.defaults().roles();
            let name = match ctx.system_role {
                SystemRole::Admin => "admin"@,
                SystemRole::Operator => "operator"@,
                SystemRole::Member => "member"@,
                SystemRole::Viewer => "viewer"@,
            };
            let denied = store.denied_read(ctx.user_id);
            let by_default = roles.contains_key(name) && set_is_or_holds::<P>(roles[name], *permission);
            let readable = store.user_read(ctx.user_id) is Ok && forall|k: int|
                0 <= k < ctx.group_ids@.len() ==> store.group_read(#[trigger] ctx.group_ids@[k]) is Ok;
            let by_grant = user_grant_applies::<P, G>(&store, *ctx, *permission) || group_grant_applies::<P, G>(
                &store,
                *ctx,
                *permission,
            );
            if ctx.session_version < ctx.current_user_version {
                r matches Ok(PermissionDecision::Denied { source: None, reason }) && reason@
                    == "session version is stale — re-authentication required"@
            } else if ctx.system_role is Admin {
                r matches Ok(PermissionDecision::Granted { source: GrantSource::AdminBypass, reason }) && reason@
                    == "system administrator"@
            } else if denied is Err {
                r matches Err(e) && e@ == denied->Err_0
            } else if set_is_or_holds::<P>(denied->Ok_0, *permission) {
                r matches Ok(PermissionDecision::Denied { source: None, reason }) && reason@
                    == "denied by explicit deny set"@
            } else if by_default {
                r matches Ok(PermissionDecision::Granted { source: GrantSource::RoleDefault, reason }) && reason@
                    == "role default for "@ + name
            } else if !readable {
                &&& r is Err
                &&& store.user_read(ctx.user_id) matches Err(e) ==> r->Err_0@ == e
            } else if by_grant {
                &&& r matches Ok(PermissionDecision::Granted { source, .. })
                &&& source is UserGrant || source is GroupGrant || source is WorkspaceGrant
            } else {
                r matches Ok(PermissionDecision::Denied { source: None, reason }) && reason@
                    == "no matching grant at any applicable scope"@
            }
        }),
{
    let store = resolver.grants();
    lemma_covers_sets::<P>(*permission);
    lemma_candidates_are::<P, G>(&store, ctx.user_id, ctx.group_ids@);
    if store.user_read(ctx.user_id) is Err {
        lemma_candidates_fail::<P, G>(&store, ctx.user_id, ctx.group_ids@, 0);
    }
    if let Ok(list) = candidates::<P, G>(&store, ctx.user_id, ctx.group_ids@) {
        law_best_candidate_is_first_of_the_most_specific(list, *ctx, *permission);
        lemma_candidate_grants_here::<P>(*ctx, *permission);
        let own = store.user_read(ctx.user_id)->Ok_0;
        if user_grant_applies::<P, G>(&store, *ctx, *permission) {
            let i = choose|i: int| 0 <= i < own.len() && grants_here(#[trigger] own[i], *ctx, *permission);
            assert(list[i].grant == own[i]);
            assert(candidate_grants(list[i], *ctx, *permission));
        }
        if group_grant_applies::<P, G>(&store, *ctx, *permission) {
            let (k, i) = choose|k: int, i: int|
                {
                    &&& 0 <= k < ctx.group_ids@.len()
                    &&& 0 <= i < store.group_read(ctx.group_ids@[k])->Ok_0.len()
                    &&& grants_here(#[trigger] store.group_read(ctx.group_ids@[k])->Ok_0[i], *ctx, *permission)
                };
            let c = Candidate { attachment: Attachment::Group, grant: store.group_read(ctx.group_ids@[k])->Ok_0[i] };
            assert(list.contains(c));
            let j = choose|j: int| 0 <= j < list.len() && list[j] == c;
            assert(candidate_grants(list[j], *ctx, *permission));
        }
        if let Some(c) = best_candidate(list, *ctx, *permission) {
            let j = choose|j: int| 0 <= j < list.len() && #[trigger] list[j] == c;
            assert(candidate_grants(list[j], *ctx, *permission));
            if j < own.len() {
                assert(own[j] == c.grant);
                assert(user_grant_applies::<P, G>(&store, *ctx, *permission));
            } else {
                let k = choose|k: int|
                    0 <= k < ctx.group_ids@.len() && store.group_read(#[trigger] ctx.group_ids@[k])->Ok_0.contains(
                        list[j].grant,
                    );
                let theirs = store.group_read(ctx.group_ids@[k])->Ok_0;
                let i = choose|i: int| 0 <= i < theirs.len() && theirs[i] == c.grant;
                assert(grants_here(store.group_read(ctx.group_ids@[k])->Ok_0[i], *ctx, *permission));
                assert(group_grant_applies::<P, G>(&store, *ctx, *permission));
            }
        }
    }
}

proof fn lemma_covers_sets<P: Permission>(requested: P)
    ensures
        forall|set: Set<P::Id>| #[trigger] set_covers::<P>(set, requested) <==> set_is_or_holds::<P>(set, requested),
{
    assert forall|set: Set<P::Id>| #[trigger] set_covers::<P>(set, requested) <==> set_is_or_holds::<P>(set, requested) by {
        if set_covers::<P>(set, requested) {
            let p = choose|p: P| set.contains(#[trigger] p.id()) && covers(p, requested);
            assert(set.contains(p.id()) && is_or_holds(p, requested));
        }
        if set_is_or_holds::<P>(set, requested) {
            let p = choose|p: P| set.contains(#[trigger] p.id()) && is_or_holds(p, requested);
            assert(set.contains(p.id()) && covers(p, requested));
        }
    }
}

proof fn lemma_candidate_grants_here<P: Permission>(ctx: PermissionContext, requested: P)
    ensures
        forall|c: Candidate<P>| #[trigger]
            candidate_grants(c, ctx, requested) <==> grants_here(c.grant, ctx, requested),
{
    assert forall|c: Candidate<P>| #[trigger]
        candidate_grants(c, ctx, requested) <==> grants_here(c.grant, ctx, requested) by {
        if let GrantScope::Group(g) = c.grant.scope {
            if ctx.group_ids@.contains(g) {
                let i = choose|i: int| 0 <= i < ctx.group_ids@.len() && ctx.group_ids@[i] == g;
                assert(ctx.group_ids@[i] == g);
            }
        }
    }
}

/// Whether some grant of the user or of a group that is for a permission where a context is, has a
/// scope of a kind.
pub open spec fn some_grant_of<P: Permission, G: ScopedGrantStore<P>>(
    store: &G,
    ctx: PermissionContext,
    requested: P,
    attachment: Attachment,
    scope: GrantScope,
) -> bool {
    match attachment {
        Attachment::User => exists|i: int|
            {
                &&& 0 <= i < store.user_read(ctx.user_id)->Ok_0.len()
                &&& grants_here(#[trigger] store.user_read(ctx.user_id)->Ok_0[i], ctx, requested)
                &&& store.user_read(ctx.user_id)->Ok_0[i].scope == scope
            },
        Attachment::Group => exists|k: int, i: int|
            {
                &&& 0 <= k < ctx.group_ids@.len()
                &&& 0 <= i < store.group_read(ctx.group_ids@[k])->Ok_0.len()
                &&& grants_here(#[trigger] store.group_read(ctx.group_ids@[k])->Ok_0[i], ctx, requested)
                &&& store.group_read(ctx.group_ids@[k])->Ok_0[i].scope == scope
            },
    }
}

/// A decision by grant is labelled with the narrowest grant that there is: one inside the workspace
/// where some is, else one of a group, else one everywhere; and of equally narrow ones the user's
/// before those of groups.
pub proof fn law_narrowest_grant_labels<P: Permission, G: ScopedGrantStore<P>, R: RoleRegistry<P>>(
    resolver: &ScopedGrantResolver<P, G, R>,
    ctx: &PermissionContext,
    permission: &P,
    resource_id: Option<&str>,
    r: Result<PermissionDecision, KirinoError>,
)
    requires
        call_ensures(ScopedGrantResolver::<P, G, R>::resolve, (resolver, ctx, permission, resource_id), r),
    ensures
        r matches Ok(PermissionDecision::Granted { source, reason }) ==> !(source is AdminBypass) ==> !(source
            is RoleDefault) ==> exists|attachment: Attachment, scope: GrantScope|
            {
                &&& #[trigger] some_grant_of::<P, G>(&resolver.grants(), *ctx, *permission, attachment, scope)
                &&& source == (match scope {
                    GrantScope::Workspace(_) => GrantSource::WorkspaceGrant,
                    _ => match attachment {
                        Attachment::User => GrantSource::UserGrant,
                        Attachment::Group => GrantSource::GroupGrant,
                    },
                })
                &&& reason@ == "scoped grant ("@ + (match scope {
                    GrantScope::Global => "Global"@,
                    GrantScope::Group(g) => "Group("@ + crate::ids::uuid_text(g) + ")"@,
                    GrantScope::Workspace(w) => "Workspace("@ + crate::ids::uuid_text(w) + ")"@,
                }) + ")"@
                &&& forall|a: Attachment, s: GrantScope| #[trigger]
                    some_grant_of::<P, G>(&resolver.grants(), *ctx, *permission, a, s) ==> {
                        &&& s is Workspace ==> scope is Workspace
                        &&& s is Group ==> !(scope is Global)
                        &&& a is User && attachment is Group ==> !(s is Workspace) && (s is Group ==> scope is Workspace)
                            && (s is Global ==> !(scope is Global))
                    }
            },
{
    let store = resolver.grants();
    lemma_candidates_are::<P, G>(&store, ctx.user_id, ctx.group_ids@);
    if let Ok(PermissionDecision::Granted { source, reason }) = r {
        if !(source is AdminBypass) && !(source is RoleDefault) {
            let list = candidates::<P, G>(&store, ctx.user_id, ctx.group_ids@)->Ok_0;
            let own = store.user_read(ctx.user_id)->Ok_0;
            law_best_candidate_is_first_of_the_most_specific(list, *ctx, *permission);
            lemma_candidate_grants_here::<P>(*ctx, *permission);
            let c = best_candidate(list, *ctx, *permission)->Some_0;
            let at = choose|i: int|
                {
                    &&& 0 <= i < list.len()
                    &&& #[trigger] list[i] == c
                    &&& candidate_grants(c, *ctx, *permission)
                    &&& forall|j: int|
                        0 <= j < list.len() && candidate_grants(#[trigger] list[j], *ctx, *permission)
                            ==> list[j].grant.scope.rank() <= c.grant.scope.rank() && (j < i
                            ==> list[j].grant.scope.rank() < c.grant.scope.rank())
                };
            if at < own.len() {
                assert(own[at] == c.grant);
                assert(some_grant_of::<P, G>(&store, *ctx, *permission, c.attachment, c.grant.scope));
            } else {
                let k = choose|k: int|
                    0 <= k < ctx.group_ids@.len() && store.group_read(#[trigger] ctx.group_ids@[k])->Ok_0.contains(
                        list[at].grant,
                    );
                let theirs = store.group_read(ctx.group_ids@[k])->Ok_0;
                let i = choose|i: int| 0 <= i < theirs.len() && theirs[i] == c.grant;
                assert(grants_here(store.group_read(ctx.group_ids@[k])->Ok_0[i], *ctx, *permission));
                assert(some_grant_of::<P, G>(&store, *ctx, *permission, c.attachment, c.grant.scope));
            }
            assert forall|a: Attachment, s: GrantScope| #[trigger]
                some_grant_of::<P, G>(&store, *ctx, *permission, a, s) implies s.rank() <= c.grant.scope.rank() && (a is User
                && c.attachment is Group ==> s.rank() < c.grant.scope.rank()) by {
                match a {
                    Attachment::User => {
                        let i = choose|i: int|
                            {
                                &&& 0 <= i < own.len()
                                &&& grants_here(#[trigger] own[i], *ctx, *permission)
                                &&& own[i].scope == s
                            };
                        assert(list[i].grant == own[i]);
                        assert(candidate_grants(list[i], *ctx, *permission));
                        if c.attachment is Group {
                            assert(i < at) by {
                                if at < own.len() {
                                    assert(list[at].attachment == Attachment::User);
                                }
                            }
                        }
                    },
                    Attachment::Group => {
                        let (k, i) = choose|k: int, i: int|
                            {
                                &&& 0 <= k < ctx.group_ids@.len()
                                &&& 0 <= i < store.group_read(ctx.group_ids@[k])->Ok_0.len()
                                &&& grants_here(
                                    #[trigger] store.group_read(ctx.group_ids@[k])->Ok_0[i],
                                    *ctx,
                                    *permission,
                                )
                                &&& store.group_read(ctx.group_ids@[k])->Ok_0[i].scope == s
                            };
                        let d = Candidate {
                            attachment: Attachment::Group,
                            grant: store.group_read(ctx.group_ids@[k])->Ok_0[i],
                        };
                        assert(list.contains(d));
                        let j = choose|j: int| 0 <= j < list.len() && list[j] == d;
                        assert(candidate_grants(list[j], *ctx, *permission));
                    },
                }
            }
        }
    }
}

/// What is granted to a user or to a group in memory is read back as its last grant, what is denied
/// is in the deny set, and nobody else is concerned.
pub proof fn law_rows_are_read_back<P: Permission>(
    before: MemoryScopedGrantStore<P>,
    granted: MemoryScopedGrantStore<P>,
    denied: MemoryScopedGrantStore<P>,
    user: u128,
    other: u128,
    grant: ScopedGrant<P>,
    permission: P,
)
    requires
        exists|store: &mut MemoryScopedGrantStore<P>, r: &mut MemoryScopedGrantStore<P>|
            *store == before && *final(store) == granted && *r == *final(r) && #[trigger] call_ensures(
                MemoryScopedGrantStore::<P>::grant_user,
                (store, user, grant),
                r,
            ),
        exists|store: &mut MemoryScopedGrantStore<P>, r: &mut MemoryScopedGrantStore<P>|
            *store == before && *final(store) == denied && *r == *final(r) && #[trigger] call_ensures(
                MemoryScopedGrantStore::<P>::deny,
                (store, user, permission),
                r,
            ),
        other != user,
    ensures
        granted.user_read(user) == Ok::<Seq<ScopedGrant<P>>, ErrorView>(before.user_read(user)->Ok_0.push(grant)),
        granted.user_read(other) == before.user_read(other),
        granted.group_read(other) == before.group_read(other),
        granted.denied_read(user) == before.denied_read(user),
        denied.denied_read(user) == Ok::<Set<P::Id>, ErrorView>(
            before.denied_read(user)->Ok_0.insert(permission.id()),
        ),
        denied.denied_read(other) == before.denied_read(other),
        denied.user_read(user) == before.user_read(user),
{
}

/// A grant to a group is the last of its grants from then on, and is one of nobody else; what is read of a
/// store is what was put in it.
pub proof fn law_group_rows_are_read_back<P: Permission>(
    before: MemoryScopedGrantStore<P>,
    after: MemoryScopedGrantStore<P>,
    group: u128,
    grant: ScopedGrant<P>,
    asked: u128,
    was: Result<Vec<ScopedGrant<P>>, KirinoError>,
    is: Result<Vec<ScopedGrant<P>>, KirinoError>,
    users: Result<Vec<ScopedGrant<P>>, KirinoError>,
    denied: Result<KeySet<P>, KirinoError>,
)
    requires
        exists|store: &mut MemoryScopedGrantStore<P>, r: &mut MemoryScopedGrantStore<P>|
            *store == before && *final(store) == after && *r == *final(r) && #[trigger] call_ensures(
                MemoryScopedGrantStore::<P>::grant_group,
                (store, group, grant),
                r,
            ),
        call_ensures(MemoryScopedGrantStore::<P>::group_grants, (&before, asked), was),
        call_ensures(MemoryScopedGrantStore::<P>::group_grants, (&after, asked), is),
        call_ensures(MemoryScopedGrantStore::<P>::user_grants, (&after, asked), users),
        call_ensures(MemoryScopedGrantStore::<P>::denied, (&after, asked), denied),
    ensures
        was is Ok && is is Ok && users is Ok && denied is Ok,
        asked == group ==> is->Ok_0@ == was->Ok_0@.push(grant),
        asked != group ==> is->Ok_0@ == was->Ok_0@,
        before.user_read(asked) == Ok::<Seq<ScopedGrant<P>>, ErrorView>(users->Ok_0@),
        before.denied_read(asked) == Ok::<Set<P::Id>, ErrorView>(denied->Ok_0@),
{
}

/// A new store holds no grant and no denial; a grant is what it is made of, and a resolver goes by the grants and
/// the roles that it is made over.
pub proof fn law_new_grants_and_resolver<P: Permission, G: ScopedGrantStore<P>, R: RoleRegistry<P>>(
    made: MemoryScopedGrantStore<P>,
    usual: MemoryScopedGrantStore<P>,
    key: u128,
    permission: P,
    scope: GrantScope,
    grant: ScopedGrant<P>,
    store: G,
    roles: R,
    resolver: ScopedGrantResolver<P, G, R>,
)
    requires
        call_ensures(MemoryScopedGrantStore::<P>::new, (), made),
        call_ensures(MemoryScopedGrantStore::<P>::default, (), usual),
        call_ensures(ScopedGrant::<P>::new, (permission, scope), grant),
        call_ensures(ScopedGrantResolver::<P, G, R>::new, (store, roles), resolver),
    ensures
        !made.user_rows().contains_key(key) && !made.group_rows().contains_key(key) && !made.deny_rows().contains_key(
            key,
        ),
        !usual.user_rows().contains_key(key) && !usual.group_rows().contains_key(key) && !usual.deny_rows().contains_key(
            key,
        ),
        grant.permission == permission && grant.scope == scope,
        resolver.grants() == store && resolver.defaults() == roles,
{
}

} // verus!
