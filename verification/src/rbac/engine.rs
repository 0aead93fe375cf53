//! The decision engine over registries, assignments and a cache.
//!
//! A denied permission is checked before an added one, and no role grants it
//! again. A read that fails is answered with a denial and is not remembered.
use crate::collections::{Key, KeySet, Table};
use crate::error::{ErrorView, KirinoError};
use crate::rbac::cache::{PermissionCache, TtlPermissionCache};
use crate::rbac::traits::{
    AssignmentStore, GrantResolver, Permission, PermissionContext, PermissionDecision, PermissionRegistry,
    RoleRegistry, Subject,
};
use vstd::prelude::*;

verus! {

/// The lifetime of a remembered decision unless another cache is supplied: five minutes.
pub const DEFAULT_CACHE_TTL: u64 = 300_000_000_000;

/// The permissions that a role of a name grants.
pub open spec fn role_grants<P: Permission, RR: RoleRegistry<P>>(
    registry: &RR,
    hierarchical: bool,
    role: Seq<char>,
) -> Set<P::Id> {
    if hierarchical {
        crate::rbac::hierarchy::inherited::<P, RR>(registry, role)
    } else if registry.roles().contains_key(role) {
        registry.roles()[role]
    } else {
        Set::empty()
    }
}

/// Whether one of the roles grants a permission.
pub open spec fn some_role_grants<P: Permission, RR: RoleRegistry<P>>(
    registry: &RR,
    hierarchical: bool,
    roles: Set<Seq<char>>,
    permission: P::Id,
) -> bool {
    exists|role: Seq<char>| #[trigger]
        roles.contains(role) && role_grants::<P, RR>(registry, hierarchical, role).contains(permission)
}

/// What the stores say of a permission; nothing when a read that matters fails.
pub open spec fn verdict<S: Subject, P: Permission, A: AssignmentStore<S, P>, RR: RoleRegistry<P>>(
    store: &A,
    registry: &RR,
    hierarchical: bool,
    subject: Seq<char>,
    permission: P::Id,
) -> Option<bool> {
    match store.denied_read(subject) {
        Err(_) => None,
        Ok(denied) => if denied.contains(permission) {
            Some(false)
        } else {
            match store.extra_read(subject) {
                Err(_) => None,
                Ok(extra) => if extra.contains(permission) {
                    Some(true)
                } else {
                    match store.roles_read(subject) {
                        Err(_) => None,
                        Ok(roles) => Some(
                            some_role_grants::<P, RR>(registry, hierarchical, roles, permission),
                        ),
                    }
                },
            }
        },
    }
}

/// Every permission that one of the roles grants.
pub open spec fn granted_by_roles<P: Permission, RR: RoleRegistry<P>>(
    registry: &RR,
    hierarchical: bool,
    roles: Set<Seq<char>>,
) -> Set<P::Id> {
    Set::new(|p: P::Id| some_role_grants::<P, RR>(registry, hierarchical, roles, p))
}

/// Everything that a subject can exercise: what its roles grant and what was added, without what
/// is denied.
pub open spec fn effective<S: Subject, P: Permission, A: AssignmentStore<S, P>, RR: RoleRegistry<P>>(
    store: &A,
    registry: &RR,
    hierarchical: bool,
    subject: Seq<char>,
) -> Result<Set<P::Id>, ErrorView> {
    match (store.roles_read(subject), store.extra_read(subject), store.denied_read(subject)) {
        (Err(e), _, _) => Err(e),
        (Ok(_), Err(e), _) => Err(e),
        (Ok(_), Ok(_), Err(e)) => Err(e),
        (Ok(roles), Ok(extra), Ok(denied)) => Ok(
            granted_by_roles::<P, RR>(registry, hierarchical, roles).union(extra).difference(denied),
        ),
    }
}

/// Decision engine.
pub struct RbacEngine<S, P, A, RR, PR, C = TtlPermissionCache> {
    role_registry: RR,
    permission_registry: PR,
    assignment_store: A,
    cache: C,
    marker: std::marker::PhantomData<(S, P)>,
}

impl<
    S: Subject,
    P: Permission,
    A: AssignmentStore<S, P>,
    RR: RoleRegistry<P>,
    PR: PermissionRegistry<P>,
> RbacEngine<S, P, A, RR, PR> {
    /// An engine whose decisions are remembered for five minutes.
    #[must_use]
    pub fn new(role_registry: RR, permission_registry: PR, assignment_store: A) -> (r: Self)
        requires
            role_registry.wf(),
            permission_registry.wf(),
            assignment_store.wf(),
        ensures
            r.wf(),
            r.registry() == role_registry,
            r.catalogue() == permission_registry,
            r.store() == assignment_store,
            r.memory()@ == crate::rbac::cache::Entries::empty(),
            r.memory().lifetime() == DEFAULT_CACHE_TTL,
            r.memory().cap() == crate::rbac::cache::DEFAULT_MAX_CACHE_ENTRIES,
    {
        RbacEngine {
            role_registry,
            permission_registry,
            assignment_store,
            cache: TtlPermissionCache::new(DEFAULT_CACHE_TTL),
            marker: std::marker::PhantomData,
        }
    }
}

impl<
    S: Subject,
    P: Permission,
    A: AssignmentStore<S, P>,
    RR: RoleRegistry<P>,
    PR: PermissionRegistry<P>,
    C: PermissionCache<S, P>,
> RbacEngine<S, P, A, RR, PR, C> {
    /// The role definitions.
    pub closed spec fn registry(&self) -> RR {
        self.role_registry
    }

    /// The permission catalogue.
    pub closed spec fn catalogue(&self) -> PR {
        self.permission_registry
    }

    /// The assignments.
    pub closed spec fn store(&self) -> A {
        self.assignment_store
    }

    /// The remembered decisions.
    pub closed spec fn memory(&self) -> C {
        self.cache
    }

    /// Whether the parts are well formed.
    pub open spec fn wf(&self) -> bool {
        &&& self.registry().wf()
        &&& self.catalogue().wf()
        &&& self.store().wf()
        &&& self.memory().valid()
    }

    /// The engine with another cache.
    #[must_use]
    pub fn with_cache<D: PermissionCache<S, P>>(self, cache: D) -> (r: RbacEngine<S, P, A, RR, PR, D>)
        requires
            self.wf(),
            cache.valid(),
        ensures
            r.wf(),
            r.registry() == self.registry(),
            r.catalogue() == self.catalogue(),
            r.store() == self.store(),
            r.memory() == cache,
    {
        RbacEngine {
            role_registry: self.role_registry,
            permission_registry: self.permission_registry,
            assignment_store: self.assignment_store,
            cache,
            marker: std::marker::PhantomData,
        }
    }

    /// The role definitions.
    #[must_use]
    pub fn role_registry(&self) -> (r: &RR)
        ensures
            *r == self.registry(),
    {
        &self.role_registry
    }

    /// The permission catalogue.
    #[must_use]
    pub fn permission_registry(&self) -> (r: &PR)
        ensures
            *r == self.catalogue(),
    {
        &self.permission_registry
    }

    /// The assignments.
    #[must_use]
    pub fn assignment_store(&self) -> (r: &A)
        ensures
            *r == self.store(),
    {
        &self.assignment_store
    }

    /// The assignments, to be changed. A change takes effect for a remembered decision only once
    /// the subject's decisions are forgotten.
    pub fn assignment_store_mut(&mut self) -> (r: &mut A)
        ensures
            *r == old(self).store(),
            final(self).store() == *final(r),
            final(self).registry() == old(self).registry(),
            final(self).catalogue() == old(self).catalogue(),
            final(self).memory() == old(self).memory(),
    {
        &mut self.assignment_store
    }

    /// The remembered decisions.
    #[must_use]
    pub fn cache(&self) -> (r: &C)
        ensures
            *r == self.memory(),
    {
        &self.cache
    }

    /// Forgets the decisions on one subject.
    pub fn invalidate_subject_cache(&mut self, subject: &S)
        requires
            old(self).wf(),
        ensures
            final(self).wf(),
            final(self).registry() == old(self).registry(),
            final(self).catalogue() == old(self).catalogue(),
            final(self).store() == old(self).store(),
            old(self).memory().forgot(&final(self).memory(), subject.id_text()),
            crate::rbac::cache::drops_subject::<S, P, C>(
                old(self).memory(),
                final(self).memory(),
                subject.id_text(),
            ),
    {
        self.cache.invalidate_subject(subject);
    }

    /// Forgets every decision.
    pub fn invalidate_all_cache(&mut self)
        requires
            old(self).wf(),
        ensures
            final(self).wf(),
            final(self).registry() == old(self).registry(),
            final(self).catalogue() == old(self).catalogue(),
            final(self).store() == old(self).store(),
            old(self).memory().cleared(&final(self).memory()),
            crate::rbac::cache::knows_nothing::<S, P, C>(final(self).memory()),
    {
        self.cache.invalidate_all();
    }

    /// Whether the answer of a check at `now` and the engine after it are what they should be.
    pub open spec fn checked(
        &self,
        after: &Self,
        hierarchical: bool,
        subject: Seq<char>,
        permission: P,
        now: u64,
        granted: bool,
    ) -> bool {
        &&& after.wf()
        &&& after.registry() == self.registry()
        &&& after.catalogue() == self.catalogue()
        &&& after.store() == self.store()
        &&& match self.memory().recalled(subject, permission.name_text(), now) {
            Some(remembered) => granted == remembered && after.memory() == self.memory(),
            None => match verdict::<S, P, A, RR>(&self.store(), &self.registry(), hierarchical, subject, permission.id()) {
                None => !granted && after.memory() == self.memory(),
                Some(v) => {
                    &&& granted == v
                    &&& self.memory().wrote(&after.memory(), subject, permission.name_text(), v, now)
                    &&& crate::rbac::cache::adds_only::<S, P, C>(
                        self.memory(),
                        after.memory(),
                        subject,
                        permission.name_text(),
                        v,
                    )
                },
            },
        }
    }

    /// Whether one of the named roles grants a permission.
    fn roles_grant(&self, names: &Vec<String>, permission: &P, hierarchical: bool) -> (r: bool)
        requires
            self.wf(),
        ensures
            r == some_role_grants::<P, RR>(
                &self.registry(),
                hierarchical,
                crate::rbac::traits::texts_of(names@).to_set(),
                permission.id(),
            ),
    {
        let ghost texts = crate::rbac::traits::texts_of(names@);
        let mut i: usize = 0;
        while i < names.len()
            invariant
                self.wf(),
                texts == crate::rbac::traits::texts_of(names@),
                i <= names@.len(),
                forall|k: int|
                    0 <= k < i ==> !role_grants::<P, RR>(&self.registry(), hierarchical, #[trigger] texts[k]).contains(
                        permission.id(),
                    ),
            decreases names.len() - i,
        {
            let granted = if hierarchical {
                crate::rbac::hierarchy::resolve_role_chain::<P, RR>(
                    names[i].as_str(),
                    &self.role_registry,
                ).contains(permission)
            } else {
                match self.role_registry.get_role_permissions(names[i].as_str()) {
                    Some(perms) => perms.contains(permission),
                    None => false,
                }
            };
            assert(granted == role_grants::<P, RR>(&self.registry(), hierarchical, texts[i as int]).contains(
                permission.id(),
            ));
            if granted {
                assert(texts.contains(texts[i as int]));
                assert(texts.to_set().contains(texts[i as int]));
                return true;
            }
            i = i + 1;
        }
        proof {
            assert forall|role: Seq<char>| #[trigger] texts.to_set().contains(role) implies !role_grants::<P, RR>(
                &self.registry(),
                hierarchical,
                role,
            ).contains(permission.id()) by {
                let k = choose|k: int| 0 <= k < texts.len() && texts[k] == role;
                assert(texts[k] == role);
            }
        }
        false
    }

    /// The answer of the cache, the deny set or the added permissions, where one of them has it.
    fn check_cached_deny_extra(&mut self, subject: &S, permission: &P, now: u64) -> (r: Result<
        Option<bool>,
        KirinoError,
    >)
        requires
            old(self).wf(),
        ensures
            match r {
                Ok(Some(granted)) => forall|hierarchical: bool|
                    #![trigger old(self).checked(
                        final(self),
                        hierarchical,
                        subject.id_text(),
                        *permission,
                        now,
                        granted,
                    )]
                    old(self).checked(final(self), hierarchical, subject.id_text(), *permission, now, granted),
                Ok(None) => {
                    &&& *final(self) == *old(self)
                    &&& old(self).memory().recalled(subject.id_text(), permission.name_text(), now) is None
                    &&& old(self).store().denied_read(subject.id_text()) matches Ok(denied)
                    &&& !denied.contains(permission.id())
                    &&& old(self).store().extra_read(subject.id_text()) matches Ok(extra)
                    &&& !extra.contains(permission.id())
                },
                Err(_) => forall|hierarchical: bool|
                    #![trigger old(self).checked(
                        final(self),
                        hierarchical,
                        subject.id_text(),
                        *permission,
                        now,
                        false,
                    )]
                    old(self).checked(final(self), hierarchical, subject.id_text(), *permission, now, false),
            },
    {
        match self.cache.get(subject, permission, now) {
            Some(granted) => {
                return Ok(Some(granted));
            },
            None => {},
        }
        match self.assignment_store.denied_permissions(subject) {
            Ok(denied) => {
                if denied.contains(permission) {
                    self.cache.set(subject, permission, false, now);
                    return Ok(Some(false));
                }
            },
            Err(e) => {
                return Err(e);
            },
        }
        match self.assignment_store.extra_permissions(subject) {
            Ok(extra) => {
                if extra.contains(permission) {
                    self.cache.set(subject, permission, true, now);
                    return Ok(Some(true));
                }
            },
            Err(e) => {
                return Err(e);
            },
        }
        Ok(None)
    }

    /// A check with or without inheritance.
    fn decide(&mut self, subject: &S, permission: &P, now: u64, hierarchical: bool) -> (granted: bool)
        requires
            old(self).wf(),
        ensures
            old(self).checked(final(self), hierarchical, subject.id_text(), *permission, now, granted),
    {
        match self.check_cached_deny_extra(subject, permission, now) {
            Ok(Some(granted)) => {
                return granted;
            },
            Err(_) => {
                return false;
            },
            Ok(None) => {},
        }
        match self.assignment_store.roles_of(subject) {
            Ok(names) => {
                let granted = self.roles_grant(&names, permission, hierarchical);
                self.cache.set(subject, permission, granted, now);
                granted
            },
            Err(_) => false,
        }
    }

    /// Whether a subject holds a permission, at `now` nanoseconds of the monotonic clock.
    ///
    /// What is remembered is answered as it is. Otherwise a denial comes first, then an added
    /// permission, then the roles; the answer is remembered unless a read failed.
    pub fn check(&mut self, subject: &S, permission: &P, now: u64) -> (granted: bool)
        requires
            old(self).wf(),
        ensures
            old(self).checked(final(self), false, subject.id_text(), *permission, now, granted),
    {
        self.decide(subject, permission, now, false)
    }

    /// [`RbacEngine::check`] with the permissions that roles inherit.
    pub fn check_hierarchical(&mut self, subject: &S, permission: &P, now: u64) -> (granted: bool)
        requires
            old(self).wf(),
        ensures
            old(self).checked(final(self), true, subject.id_text(), *permission, now, granted),
    {
        self.decide(subject, permission, now, true)
    }

    /// Whether a run of checks, one per permission and each on the engine that the one before left,
    /// gives the answers.
    pub open spec fn checked_in_turn(
        run: Seq<Self>,
        subject: Seq<char>,
        permissions: Seq<P>,
        now: u64,
        answers: Map<P::Id, bool>,
    ) -> bool {
        &&& run.len() == permissions.len() + 1
        &&& forall|i: int|
            0 <= i < permissions.len() ==> answers.contains_key((#[trigger] permissions[i]).id())
                && run[i].checked(&run[i + 1], false, subject, permissions[i], now, answers[permissions[i].id()])
    }

    /// Checks many permissions of one subject; the answers are for exactly those asked for.
    pub fn check_batch(&mut self, subject: &S, permissions: &KeySet<P>, now: u64) -> (r: Table<P, bool>)
        requires
            old(self).wf(),
            permissions.wf(),
        ensures
            r.wf(),
            r@.dom() == permissions@,
            final(self).wf(),
            exists|run: Seq<Self>|
                {
                    &&& #[trigger] Self::checked_in_turn(run, subject.id_text(), permissions.items(), now, r@)
                    &&& run[0] == *old(self)
                    &&& run.last() == *final(self)
                },
    {
        let mut r: Table<P, bool> = Table::new();
        let mut i: usize = 0;
        let ghost items = permissions.items();
        let ghost mut run: Seq<Self> = seq![*self];
        proof {
            permissions.lemma_len();
            assert(r@.dom() =~= permissions.ids().take(0).to_set());
        }
        while i < permissions.len()
            invariant
                self.wf(),
                r.wf(),
                permissions.wf(),
                items == permissions.items(),
                permissions.ids().no_duplicates(),
                i <= items.len(),
                run[0] == *old(self),
                run.last() == *self,
                Self::checked_in_turn(run, subject.id_text(), items.take(i as int), now, r@),
                r@.dom() == permissions.ids().take(i as int).to_set(),
            decreases items.len() - i,
        {
            let permission = permissions.item_at(i);
            let granted = self.decide(subject, permission, now, false);
            let _ = r.insert(permission.duplicate(), granted);
            proof {
                let run2 = run.push(*self);
                let done = items.take(i + 1);
                crate::collections::lemma_take_next_to_set(permissions.ids(), i as int);
                assert(r@.dom() =~= permissions.ids().take(i + 1).to_set());
                assert forall|k: int| 0 <= k < done.len() implies r@.contains_key((#[trigger] done[k]).id())
                    && run2[k].checked(&run2[k + 1], false, subject.id_text(), done[k], now, r@[done[k].id()]) by {
                    if k < i {
                        assert(done[k] == items.take(i as int)[k]);
                        assert(permissions.ids()[k] != permissions.ids()[i as int]);
                    }
                }
                run = run2;
            }
            i = i + 1;
        }
        proof {
            assert(items.take(items.len() as int) =~= items);
            assert(permissions.ids().take(items.len() as int) =~= permissions.ids());
        }
        r
    }

    /// The permissions of the named roles.
    fn collect_roles(&self, names: &Vec<String>, hierarchical: bool) -> (perms: KeySet<P>)
        requires
            self.wf(),
        ensures
            perms.wf(),
            perms@ == granted_by_roles::<P, RR>(
                &self.registry(),
                hierarchical,
                crate::rbac::traits::texts_of(names@).to_set(),
            ),
    {
        let ghost texts = crate::rbac::traits::texts_of(names@);
        let mut perms: KeySet<P> = KeySet::new();
        let mut i: usize = 0;
        assert(texts.take(0).to_set() =~= Set::<Seq<char>>::empty());
        assert(perms@ =~= granted_by_roles::<P, RR>(&self.registry(), hierarchical, texts.take(0).to_set()));
        while i < names.len()
            invariant
                self.wf(),
                perms.wf(),
                texts == crate::rbac::traits::texts_of(names@),
                i <= names@.len(),
                perms@ == granted_by_roles::<P, RR>(
                    &self.registry(),
                    hierarchical,
                    texts.take(i as int).to_set(),
                ),
            decreases names.len() - i,
        {
            let ghost before = perms@;
            let ghost role = texts[i as int];
            if hierarchical {
                perms.insert_all(
                    &crate::rbac::hierarchy::resolve_role_chain::<P, RR>(names[i].as_str(), &self.role_registry),
                );
            } else {
                match self.role_registry.get_role_permissions(names[i].as_str()) {
                    Some(more) => {
                        perms.insert_all(&more);
                    },
                    None => {},
                }
            }
            proof {
                crate::collections::lemma_take_next_to_set(texts, i as int);
                let seen = texts.take(i as int).to_set();
                let grants = role_grants::<P, RR>(&self.registry(), hierarchical, role);
                assert(perms@ =~= before.union(grants));
                assert forall|p: P::Id| #![auto] perms@.contains(p) <==> some_role_grants::<P, RR>(
                    &self.registry(),
                    hierarchical,
                    seen.insert(role),
                    p,
                ) by {
                    if grants.contains(p) {
                        assert(seen.insert(role).contains(role));
                    }
                    if before.contains(p) {
                        let r = choose|r: Seq<char>| #[trigger]
                            seen.contains(r) && role_grants::<P, RR>(&self.registry(), hierarchical, r).contains(p);
                        assert(seen.insert(role).contains(r));
                    }
                    if some_role_grants::<P, RR>(&self.registry(), hierarchical, seen.insert(role), p) {
                        let r = choose|r: Seq<char>| #[trigger]
                            seen.insert(role).contains(r) && role_grants::<P, RR>(
                                &self.registry(),
                                hierarchical,
                                r,
                            ).contains(p);
                        if r != role {
                            assert(seen.contains(r));
                        }
                    }
                }
                assert(perms@ =~= granted_by_roles::<P, RR>(
                    &self.registry(),
                    hierarchical,
                    texts.take(i + 1).to_set(),
                ));
            }
            i = i + 1;
        }
        assert(texts.take(texts.len() as int) =~= texts);
        perms
    }

    /// Everything that a subject can exercise, with or without inheritance.
    fn collect(&self, subject: &S, hierarchical: bool) -> (r: Result<KeySet<P>, KirinoError>)
        requires
            self.wf(),
        ensures
            match r {
                Ok(perms) => perms.wf() && effective::<S, P, A, RR>(
                    &self.store(),
                    &self.registry(),
                    hierarchical,
                    subject.id_text(),
                ) == Ok::<Set<P::Id>, ErrorView>(perms@),
                Err(e) => effective::<S, P, A, RR>(
                    &self.store(),
                    &self.registry(),
                    hierarchical,
                    subject.id_text(),
                ) == Err::<Set<P::Id>, ErrorView>(e@),
            },
    {
        let names = match self.assignment_store.roles_of(subject) {
            Ok(names) => names,
            Err(e) => {
                return Err(e);
            },
        };
        let mut perms = self.collect_roles(&names, hierarchical);
        match self.assignment_store.extra_permissions(subject) {
            Ok(extra) => {
                perms.insert_all(&extra);
            },
            Err(e) => {
                return Err(e);
            },
        }
        match self.assignment_store.denied_permissions(subject) {
            Ok(denied) => {
                perms.remove_all(&denied);
            },
            Err(e) => {
                return Err(e);
            },
        }
        Ok(perms)
    }

    /// Every permission that a subject can exercise; a read that fails is reported.
    pub fn effective_permissions(&self, subject: &S) -> (r: Result<KeySet<P>, KirinoError>)
        requires
            self.wf(),
        ensures
            match r {
                Ok(perms) => perms.wf() && effective::<S, P, A, RR>(
                    &self.store(),
                    &self.registry(),
                    false,
                    subject.id_text(),
                ) == Ok::<Set<P::Id>, ErrorView>(perms@),
                Err(e) => effective::<S, P, A, RR>(&self.store(), &self.registry(), false, subject.id_text())
                    == Err::<Set<P::Id>, ErrorView>(e@),
            },
    {
        self.collect(subject, false)
    }

    /// [`RbacEngine::effective_permissions`] with the permissions that roles inherit.
    pub fn effective_permissions_hierarchical(&self, subject: &S) -> (r: Result<KeySet<P>, KirinoError>)
        requires
            self.wf(),
        ensures
            match r {
                Ok(perms) => perms.wf() && effective::<S, P, A, RR>(
                    &self.store(),
                    &self.registry(),
                    true,
                    subject.id_text(),
                ) == Ok::<Set<P::Id>, ErrorView>(perms@),
                Err(e) => effective::<S, P, A, RR>(&self.store(), &self.registry(), true, subject.id_text())
                    == Err::<Set<P::Id>, ErrorView>(e@),
            },
    {
        self.collect(subject, true)
    }

    /// A scoped check: a stale session is denied before the resolver is asked.
    pub fn check_permission<G: GrantResolver<P>>(
        &self,
        ctx: &PermissionContext,
        permission: &P,
        resource_id: Option<&str>,
        grant_resolver: &G,
    ) -> (r: Result<PermissionDecision, KirinoError>)
        requires
            grant_resolver.wf(),
        ensures
            crate::rbac::traits::decision_shown(r) == scoped_decision::<P, G>(
                grant_resolver,
                *ctx,
                *permission,
                crate::text::str_text(resource_id),
            ),
    {
        if ctx.is_session_stale() {
            return Ok(
                PermissionDecision::Denied {
                    reason: "session version is stale — re-authentication required".to_owned(),
                    source: None,
                },
            );
        }
        grant_resolver.resolve(ctx, permission, resource_id)
    }

    /// The permissions of a list that a resolver grants, in the order of the list; one whose
    /// decision fails is left out.
    pub fn granted_among<G: GrantResolver<P>>(&self, ctx: &PermissionContext, grant_resolver: &G, all: &Vec<P>) -> (r: Vec<
        P,
    >)
        requires
            grant_resolver.wf(),
        ensures
            r@ == all@.filter(|p: P| resolver_grants::<P, G>(grant_resolver, *ctx, p)),
    {
        let ghost keep = |p: P| resolver_grants::<P, G>(grant_resolver, *ctx, p);
        let mut r: Vec<P> = Vec::new();
        let mut i: usize = 0;
        assert(all@.take(0).filter(keep) =~= Seq::<P>::empty()) by {
            reveal(Seq::filter);
        }
        while i < all.len()
            invariant
                grant_resolver.wf(),
                i <= all@.len(),
                keep == (|p: P| resolver_grants::<P, G>(grant_resolver, *ctx, p)),
                r@ == all@.take(i as int).filter(keep),
            decreases all.len() - i,
        {
            proof {
                crate::collections::lemma_filter_next(all@, i as int, keep);
            }
            match grant_resolver.resolve(ctx, &all[i], None) {
                Ok(PermissionDecision::Granted { .. }) => {
                    assert(keep(all@[i as int]));
                    r.push(all[i].duplicate());
                },
                Ok(PermissionDecision::Denied { .. }) => {
                    assert(!keep(all@[i as int]));
                },
                Err(_) => {
                    assert(!keep(all@[i as int]));
                },
            }
            i = i + 1;
        }
        assert(all@.take(all@.len() as int) =~= all@);
        r
    }

    /// Every permission of the type that a resolver grants.
    pub fn resolve_effective_permissions<G: GrantResolver<P>>(&self, ctx: &PermissionContext, grant_resolver: &G) -> (r: Vec<
        P,
    >)
        requires
            grant_resolver.wf(),
        ensures
            exists|all: Vec<P>| #[trigger]
                call_ensures(P::all, (), all) && r@ == all@.filter(
                    |p: P| resolver_grants::<P, G>(grant_resolver, *ctx, p),
                ),
    {
        let all = P::all();
        self.granted_among(ctx, grant_resolver, &all)
    }
}

/// Whether a resolver grants a permission outright.
pub open spec fn resolver_grants<P: Permission, G: GrantResolver<P>>(
    resolver: &G,
    ctx: PermissionContext,
    permission: P,
) -> bool {
    resolver.decision(ctx, permission, None) matches Ok(crate::rbac::traits::DecisionView::Granted { .. })
}

/// The decision of a scoped check.
pub open spec fn scoped_decision<P: Permission, G: GrantResolver<P>>(
    resolver: &G,
    ctx: PermissionContext,
    permission: P,
    resource: Option<Seq<char>>,
) -> Result<crate::rbac::traits::DecisionView, ErrorView> {
    if ctx.stale() {
        Ok(
            crate::rbac::traits::DecisionView::Denied {
                reason: "session version is stale — re-authentication required"@,
                source: None,
            },
        )
    } else {
        resolver.decision(ctx, permission, resource)
    }
}

/// A denied permission is never granted: not by an added permission, not by a role.
pub proof fn law_deny_wins<S: Subject, P: Permission, A: AssignmentStore<S, P>, RR: RoleRegistry<P>>(
    store: &A,
    registry: &RR,
    hierarchical: bool,
    subject: Seq<char>,
    permission: P::Id,
)
    requires
        store.denied_read(subject) matches Ok(denied) && denied.contains(permission),
    ensures
        verdict::<S, P, A, RR>(store, registry, hierarchical, subject, permission) == Some(false),
        effective::<S, P, A, RR>(store, registry, hierarchical, subject) matches Ok(perms) ==> !perms.contains(
            permission,
        ),
{
}

/// Where every read succeeds, a check and the list of effective permissions agree.
pub proof fn law_check_agrees_with_listing<
    S: Subject,
    P: Permission,
    A: AssignmentStore<S, P>,
    RR: RoleRegistry<P>,
>(store: &A, registry: &RR, hierarchical: bool, subject: Seq<char>, permission: P::Id)
    requires
        effective::<S, P, A, RR>(store, registry, hierarchical, subject) is Ok,
    ensures
        verdict::<S, P, A, RR>(store, registry, hierarchical, subject, permission) == Some(
            effective::<S, P, A, RR>(store, registry, hierarchical, subject)->Ok_0.contains(permission),
        ),
{
}

/// A flat grant is also a hierarchical one: inheritance only adds.
pub proof fn law_inheritance_only_adds<
    S: Subject,
    P: Permission,
    A: AssignmentStore<S, P>,
    RR: RoleRegistry<P>,
>(store: &A, registry: &RR, subject: Seq<char>, permission: P::Id)
    requires
        verdict::<S, P, A, RR>(store, registry, false, subject, permission) == Some(true),
    ensures
        verdict::<S, P, A, RR>(store, registry, true, subject, permission) == Some(true),
{
    if let (Ok(extra), Ok(roles)) = (store.extra_read(subject), store.roles_read(subject)) {
        if !extra.contains(permission) {
            let role = choose|role: Seq<char>| #[trigger]
                roles.contains(role) && role_grants::<P, RR>(registry, false, role).contains(permission);
            assert(crate::rbac::hierarchy::leads_in(
                crate::rbac::hierarchy::links_of::<P, RR>(registry),
                role,
                role,
                0,
            ));
            crate::rbac::hierarchy::law_parents_only_add::<P, RR>(registry, role, role);
            assert(role_grants::<P, RR>(registry, true, role).contains(permission));
        }
    }
}

impl<
    S: Subject,
    P: Permission,
    A: AssignmentStore<S, P>,
    RR: RoleRegistry<P>,
    PR: PermissionRegistry<P>,
    C: PermissionCache<S, P>,
> RbacEngine<S, P, A, RR, PR, C> {
    /// Once a subject's decisions are forgotten, the next check is answered by the stores as they
    /// are then: whatever was remembered has no effect.
    pub proof fn law_check_after_invalidation_is_fresh(
        remembering: &Self,
        forgotten: &Self,
        after: &Self,
        hierarchical: bool,
        subject: Seq<char>,
        permission: P,
        now: u64,
        granted: bool,
    )
        requires
            crate::rbac::cache::drops_subject::<S, P, C>(remembering.memory(), forgotten.memory(), subject),
            forgotten.checked(after, hierarchical, subject, permission, now, granted),
        ensures
            granted == (verdict::<S, P, A, RR>(
                &forgotten.store(),
                &forgotten.registry(),
                hierarchical,
                subject,
                permission.id(),
            ) == Some(true)),
    {
    }

    /// A check whose reads fail is a denial that is not remembered.
    pub proof fn law_failed_read_denies_and_is_not_remembered(
        before: &Self,
        after: &Self,
        hierarchical: bool,
        subject: Seq<char>,
        permission: P,
        now: u64,
        granted: bool,
    )
        requires
            before.checked(after, hierarchical, subject, permission, now, granted),
            before.memory().recalled(subject, permission.name_text(), now) is None,
            verdict::<S, P, A, RR>(&before.store(), &before.registry(), hierarchical, subject, permission.id()) is None,
        ensures
            !granted,
            after.memory() == before.memory(),
    {
    }

    /// A check that is not answered from memory grants exactly what is not denied, and is either added
    /// to the subject or in the definition of one of its roles. An added permission needs no role. A
    /// read that fails grants nothing.
    pub proof fn law_check_is_decided_by_the_reads(
        before: Self,
        after: Self,
        subject: &S,
        permission: &P,
        now: u64,
        granted: bool,
    )
        requires
            exists|engine: &mut Self|
                *engine == before && *final(engine) == after && #[trigger] call_ensures(
                    Self::check,
                    (engine, subject, permission, now),
                    granted,
                ),
        ensures
            after.store() == before.store(),
            after.registry() == before.registry(),
            before.memory().recalled(subject.id_text(), permission.name_text(), now) matches Some(remembered)
                ==> granted == remembered && after.memory() == before.memory(),
            before.memory().recalled(subject.id_text(), permission.name_text(), now) is None ==> {
                let denied = before.store().denied_read(subject.id_text());
                let extra = before.store().extra_read(subject.id_text());
                let roles = before.store().roles_read(subject.id_text());
                let by_role = exists|role: Seq<char>| #[trigger]
                    roles->Ok_0.contains(role) && before.registry().roles().contains_key(role)
                        && before.registry().roles()[role].contains(permission.id());
                &&& granted <==> {
                    &&& denied is Ok && !denied->Ok_0.contains(permission.id())
                    &&& extra is Ok
                    &&& extra->Ok_0.contains(permission.id()) || roles is Ok && by_role
                }
                &&& (denied is Ok && extra is Ok && roles is Ok || granted) ==> before.memory().wrote(
                    &after.memory(),
                    subject.id_text(),
                    permission.name_text(),
                    granted,
                    now,
                )
                &&& denied is Err ==> after.memory() == before.memory()
            },
    {
        let roles = before.store().roles_read(subject.id_text());
        if some_role_grants::<P, RR>(&before.registry(), false, roles->Ok_0, permission.id()) {
            let role = choose|role: Seq<char>| #[trigger]
                roles->Ok_0.contains(role) && role_grants::<P, RR>(&before.registry(), false, role).contains(
                    permission.id(),
                );
            assert(roles->Ok_0.contains(role));
        }
    }

    /// A check with inheritance that is not answered from memory grants exactly what is not denied, and
    /// is either added to the subject or in the definition of a role that a line of descent leads to
    /// from one of its roles.
    pub proof fn law_hierarchical_check_is_decided_by_the_reads(
        before: Self,
        after: Self,
        subject: &S,
        permission: &P,
        now: u64,
        granted: bool,
    )
        requires
            exists|engine: &mut Self|
                *engine == before && *final(engine) == after && #[trigger] call_ensures(
                    Self::check_hierarchical,
                    (engine, subject, permission, now),
                    granted,
                ),
        ensures
            after.store() == before.store(),
            after.registry() == before.registry(),
            before.memory().recalled(subject.id_text(), permission.name_text(), now) matches Some(remembered)
                ==> granted == remembered && after.memory() == before.memory(),
            before.memory().recalled(subject.id_text(), permission.name_text(), now) is None ==> {
                let denied = before.store().denied_read(subject.id_text());
                let extra = before.store().extra_read(subject.id_text());
                let roles = before.store().roles_read(subject.id_text());
                let by_role = exists|line: Seq<Seq<char>>| #[trigger]
                    crate::rbac::hierarchy::is_line::<P, RR>(&before.registry(), line) && roles->Ok_0.contains(line[0])
                        && before.registry().roles().contains_key(line.last())
                        && before.registry().roles()[line.last()].contains(permission.id());
                &&& granted <==> {
                    &&& denied is Ok && !denied->Ok_0.contains(permission.id())
                    &&& extra is Ok
                    &&& extra->Ok_0.contains(permission.id()) || roles is Ok && by_role
                }
                &&& (denied is Ok && extra is Ok && roles is Ok || granted) ==> before.memory().wrote(
                    &after.memory(),
                    subject.id_text(),
                    permission.name_text(),
                    granted,
                    now,
                )
                &&& denied is Err ==> after.memory() == before.memory()
            },
    {
        let roles = before.store().roles_read(subject.id_text());
        lemma_roles_grant_along_lines::<P, RR>(&before.registry(), roles->Ok_0, permission.id());
    }

    /// Where every read succeeds, what a subject can exercise is what is added to it and what its roles
    /// are defined with, but for what is denied to it; otherwise the first read that fails is reported.
    pub proof fn law_effective_permissions_are_what_the_reads_give(engine: &Self, subject: &S, r: Result<KeySet<P>, KirinoError>, permission: P::Id)
        requires
            call_ensures(Self::effective_permissions, (engine, subject), r),
        ensures
            ({
                let denied = engine.store().denied_read(subject.id_text());
                let extra = engine.store().extra_read(subject.id_text());
                let roles = engine.store().roles_read(subject.id_text());
                match r {
                    Ok(perms) => {
                        &&& denied is Ok && extra is Ok && roles is Ok
                        &&& perms@.contains(permission) <==> !denied->Ok_0.contains(permission) && (
                        extra->Ok_0.contains(permission) || exists|role: Seq<char>| #[trigger]
                            roles->Ok_0.contains(role) && engine.registry().roles().contains_key(role)
                                && engine.registry().roles()[role].contains(permission))
                    },
                    Err(e) => {
                        ||| roles == Err::<Set<Seq<char>>, ErrorView>(e@)
                        ||| roles is Ok && extra == Err::<Set<P::Id>, ErrorView>(e@)
                        ||| roles is Ok && extra is Ok && denied == Err::<Set<P::Id>, ErrorView>(e@)
                    },
                }
            }),
    {
        let roles = engine.store().roles_read(subject.id_text());
        if some_role_grants::<P, RR>(&engine.registry(), false, roles->Ok_0, permission) {
            let role = choose|role: Seq<char>| #[trigger]
                roles->Ok_0.contains(role) && role_grants::<P, RR>(&engine.registry(), false, role).contains(permission);
            assert(roles->Ok_0.contains(role));
        }
    }

    /// Where every read succeeds, what a subject can exercise with inheritance is what is added to it and
    /// what is defined of the roles along the lines of descent from its roles, but for what is denied to
    /// it.
    pub proof fn law_hierarchical_permissions_are_what_the_reads_give(engine: &Self, subject: &S, r: Result<KeySet<P>, KirinoError>, permission: P::Id)
        requires
            call_ensures(Self::effective_permissions_hierarchical, (engine, subject), r),
        ensures
            ({
                let denied = engine.store().denied_read(subject.id_text());
                let extra = engine.store().extra_read(subject.id_text());
                let roles = engine.store().roles_read(subject.id_text());
                match r {
                    Ok(perms) => {
                        &&& denied is Ok && extra is Ok && roles is Ok
                        &&& perms@.contains(permission) <==> !denied->Ok_0.contains(permission) && (
                        extra->Ok_0.contains(permission) || exists|line: Seq<Seq<char>>| #[trigger]
                            crate::rbac::hierarchy::is_line::<P, RR>(&engine.registry(), line) && roles->Ok_0.contains(
                                line[0],
                            ) && engine.registry().roles().contains_key(line.last())
                                && engine.registry().roles()[line.last()].contains(permission))
                    },
                    Err(e) => {
                        ||| roles == Err::<Set<Seq<char>>, ErrorView>(e@)
                        ||| roles is Ok && extra == Err::<Set<P::Id>, ErrorView>(e@)
                        ||| roles is Ok && extra is Ok && denied == Err::<Set<P::Id>, ErrorView>(e@)
                    },
                }
            }),
    {
        let roles = engine.store().roles_read(subject.id_text());
        lemma_roles_grant_along_lines::<P, RR>(&engine.registry(), roles->Ok_0, permission);
    }

    /// The answers of a batch are for exactly what was asked. Where nothing of it was remembered, and no
    /// two of the permissions share a name, each is what the reads give.
    pub proof fn law_batch_is_decided_by_the_reads(
        before: Self,
        after: Self,
        subject: &S,
        permissions: &KeySet<P>,
        now: u64,
        r: Table<P, bool>,
        i: int,
    )
        requires
            exists|engine: &mut Self|
                *engine == before && *final(engine) == after && #[trigger] call_ensures(
                    Self::check_batch,
                    (engine, subject, permissions, now),
                    r,
                ),
            0 <= i < permissions.items().len(),
            forall|j: int, k: int|
                0 <= j < k < permissions.items().len() ==> (#[trigger] permissions.items()[j]).name_text() != (
                #[trigger] permissions.items()[k]).name_text(),
            before.memory().recalled(subject.id_text(), permissions.items()[i].name_text(), now) is None,
        ensures
            r@.dom() == permissions@,
            ({
                let id = permissions.items()[i].id();
                let denied = before.store().denied_read(subject.id_text());
                let extra = before.store().extra_read(subject.id_text());
                let roles = before.store().roles_read(subject.id_text());
                r@[id] <==> {
                    &&& denied is Ok && !denied->Ok_0.contains(id)
                    &&& extra is Ok
                    &&& extra->Ok_0.contains(id) || roles is Ok && exists|role: Seq<char>| #[trigger]
                        roles->Ok_0.contains(role) && before.registry().roles().contains_key(role)
                            && before.registry().roles()[role].contains(id)
                }
            }),
    {
        let run = choose|run: Seq<Self>|
            {
                &&& #[trigger] Self::checked_in_turn(run, subject.id_text(), permissions.items(), now, r@)
                &&& run[0] == before
                &&& run.last() == after
            };
        Self::law_batch_answers_one_by_one(run, subject.id_text(), permissions.items(), now, r@, i);
        let id = permissions.items()[i].id();
        let roles = before.store().roles_read(subject.id_text());
        if some_role_grants::<P, RR>(&before.registry(), false, roles->Ok_0, id) {
            let role = choose|role: Seq<char>| #[trigger]
                roles->Ok_0.contains(role) && role_grants::<P, RR>(&before.registry(), false, role).contains(id);
            assert(roles->Ok_0.contains(role));
        }
    }

    /// A scoped check hands on the decision of the resolver, but for a session whose version is
    /// below that of its subject: that one is denied, and no grant is named.
    pub proof fn law_scoped_check_asks_the_resolver<G: GrantResolver<P>>(
        engine: &Self,
        ctx: &PermissionContext,
        permission: &P,
        resource_id: Option<&str>,
        resolver: &G,
        r: Result<PermissionDecision, KirinoError>,
    )
        requires
            call_ensures(Self::check_permission::<G>, (engine, ctx, permission, resource_id, resolver), r),
        ensures
            ctx.session_version < ctx.current_user_version ==> (r matches Ok(PermissionDecision::Denied { source: None, .. })),
            !(ctx.session_version < ctx.current_user_version) ==> crate::rbac::traits::decision_shown(r) == resolver.decision(
                *ctx,
                *permission,
                match resource_id {
                    Some(id) => Some(id@),
                    None => None,
                },
            ),
    {
    }

    /// The permissions that a resolver grants are those of the list for which its decision without a
    /// resource is a grant, in the order of the list.
    pub proof fn law_granted_among_keeps_what_is_granted<G: GrantResolver<P>>(
        engine: &Self,
        ctx: &PermissionContext,
        resolver: &G,
        all: &Vec<P>,
        r: Vec<P>,
    )
        requires
            call_ensures(Self::granted_among::<G>, (engine, ctx, resolver, all), r),
        ensures
            forall|p: P|
                r@.contains(p) <==> all@.contains(p) && (#[trigger] resolver.decision(*ctx, p, None) matches Ok(
                    crate::rbac::traits::DecisionView::Granted { .. },
                )),
            r@ == all@.filter(
                |p: P|
                    resolver.decision(*ctx, p, None) matches Ok(crate::rbac::traits::DecisionView::Granted { .. }),
            ),
    {
        let keep = |p: P| resolver_grants::<P, G>(resolver, *ctx, p);
        assert(keep =~= (|p: P|
            resolver.decision(*ctx, p, None) matches Ok(crate::rbac::traits::DecisionView::Granted { .. })));
        assert forall|p: P|
            r@.contains(p) <==> all@.contains(p) && (#[trigger] resolver.decision(*ctx, p, None) matches Ok(
                crate::rbac::traits::DecisionView::Granted { .. },
            )) by {
            crate::collections::lemma_filter_contains(all@, keep, p);
        }
    }

    /// Each answer of a batch is the one that was remembered when the batch began, or what the
    /// stores say, provided that no two of the permissions share a name.
    pub proof fn law_batch_answers_one_by_one(
        run: Seq<Self>,
        subject: Seq<char>,
        permissions: Seq<P>,
        now: u64,
        answers: Map<P::Id, bool>,
        i: int,
    )
        requires
            Self::checked_in_turn(run, subject, permissions, now, answers),
            0 <= i < permissions.len(),
            forall|j: int, k: int|
                0 <= j < k < permissions.len() ==> (#[trigger] permissions[j]).name_text() != (
                #[trigger] permissions[k]).name_text(),
        ensures
            ({
                let answer = answers[permissions[i].id()];
                ||| run[0].memory().recalled(subject, permissions[i].name_text(), now) == Some(answer)
                ||| answer == (verdict::<S, P, A, RR>(
                    &run[0].store(),
                    &run[0].registry(),
                    false,
                    subject,
                    permissions[i].id(),
                ) == Some(true))
            }),
    {
        Self::lemma_batch_state(run, subject, permissions, now, answers, i, i);
        assert(answers.contains_key(permissions[i].id()));
    }

    proof fn lemma_batch_state(
        run: Seq<Self>,
        subject: Seq<char>,
        permissions: Seq<P>,
        now: u64,
        answers: Map<P::Id, bool>,
        i: int,
        n: int,
    )
        requires
            Self::checked_in_turn(run, subject, permissions, now, answers),
            0 <= n <= i < permissions.len(),
            forall|j: int, k: int|
                0 <= j < k < permissions.len() ==> (#[trigger] permissions[j]).name_text() != (
                #[trigger] permissions[k]).name_text(),
        ensures
            run[n].store() == run[0].store(),
            run[n].registry() == run[0].registry(),
            run[n].memory().recalled(subject, permissions[i].name_text(), now) == run[0].memory().recalled(
                subject,
                permissions[i].name_text(),
                now,
            ) || run[n].memory().recalled(subject, permissions[i].name_text(), now) is None,
        decreases n,
    {
        if n > 0 {
            Self::lemma_batch_state(run, subject, permissions, now, answers, i, n - 1);
            let a = run[n - 1];
            let b = run[n];
            let p = permissions[n - 1];
            assert(a.checked(&b, false, subject, p, now, answers[p.id()]));
            assert(p.name_text() != permissions[i].name_text());
        }
    }
}

/// What was decided once is answered again without a look at the stores until its lifetime has passed,
/// as long as there was room to remember it.
pub proof fn law_decision_is_answered_again<
    S: Subject,
    P: Permission,
    A: AssignmentStore<S, P>,
    RR: RoleRegistry<P>,
    PR: PermissionRegistry<P>,
>(
    before: RbacEngine<S, P, A, RR, PR, TtlPermissionCache>,
    after: RbacEngine<S, P, A, RR, PR, TtlPermissionCache>,
    changed: RbacEngine<S, P, A, RR, PR, TtlPermissionCache>,
    at_last: RbacEngine<S, P, A, RR, PR, TtlPermissionCache>,
    subject: &S,
    permission: &P,
    now: u64,
    later: u64,
    granted: bool,
    again: bool,
)
    requires
        exists|engine: &mut RbacEngine<S, P, A, RR, PR, TtlPermissionCache>|
            *engine == before && *final(engine) == after && #[trigger] call_ensures(
                RbacEngine::<S, P, A, RR, PR, TtlPermissionCache>::check,
                (engine, subject, permission, now),
                granted,
            ),
        changed.memory() == after.memory(),
        exists|engine: &mut RbacEngine<S, P, A, RR, PR, TtlPermissionCache>|
            *engine == changed && *final(engine) == at_last && #[trigger] call_ensures(
                RbacEngine::<S, P, A, RR, PR, TtlPermissionCache>::check,
                (engine, subject, permission, later),
                again,
            ),
        crate::rbac::cache::cached(before.memory()@, subject.id_text(), permission.name_text(), now) is None,
        before.store().denied_read(subject.id_text()) is Ok,
        before.store().extra_read(subject.id_text()) is Ok,
        before.store().roles_read(subject.id_text()) is Ok,
        before.memory()@.dom().finite(),
        before.memory()@.len() < before.memory().cap(),
        later < now + before.memory().lifetime(),
    ensures
        again == granted,
        at_last.memory() == after.memory(),
{
    let key = (subject.id_text(), permission.name_text());
    let entry = crate::rbac::cache::CacheEntry {
        granted,
        expires_at: (now + before.memory().lifetime()) as u128,
    };
    assert(before.memory()@.insert(key, entry).dom() =~= before.memory()@.dom().insert(key));
}

/// One of some roles grants a permission with inheritance exactly if a line of descent leads from it to
/// a role that is defined with the permission.
proof fn lemma_roles_grant_along_lines<P: Permission, RR: RoleRegistry<P>>(
    registry: &RR,
    roles: Set<Seq<char>>,
    permission: P::Id,
)
    ensures
        some_role_grants::<P, RR>(registry, true, roles, permission) <==> exists|line: Seq<Seq<char>>| #[trigger]
            crate::rbac::hierarchy::is_line::<P, RR>(registry, line) && roles.contains(line[0])
                && registry.roles().contains_key(line.last()) && registry.roles()[line.last()].contains(permission),
{
    if some_role_grants::<P, RR>(registry, true, roles, permission) {
        let role = choose|role: Seq<char>| #[trigger]
            roles.contains(role) && role_grants::<P, RR>(registry, true, role).contains(permission);
        crate::rbac::hierarchy::lemma_inherited_lines::<P, RR>(registry, role, permission);
    }
    if exists|line: Seq<Seq<char>>| #[trigger]
        crate::rbac::hierarchy::is_line::<P, RR>(registry, line) && roles.contains(line[0])
            && registry.roles().contains_key(line.last()) && registry.roles()[line.last()].contains(permission) {
        let line = choose|line: Seq<Seq<char>>| #[trigger]
            crate::rbac::hierarchy::is_line::<P, RR>(registry, line) && roles.contains(line[0])
                && registry.roles().contains_key(line.last()) && registry.roles()[line.last()].contains(permission);
        crate::rbac::hierarchy::lemma_inherited_lines::<P, RR>(registry, line[0], permission);
        assert(role_grants::<P, RR>(registry, true, line[0]).contains(permission));
    }
}

/// A stale session is denied whatever the resolver would say.
pub proof fn law_stale_session_is_denied<P: Permission, G: GrantResolver<P>>(
    resolver: &G,
    ctx: PermissionContext,
    permission: P,
    resource: Option<Seq<char>>,
)
    requires
        ctx.stale(),
    ensures
        scoped_decision::<P, G>(resolver, ctx, permission, resource) matches Ok(
            crate::rbac::traits::DecisionView::Denied { source: None, .. },
        ),
{
}

impl<
    S: Subject,
    P: Permission,
    A: AssignmentStore<S, P>,
    RR: RoleRegistry<P>,
    PR: PermissionRegistry<P>,
    C: PermissionCache<S, P>,
> RbacEngine<S, P, A, RR, PR, C> {
    /// An engine has the parts that it was made with, or was given since.
    pub proof fn law_parts_of_an_engine<D: PermissionCache<S, P>>(
        engine: Self,
        cache: D,
        other: RbacEngine<S, P, A, RR, PR, D>,
        roles: &RR,
        catalogue: &PR,
        store: &A,
        memory: &D,
    )
        requires
            call_ensures(Self::with_cache::<D>, (engine, cache), other),
            call_ensures(RbacEngine::<S, P, A, RR, PR, D>::role_registry, (&other,), roles),
            call_ensures(RbacEngine::<S, P, A, RR, PR, D>::permission_registry, (&other,), catalogue),
            call_ensures(RbacEngine::<S, P, A, RR, PR, D>::assignment_store, (&other,), store),
            call_ensures(RbacEngine::<S, P, A, RR, PR, D>::cache, (&other,), memory),
        ensures
            *roles == engine.registry() && *catalogue == engine.catalogue() && *store == engine.store() && *memory == cache,
    {
    }

    /// What is forgotten of a subject is no longer answered from memory, and nothing else of the engine
    /// changes; forgetting everything leaves nothing to answer from.
    pub proof fn law_forgotten_decisions(
        before: Self,
        after: Self,
        emptied: Self,
        subject: &S,
        name: Seq<char>,
        who: Seq<char>,
        now: u64,
    )
        requires
            exists|engine: &mut Self|
                *engine == before && *final(engine) == after && #[trigger] call_ensures(
                    Self::invalidate_subject_cache,
                    (engine, subject),
                    (),
                ),
            exists|engine: &mut Self|
                *engine == before && *final(engine) == emptied && #[trigger] call_ensures(
                    Self::invalidate_all_cache,
                    (engine,),
                    (),
                ),
        ensures
            after.memory().recalled(subject.id_text(), name, now) is None,
            after.memory().recalled(who, name, now) is Some ==> after.memory().recalled(who, name, now)
                == before.memory().recalled(who, name, now),
            emptied.memory().recalled(who, name, now) is None,
            after.store() == before.store() && after.registry() == before.registry(),
            emptied.store() == before.store() && emptied.registry() == before.registry(),
    {
    }
}

/// A new engine remembers decisions for five minutes, has the parts that it was made of, and remembers
/// none yet.
pub proof fn law_new_engine<
    S: Subject,
    P: Permission,
    A: AssignmentStore<S, P>,
    RR: RoleRegistry<P>,
    PR: PermissionRegistry<P>,
>(roles: RR, catalogue: PR, store: A, engine: RbacEngine<S, P, A, RR, PR>)
    requires
        call_ensures(RbacEngine::<S, P, A, RR, PR>::new, (roles, catalogue, store), engine),
    ensures
        engine.registry() == roles && engine.catalogue() == catalogue && engine.store() == store,
        engine.memory().lifetime() == 300_000_000_000,
        engine.memory().cap() == 10_000,
        engine.memory()@.dom() == Set::<(Seq<char>, Seq<char>)>::empty(),
{
}

} // verus!
