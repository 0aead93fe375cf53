//! The steps of registration, login and password change.
//!
//! Accounts, hashes and tokens are kept elsewhere. Each step takes what was found there, and says
//! whether to go on. A name that is unknown, an account that is switched off and a wrong password
//! are answered alike.
use crate::error::{ErrorView, KirinoError};
use crate::ids::parse_uuid;
use crate::rbac::cache::PermissionCache;
use crate::rbac::dynamic::anomaly::AnomalyDetector;
use crate::rbac::dynamic::arbiter::{Arithmetic, AuthorizationArbiter};
use crate::rbac::dynamic::metrics::ActionRequest;
use crate::rbac::dynamic::trust::{TrustScore, TrustScoreStore};
use crate::rbac::dynamic::verdict::{AuthorizationVerdict, SubScores};
use crate::rbac::engine::RbacEngine;
use crate::rbac::subject::StringSubject;
use crate::rbac::traits::{AssignmentStore, Permission, PermissionRegistry, RoleRegistry, Subject};
use crate::score::Score;
use crate::service::login::rate_limiter::{Limits, LoginRateLimiter};
use crate::service::login::users::UserRecord;
use crate::service::login::validation::{trim, validate_password, validate_username};
use vstd::prelude::*;

verus! {

/// What was found and checked comes to this failure, if any.
pub open spec fn login_failure(found: Option<UserRecord>, verified: Result<bool, KirinoError>) -> Option<ErrorView> {
    match found {
        Some(user) if user.is_active => match verified {
            Ok(true) => None,
            Ok(false) => Some(ErrorView::AuthenticationFailed),
            Err(e) => Some(e@),
        },
        _ => Some(ErrorView::AuthenticationFailed),
    }
}

/// What a change of password comes to, given whether the account was found and whether the old
/// password fits; the new one is looked at last.
pub open spec fn change_outcome(found: bool, verified: Result<bool, KirinoError>, new_password: Seq<char>) -> Result<
    (),
    ErrorView,
> {
    if !found {
        Err(ErrorView::NotFound("user not found"@))
    } else {
        match verified {
            Err(e) => Err(e@),
            Ok(false) => Err(ErrorView::AuthenticationFailed),
            Ok(true) => crate::service::login::validation::shape_of(new_password).outcome(),
        }
    }
}

/// The settings and the counters of the service.
pub struct AuthService {
    rate_limiter: LoginRateLimiter,
    register_rate_limiter: LoginRateLimiter,
    first_user_role: String,
    default_role: String,
    auto_admin_first_user: bool,
    has_first_user: bool,
}

impl AuthService {
    /// The failed logins.
    pub closed spec fn logins(&self) -> LoginRateLimiter {
        self.rate_limiter
    }

    /// The failed registrations.
    pub closed spec fn registrations(&self) -> LoginRateLimiter {
        self.register_rate_limiter
    }

    /// The role of the first user.
    pub closed spec fn first_role(&self) -> Seq<char> {
        self.first_user_role@
    }

    /// The role of every other user.
    pub closed spec fn other_role(&self) -> Seq<char> {
        self.default_role@
    }

    /// Whether the first user gets a role of their own.
    pub closed spec fn singles_out_first(&self) -> bool {
        self.auto_admin_first_user
    }

    /// Whether someone was already looked at as the first user.
    pub closed spec fn latched(&self) -> bool {
        self.has_first_user
    }

    /// Whether the value is well formed.
    pub open spec fn wf(&self) -> bool {
        self.logins().wf() && self.registrations().wf()
    }

    /// The service with its built-in limits: five logins in five minutes and then a quarter of an
    /// hour, three registrations in five minutes and then half an hour. No one is singled out.
    #[must_use]
    pub fn new(first_user_role: &str, default_role: &str) -> (r: Self)
        ensures
            r.wf(),
            r.logins().limits() == (Limits { max_attempts: 5, window_secs: 300, lockout_secs: 900 }),
            r.logins().entries().dom() == Set::<Seq<char>>::empty(),
            r.registrations().limits() == (Limits { max_attempts: 3, window_secs: 300, lockout_secs: 1800 }),
            r.registrations().entries().dom() == Set::<Seq<char>>::empty(),
            r.first_role() == first_user_role@,
            r.other_role() == default_role@,
            !r.singles_out_first(),
            !r.latched(),
    {
        AuthService {
            rate_limiter: LoginRateLimiter::new(5, 300, 900),
            register_rate_limiter: LoginRateLimiter::new(3, 300, 1800),
            first_user_role: first_user_role.to_owned(),
            default_role: default_role.to_owned(),
            auto_admin_first_user: false,
            has_first_user: false,
        }
    }

    /// The service with other limits on logins.
    #[must_use]
    pub fn with_rate_limiter(self, limiter: LoginRateLimiter) -> (r: Self)
        requires
            self.wf(),
            limiter.wf(),
        ensures
            r.wf(),
            r.logins() == limiter,
            r.registrations() == self.registrations(),
            r.first_role() == self.first_role(),
            r.other_role() == self.other_role(),
            r.singles_out_first() == self.singles_out_first(),
            r.latched() == self.latched(),
    {
        AuthService {
            rate_limiter: limiter,
            register_rate_limiter: self.register_rate_limiter,
            first_user_role: self.first_user_role,
            default_role: self.default_role,
            auto_admin_first_user: self.auto_admin_first_user,
            has_first_user: self.has_first_user,
        }
    }

    /// The service with the first user singled out, or not.
    #[must_use]
    pub fn with_auto_admin_first_user(self, enabled: bool) -> (r: Self)
        requires
            self.wf(),
        ensures
            r.wf(),
            r.logins() == self.logins(),
            r.registrations() == self.registrations(),
            r.first_role() == self.first_role(),
            r.other_role() == self.other_role(),
            r.singles_out_first() == enabled,
            r.latched() == self.latched(),
    {
        AuthService {
            rate_limiter: self.rate_limiter,
            register_rate_limiter: self.register_rate_limiter,
            first_user_role: self.first_user_role,
            default_role: self.default_role,
            auto_admin_first_user: enabled,
            has_first_user: self.has_first_user,
        }
    }

    /// Whether everything but the counters is as in another service.
    pub open spec fn settled_as(&self, other: &Self) -> bool {
        &&& self.first_role() == other.first_role()
        &&& self.other_role() == other.other_role()
        &&& self.singles_out_first() == other.singles_out_first()
        &&& self.logins().limits() == other.logins().limits()
        &&& self.registrations().limits() == other.registrations().limits()
    }

    /// Begins a registration: the name and the password are looked at, and only then is an
    /// attempt counted, under the canonical name, which is returned.
    pub fn begin_registration(&mut self, username: &str, password: &str, now: u64) -> (r: Result<String, KirinoError>)
        requires
            old(self).wf(),
        ensures
            final(self).wf(),
            final(self).settled_as(old(self)),
            final(self).logins() == old(self).logins(),
            final(self).latched() == old(self).latched(),
            match crate::service::login::validation::username_outcome(username@) {
                Err(e) => r is Err && r->Err_0@ == e && final(self).registrations() == old(self).registrations(),
                Ok(name) => match crate::service::login::validation::shape_of(password@).outcome() {
                    Err(e) => r is Err && r->Err_0@ == e && final(self).registrations() == old(self).registrations(),
                    Ok(()) => {
                        let kept = crate::service::login::rate_limiter::pruned(
                            old(self).registrations().entries(),
                            old(self).registrations().limits(),
                            now,
                        );
                        let (outcome, entry) = crate::service::login::rate_limiter::attempt(
                            old(self).registrations().limits(),
                            crate::service::login::rate_limiter::known_of(kept, name),
                            now,
                        );
                        &&& final(self).registrations().entries() == kept.insert(name, entry)
                        &&& match outcome {
                            Ok(()) => r is Ok && r->Ok_0@ == name,
                            Err(e) => r is Err && r->Err_0@ == e,
                        }
                    },
                },
            },
    {
        let name = match validate_username(username) {
            Ok(name) => name,
            Err(e) => {
                return Err(e);
            },
        };
        match validate_password(password) {
            Ok(()) => {},
            Err(e) => {
                return Err(e);
            },
        }
        match self.register_rate_limiter.check_and_record_failure(name.as_str(), now) {
            Ok(()) => Ok(name),
            Err(e) => Err(e),
        }
    }

    /// Whether a name can be registered, given whether an account has it.
    pub fn check_free(&self, taken: bool) -> (r: Result<(), KirinoError>)
        ensures
            if taken {
                r is Err && r->Err_0@ == ErrorView::Validation("username already exists"@)
            } else {
                r is Ok
            },
    {
        if taken {
            Err(KirinoError::Validation("username already exists".to_owned()))
        } else {
            Ok(())
        }
    }

    /// Whether a registration may be that of the first user, for which the accounts then have to
    /// be counted. Where the first user is singled out this is asked once, and never again.
    pub fn claim_first_user(&mut self) -> (r: bool)
        requires
            old(self).wf(),
        ensures
            final(self).wf(),
            final(self).settled_as(old(self)),
            final(self).logins() == old(self).logins(),
            final(self).registrations() == old(self).registrations(),
            r == (old(self).singles_out_first() && !old(self).latched()),
            final(self).latched() == (old(self).latched() || old(self).singles_out_first()),
    {
        if !self.auto_admin_first_user {
            return false;
        }
        let claimed = !self.has_first_user;
        self.has_first_user = true;
        claimed
    }

    /// The role of a new user, given whether they may be the first and how many there are.
    pub fn role_for(&self, claimed: bool, users: u64) -> (r: &str)
        ensures
            r@ == (if claimed && users == 0 {
                self.first_role()
            } else {
                self.other_role()
            }),
    {
        if claimed && users == 0 {
            self.first_user_role.as_str()
        } else {
            self.default_role.as_str()
        }
    }

    /// Ends a registration: one that succeeded is no longer counted as a failure.
    pub fn end_registration(&mut self, username: &str, succeeded: bool)
        requires
            old(self).wf(),
        ensures
            final(self).wf(),
            final(self).settled_as(old(self)),
            final(self).logins() == old(self).logins(),
            final(self).latched() == old(self).latched(),
            final(self).registrations().entries() == (if succeeded {
                old(self).registrations().entries().remove(username@)
            } else {
                old(self).registrations().entries()
            }),
    {
        if succeeded {
            self.register_rate_limiter.reset(username);
        }
    }

    /// Begins a login: an attempt is counted under the name without white space around it, which
    /// is returned.
    pub fn begin_login(&mut self, username: &str, now: u64) -> (r: Result<String, KirinoError>)
        requires
            old(self).wf(),
        ensures
            final(self).wf(),
            final(self).settled_as(old(self)),
            final(self).registrations() == old(self).registrations(),
            final(self).latched() == old(self).latched(),
            ({
                let name = crate::service::login::validation::trimmed(username@);
                let kept = crate::service::login::rate_limiter::pruned(
                    old(self).logins().entries(),
                    old(self).logins().limits(),
                    now,
                );
                let (outcome, entry) = crate::service::login::rate_limiter::attempt(
                    old(self).logins().limits(),
                    crate::service::login::rate_limiter::known_of(kept, name),
                    now,
                );
                &&& final(self).logins().entries() == kept.insert(name, entry)
                &&& match outcome {
                    Ok(()) => r is Ok && r->Ok_0@ == name,
                    Err(e) => r is Err && r->Err_0@ == e,
                }
            }),
    {
        let name = trim(username);
        match self.rate_limiter.check_and_record_failure(name.as_str(), now) {
            Ok(()) => Ok(name),
            Err(e) => Err(e),
        }
    }

    /// Ends a login, given what was found of the name and what checking the password came to. One
    /// that succeeds frees the name.
    pub fn end_login(&mut self, username: &str, found: Option<UserRecord>, verified: Result<bool, KirinoError>) -> (r: Result<
        UserRecord,
        KirinoError,
    >)
        requires
            old(self).wf(),
        ensures
            final(self).wf(),
            final(self).settled_as(old(self)),
            final(self).registrations() == old(self).registrations(),
            final(self).latched() == old(self).latched(),
            match login_failure(found, verified) {
                None => {
                    &&& r == Ok::<UserRecord, KirinoError>(found->Some_0)
                    &&& final(self).logins().entries() == old(self).logins().entries().remove(username@)
                },
                Some(e) => r is Err && r->Err_0@ == e && final(self).logins() == old(self).logins(),
            },
    {
        let user = match found {
            Some(user) => user,
            None => {
                return Err(KirinoError::AuthenticationFailed);
            },
        };
        if !user.is_active {
            return Err(KirinoError::AuthenticationFailed);
        }
        match verified {
            Err(e) => Err(e),
            Ok(false) => Err(KirinoError::AuthenticationFailed),
            Ok(true) => {
                self.rate_limiter.reset(username);
                Ok(user)
            },
        }
    }

    /// Whether a password may be changed, given whether the account was found and what checking
    /// the old password came to.
    pub fn check_password_change(&self, found: bool, verified: Result<bool, KirinoError>, new_password: &str) -> (r: Result<
        (),
        KirinoError,
    >)
        ensures
            match change_outcome(found, verified, new_password@) {
                Ok(()) => r is Ok,
                Err(e) => r is Err && r->Err_0@ == e,
            },
    {
        if !found {
            return Err(KirinoError::NotFound("user not found".to_owned()));
        }
        match verified {
            Err(e) => Err(e),
            Ok(false) => Err(KirinoError::AuthenticationFailed),
            Ok(true) => validate_password(new_password),
        }
    }

    /// Whether a user has a permission.
    pub fn check_permission<
        P: Permission,
        A: AssignmentStore<StringSubject, P>,
        RR: RoleRegistry<P>,
        PR: PermissionRegistry<P>,
        C: PermissionCache<StringSubject, P>,
    >(&self, engine: &mut RbacEngine<StringSubject, P, A, RR, PR, C>, user_id: &str, permission: &P, now: u64) -> (r: bool)
        requires
            old(engine).wf(),
        ensures
            old(engine).checked(final(engine), false, user_id@, *permission, now, r),
    {
        let subject = StringSubject::new(user_id);
        engine.check(&subject, permission, now)
    }

    /// Whether a user has a permission and the arbiter, where there is one with its trust store,
    /// allows the request. The roles are asked first: where they refuse, the arbiter is not asked and observes nothing.
    /// A verdict that was asked for comes along.
    pub fn check_static_and_dynamic<
        P: Permission,
        A: AssignmentStore<StringSubject, P>,
        RR: RoleRegistry<P>,
        PR: PermissionRegistry<P>,
        C: PermissionCache<StringSubject, P>,
        S: TrustScoreStore,
        D: Fn(&AnomalyDetector) -> Score,
        E: Fn(TrustScore, Option<Score>) -> Score,
        T: Fn(SubScores, [Score; 5]) -> Score,
        W: Fn(Score) -> String,
    >(
        &self,
        engine: &mut RbacEngine<StringSubject, P, A, RR, PR, C>,
        user_id: &str,
        permission: &P,
        action_request: &ActionRequest,
        arbiter: Option<(&mut AuthorizationArbiter, &S)>,
        arithmetic: &Arithmetic<D, E, T, W>,
        ticks: u64,
        now: i128,
    ) -> (r: (bool, Option<AuthorizationVerdict>))
        requires
            old(engine).wf(),
            arbiter matches Some((a, trust)) ==> a.wf() && trust.wf(),
            arithmetic.is_total(),
        ensures
            final(engine).wf(),
            exists|granted: bool|
                {
                    &&& #[trigger] old(engine).checked(final(engine), false, user_id@, *permission, ticks, granted)
                    &&& match arbiter {
                        None => r.0 == granted && r.1 is None,
                        Some((a, trust)) => if granted {
                            &&& r.1 matches Some(verdict)
                            &&& final(a).wf()
                            &&& a.authorized(final(a), trust, action_request, arithmetic, now, verdict@)
                            &&& r.0 == verdict.allowed
                        } else {
                            r.0 == false && r.1 is None && *final(a) == *a
                        },
                    }
                },
    {
        let granted = self.check_permission(engine, user_id, permission, ticks);
        if !granted {
            return (false, None);
        }
        match arbiter {
            None => (true, None),
            Some((arbiter, trust)) => {
                let verdict = arbiter.authorize(trust, action_request, arithmetic, now);
                (verdict.allowed, Some(verdict))
            },
        }
    }
}

/// The identifier that a text stands for.
pub fn parse_user_id(user_id: &str) -> (r: Result<u128, KirinoError>)
    ensures
        match crate::ids::uuid_read(user_id@) {
            Ok(id) => r is Ok && r->Ok_0 == id,
            Err(_) => r is Err && r->Err_0@ == ErrorView::Validation("invalid user_id"@),
        },
        forall|id: u128|
            #![trigger crate::ids::uuid_text(id)]
            user_id@ == crate::ids::uuid_text(id) ==> r is Ok && r->Ok_0 == id,
{
    match parse_uuid(user_id) {
        Ok(id) => Ok(id),
        Err(_) => Err(KirinoError::Validation("invalid user_id".to_owned())),
    }
}

/// The names of some permissions, in their order.
fn names_of_set<P: Permission>(perms: &crate::collections::KeySet<P>) -> (r: Vec<String>)
    requires
        perms.wf(),
    ensures
        crate::rbac::traits::texts_of(r@) == crate::rbac::registry::names_of(perms.items()),
{
    let ghost all = crate::rbac::registry::names_of(perms.items());
    let mut r: Vec<String> = Vec::new();
    let mut i: usize = 0;
    assert(crate::rbac::traits::texts_of(r@) =~= all.take(0));
    while i < perms.len()
        invariant
            perms.wf(),
            i <= perms.items().len(),
            all == crate::rbac::registry::names_of(perms.items()),
            crate::rbac::traits::texts_of(r@) == all.take(i as int),
        decreases perms.items().len() - i,
    {
        let ghost before = crate::rbac::traits::texts_of(r@);
        r.push(perms.item_at(i).name().to_owned());
        assert(crate::rbac::traits::texts_of(r@) =~= before.push(all[i as int]));
        assert(all.take(i + 1) =~= all.take(i as int).push(all[i as int]));
        i = i + 1;
    }
    assert(all.take(all.len() as int) =~= all);
    r
}

/// The roles of a user, and the names of the permissions that they can exercise. Where either
/// cannot be read, nothing is granted.
pub fn fetch_user_roles_and_perms<
    P: Permission,
    A: AssignmentStore<StringSubject, P>,
    RR: RoleRegistry<P>,
    PR: PermissionRegistry<P>,
    C: PermissionCache<StringSubject, P>,
>(engine: &RbacEngine<StringSubject, P, A, RR, PR, C>, user_id: &str) -> (r: Result<(Vec<String>, Vec<String>), KirinoError>)
    requires
        engine.wf(),
    ensures
        match (
            engine.store().roles_read(user_id@),
            crate::rbac::engine::effective::<StringSubject, P, A, RR>(
                &engine.store(),
                &engine.registry(),
                false,
                user_id@,
            ),
        ) {
            (Ok(roles), Ok(perms)) => {
                &&& r is Ok
                &&& crate::rbac::traits::texts_of(r->Ok_0.0@).to_set() == roles
                &&& exists|set: crate::collections::KeySet<P>|
                    #![trigger set.items()]
                    set.wf() && set@ == perms && crate::rbac::traits::texts_of(r->Ok_0.1@)
                        == crate::rbac::registry::names_of(set.items())
            },
            _ => r is Err && r->Err_0@ == ErrorView::AuthorizationDenied("store unavailable"@),
        },
{
    let subject = StringSubject::new(user_id);
    let roles = match engine.assignment_store().roles_of(&subject) {
        Ok(roles) => roles,
        Err(_) => {
            return Err(KirinoError::AuthorizationDenied("store unavailable".to_owned()));
        },
    };
    match engine.effective_permissions(&subject) {
        Ok(perms) => {
            let names = names_of_set(&perms);
            assert(perms.wf() && crate::rbac::traits::texts_of(names@) == crate::rbac::registry::names_of(perms.items()));
            Ok((roles, names))
        },
        Err(_) => Err(KirinoError::AuthorizationDenied("store unavailable".to_owned())),
    }
}

/// A name that is unknown, an account that is switched off, and a wrong password are answered
/// with the same failure.
pub proof fn law_failed_logins_look_alike(
    unknown: Option<UserRecord>,
    inactive: Option<UserRecord>,
    active: Option<UserRecord>,
    v: Result<bool, KirinoError>,
    w: Result<bool, KirinoError>,
)
    requires
        unknown is None,
        inactive is Some && !inactive->Some_0.is_active,
        active is Some && active->Some_0.is_active,
    ensures
        login_failure(unknown, v) == Some(ErrorView::AuthenticationFailed),
        login_failure(inactive, w) == login_failure(unknown, v),
        login_failure(active, Ok(false)) == login_failure(unknown, v),
{
}

/// Only an account that is found, is switched on and whose password fits is let in.
pub proof fn law_login_needs_everything(found: Option<UserRecord>, verified: Result<bool, KirinoError>)
    ensures
        login_failure(found, verified) is None <==> found is Some && found->Some_0.is_active && verified
            == Ok::<bool, KirinoError>(true),
{
}

/// The role of the first user is given at most once: after a registration that succeeded, or that
/// was looked at as the first, whoever registers gets the other role, whatever accounts there are.
pub proof fn law_first_role_is_given_once(
    from: &AuthService,
    to: &AuthService,
    accounts: Map<u128, crate::service::login::users::UserView>,
)
    requires
        to.settled_as(from),
        to.latched() == (from.latched() || from.singles_out_first()),
    ensures
        to.role_given(accounts) == to.other_role(),
{
}

/// A new service allows five failed logins in five minutes and then locks out for fifteen, and three
/// failed registrations in five minutes and then for thirty; it has counted none, and singles nobody
/// out. Each setting changes itself alone.
pub proof fn law_service_to_start_from(
    first: &str,
    other: &str,
    made: AuthService,
    limiter: LoginRateLimiter,
    limited: AuthService,
    enabled: bool,
    singled: AuthService,
    name: Seq<char>,
)
    requires
        call_ensures(AuthService::new, (first, other), made),
        call_ensures(AuthService::with_rate_limiter, (made, limiter), limited),
        call_ensures(AuthService::with_auto_admin_first_user, (made, enabled), singled),
    ensures
        made.logins().limits().max_attempts == 5 && made.registrations().limits().max_attempts == 3,
        made.logins().limits().window_secs == 300 && made.registrations().limits().window_secs == 300,
        made.logins().limits().lockout_secs == 900 && made.registrations().limits().lockout_secs == 1800,
        !made.logins().entries().contains_key(name) && !made.registrations().entries().contains_key(name),
        made.first_role() == first@ && made.other_role() == other@,
        !made.singles_out_first() && !made.latched(),
        limited.logins() == limiter && limited.registrations() == made.registrations(),
        limited.first_role() == first@ && limited.other_role() == other@ && !limited.singles_out_first()
            && !limited.latched(),
        singled.singles_out_first() == enabled && singled.logins() == made.logins() && singled.registrations()
            == made.registrations(),
        singled.first_role() == first@ && singled.other_role() == other@ && !singled.latched(),
{
    assert(!made.logins().entries().dom().contains(name));
    assert(!made.registrations().entries().dom().contains(name));
}

/// A registration begins exactly if the name and the password are accepted and the attempt is let
/// through; an attempt is counted, under the accepted name, only where both are accepted.
pub proof fn law_begun_registration(
    before: AuthService,
    after: AuthService,
    username: &str,
    password: &str,
    now: u64,
    r: Result<String, KirinoError>,
    name: Result<String, KirinoError>,
    form: Result<(), KirinoError>,
    key: &str,
    counted: LoginRateLimiter,
    tried: Result<(), KirinoError>,
)
    requires
        exists|service: &mut AuthService|
            *service == before && *final(service) == after && #[trigger] call_ensures(
                AuthService::begin_registration,
                (service, username, password, now),
                r,
            ),
        call_ensures(validate_username, (username,), name),
        call_ensures(validate_password, (password,), form),
        name matches Ok(n) ==> key@ == n@,
        exists|limiter: &mut LoginRateLimiter|
            *limiter == before.registrations() && *final(limiter) == counted && #[trigger] call_ensures(
                LoginRateLimiter::check_and_record_failure,
                (limiter, key, now),
                tried,
            ),
    ensures
        r is Ok <==> name is Ok && form is Ok && tried is Ok,
        r matches Ok(n) ==> n@ == name->Ok_0@,
        name matches Err(e) ==> r->Err_0@ == e@,
        name is Ok && form is Err ==> r->Err_0@ == form->Err_0@,
        name is Ok && form is Ok && tried is Err ==> r->Err_0@ == tried->Err_0@,
        name is Err || form is Err ==> after.registrations() == before.registrations(),
        name is Ok && form is Ok ==> after.registrations().entries() == counted.entries(),
        after.logins() == before.logins(),
        after.latched() == before.latched(),
{
}

/// A login begins exactly if the attempt is let through, which is counted under the name without the
/// white space around it.
pub proof fn law_begun_login(
    before: AuthService,
    after: AuthService,
    username: &str,
    now: u64,
    r: Result<String, KirinoError>,
    name: String,
    key: &str,
    counted: LoginRateLimiter,
    tried: Result<(), KirinoError>,
)
    requires
        exists|service: &mut AuthService|
            *service == before && *final(service) == after && #[trigger] call_ensures(
                AuthService::begin_login,
                (service, username, now),
                r,
            ),
        call_ensures(trim, (username,), name),
        key@ == name@,
        exists|limiter: &mut LoginRateLimiter|
            *limiter == before.logins() && *final(limiter) == counted && #[trigger] call_ensures(
                LoginRateLimiter::check_and_record_failure,
                (limiter, key, now),
                tried,
            ),
    ensures
        r is Ok <==> tried is Ok,
        r matches Ok(n) ==> n@ == name@,
        r matches Err(e) ==> e@ == tried->Err_0@,
        after.logins().entries() == counted.entries(),
        after.registrations() == before.registrations(),
        after.latched() == before.latched(),
{
}

/// A login ends well exactly for an account that was found, is switched on and whose password fits, and
/// frees that name alone. A name that is unknown, an account that is switched off and a wrong password
/// are refused alike; what was counted stays.
pub proof fn law_ended_login(
    before: AuthService,
    after: AuthService,
    username: &str,
    found: Option<UserRecord>,
    verified: Result<bool, KirinoError>,
    r: Result<UserRecord, KirinoError>,
    name: Seq<char>,
)
    requires
        exists|service: &mut AuthService|
            *service == before && *final(service) == after && #[trigger] call_ensures(
                AuthService::end_login,
                (service, username, found, verified),
                r,
            ),
    ensures
        r is Ok <==> found is Some && found->Some_0.is_active && verified is Ok && verified->Ok_0,
        r matches Ok(user) ==> user == found->Some_0,
        found is None || !found->Some_0.is_active || verified is Ok && !verified->Ok_0 ==> (r matches Err(e) && e@
            is AuthenticationFailed),
        found is Some && found->Some_0.is_active && verified is Err ==> (r matches Err(e) && e@ == verified->Err_0@),
        after.logins().entries().contains_key(name) <==> before.logins().entries().contains_key(name) && !(r is Ok && name
            == username@),
        after.logins().entries().contains_key(name) ==> after.logins().entries()[name] == before.logins().entries()[name],
        after.registrations() == before.registrations(),
        after.latched() == before.latched(),
{
    law_login_needs_everything(found, verified);
}

/// A registration that succeeded frees its name alone, one that failed none.
pub proof fn law_ended_registration(before: AuthService, after: AuthService, username: &str, succeeded: bool, name: Seq<char>)
    requires
        exists|service: &mut AuthService|
            *service == before && *final(service) == after && #[trigger] call_ensures(
                AuthService::end_registration,
                (service, username, succeeded),
                (),
            ),
    ensures
        after.registrations().entries().contains_key(name) <==> before.registrations().entries().contains_key(name) && !(
        succeeded && name == username@),
        after.registrations().entries().contains_key(name) ==> after.registrations().entries()[name]
            == before.registrations().entries()[name],
        after.logins() == before.logins(),
        after.latched() == before.latched(),
{
}

/// Where the first user is singled out, the first who is looked at may be it, and nobody after; they
/// are it if there are no accounts. A name that is taken cannot be registered.
pub proof fn law_first_user(
    before: AuthService,
    after: AuthService,
    first: bool,
    last: AuthService,
    second: bool,
    users: u64,
    role: &str,
    taken: bool,
    free: Result<(), KirinoError>,
)
    requires
        exists|service: &mut AuthService|
            *service == before && *final(service) == after && #[trigger] call_ensures(
                AuthService::claim_first_user,
                (service,),
                first,
            ),
        exists|service: &mut AuthService|
            *service == after && *final(service) == last && #[trigger] call_ensures(
                AuthService::claim_first_user,
                (service,),
                second,
            ),
        call_ensures(AuthService::role_for, (&after, first, users), role),
        call_ensures(AuthService::check_free, (&before, taken), free),
    ensures
        first ==> before.singles_out_first(),
        !second,
        before.singles_out_first() && !before.latched() ==> first,
        role@ == (if first && users == 0 {
            before.first_role()
        } else {
            before.other_role()
        }),
        free is Ok <==> !taken,
        free matches Err(e) ==> e@ is Validation,
{
}

/// A password may be changed exactly if the account was found, the old password fits and the new one is
/// accepted; the first of these that fails is what is answered.
pub proof fn law_password_change(
    service: &AuthService,
    found: bool,
    verified: Result<bool, KirinoError>,
    new_password: &str,
    r: Result<(), KirinoError>,
    form: Result<(), KirinoError>,
)
    requires
        call_ensures(AuthService::check_password_change, (service, found, verified, new_password), r),
        call_ensures(validate_password, (new_password,), form),
    ensures
        r is Ok <==> found && verified is Ok && verified->Ok_0 && form is Ok,
        !found ==> (r matches Err(e) && e@ is NotFound),
        found && verified is Err ==> (r matches Err(e) && e@ == verified->Err_0@),
        found && verified is Ok && !verified->Ok_0 ==> (r matches Err(e) && e@ is AuthenticationFailed),
        found && verified is Ok && verified->Ok_0 && form is Err ==> (r matches Err(e) && e@ == form->Err_0@),
{
}

/// A user id is taken exactly if it reads as an identifier, and as that one.
pub proof fn law_user_id(user_id: &str, r: Result<u128, KirinoError>)
    requires
        call_ensures(parse_user_id, (user_id,), r),
    ensures
        r is Ok <==> crate::ids::uuid_read(user_id@) is Ok,
        r matches Ok(id) ==> crate::ids::uuid_read(user_id@) == Ok::<u128, Seq<char>>(id),
        r matches Err(e) ==> e@ is Validation,
{
}

/// Whether what is read of a user grants a permission: it is not denied to them, and is added to them or
/// in the definition of one of their roles.
pub open spec fn may<
    P: Permission,
    A: AssignmentStore<StringSubject, P>,
    RR: RoleRegistry<P>,
    PR: PermissionRegistry<P>,
    C: PermissionCache<StringSubject, P>,
>(engine: &RbacEngine<StringSubject, P, A, RR, PR, C>, user: Seq<char>, permission: P::Id) -> bool {
    &&& engine.store().denied_read(user) matches Ok(denied) && !denied.contains(permission)
    &&& engine.store().extra_read(user) is Ok
    &&& engine.store().extra_read(user)->Ok_0.contains(permission) || engine.store().roles_read(user) is Ok
        && exists|role: Seq<char>| #[trigger]
        engine.store().roles_read(user)->Ok_0.contains(role) && engine.registry().roles().contains_key(role)
            && engine.registry().roles()[role].contains(permission)
}

/// Whether what is read of a user grants some permission of a name.
pub open spec fn is_granted_by_name<
    P: Permission,
    A: AssignmentStore<StringSubject, P>,
    RR: RoleRegistry<P>,
    PR: PermissionRegistry<P>,
    C: PermissionCache<StringSubject, P>,
>(engine: &RbacEngine<StringSubject, P, A, RR, PR, C>, user: Seq<char>, name: Seq<char>) -> bool {
    exists|p: P| #[trigger] p.name_text() == name && may(engine, user, p.id())
}

/// Whether these are the roles that are read of a user, and the names of exactly what is granted to them.
pub open spec fn is_what_may_be_done<
    P: Permission,
    A: AssignmentStore<StringSubject, P>,
    RR: RoleRegistry<P>,
    PR: PermissionRegistry<P>,
    C: PermissionCache<StringSubject, P>,
>(
    engine: &RbacEngine<StringSubject, P, A, RR, PR, C>,
    user: Seq<char>,
    roles: Seq<String>,
    names: Seq<String>,
) -> bool {
    &&& engine.store().roles_read(user) is Ok
    &&& forall|role: Seq<char>| #[trigger]
        crate::rbac::memory::is_among(roles, role) <==> engine.store().roles_read(user)->Ok_0.contains(role)
    &&& forall|i: int| 0 <= i < names.len() ==> is_granted_by_name(engine, user, (#[trigger] names[i])@)
    &&& forall|p: P| #[trigger] may(engine, user, p.id()) ==> crate::rbac::memory::is_among(names, p.name_text())
}

pub(crate) proof fn lemma_may<
    P: Permission,
    A: AssignmentStore<StringSubject, P>,
    RR: RoleRegistry<P>,
    PR: PermissionRegistry<P>,
    C: PermissionCache<StringSubject, P>,
>(
    before: RbacEngine<StringSubject, P, A, RR, PR, C>,
    after: RbacEngine<StringSubject, P, A, RR, PR, C>,
    user: Seq<char>,
    permission: P,
    now: u64,
    granted: bool,
)
    requires
        before.checked(&after, false, user, permission, now, granted),
        before.memory().recalled(user, permission.name_text(), now) is None,
    ensures
        granted <==> may(&before, user, permission.id()),
{
    let roles = before.store().roles_read(user);
    if crate::rbac::engine::some_role_grants::<P, RR>(&before.registry(), false, roles->Ok_0, permission.id()) {
        let role = choose|role: Seq<char>| #[trigger]
            roles->Ok_0.contains(role) && crate::rbac::engine::role_grants::<P, RR>(
                &before.registry(),
                false,
                role,
            ).contains(permission.id());
        assert(roles->Ok_0.contains(role));
    }
}

/// A user has a permission exactly if what is read of them grants it, unless an answer is remembered,
/// which then is the answer.
pub proof fn law_permission_of_a_user<
    P: Permission,
    A: AssignmentStore<StringSubject, P>,
    RR: RoleRegistry<P>,
    PR: PermissionRegistry<P>,
    C: PermissionCache<StringSubject, P>,
>(
    service: &AuthService,
    before: RbacEngine<StringSubject, P, A, RR, PR, C>,
    after: RbacEngine<StringSubject, P, A, RR, PR, C>,
    user_id: &str,
    permission: &P,
    now: u64,
    r: bool,
)
    requires
        exists|engine: &mut RbacEngine<StringSubject, P, A, RR, PR, C>|
            *engine == before && *final(engine) == after && #[trigger] call_ensures(
                AuthService::check_permission::<P, A, RR, PR, C>,
                (service, engine, user_id, permission, now),
                r,
            ),
    ensures
        before.memory().recalled(user_id@, permission.name_text(), now) is None ==> (r <==> may(
            &before,
            user_id@,
            permission.id(),
        )),
        before.memory().recalled(user_id@, permission.name_text(), now) matches Some(known) ==> r == known,
        after.store() == before.store() && after.registry() == before.registry(),
{
    if before.memory().recalled(user_id@, permission.name_text(), now) is None {
        lemma_may(before, after, user_id@, *permission, now, r);
    }
}

/// What is fetched of a user are the roles that are read of them and the names of exactly what is
/// granted to them; where anything cannot be read, nothing is.
pub proof fn law_fetched_roles_and_permissions<
    P: Permission,
    A: AssignmentStore<StringSubject, P>,
    RR: RoleRegistry<P>,
    PR: PermissionRegistry<P>,
    C: PermissionCache<StringSubject, P>,
>(
    engine: &RbacEngine<StringSubject, P, A, RR, PR, C>,
    user_id: &str,
    r: Result<(Vec<String>, Vec<String>), KirinoError>,
)
    requires
        call_ensures(fetch_user_roles_and_perms::<P, A, RR, PR, C>, (engine, user_id), r),
    ensures
        r is Ok <==> engine.store().roles_read(user_id@) is Ok && engine.store().extra_read(user_id@) is Ok
            && engine.store().denied_read(user_id@) is Ok,
        r matches Err(e) ==> e@ is AuthorizationDenied,
        r matches Ok((roles, names)) ==> is_what_may_be_done(engine, user_id@, roles@, names@),
{
    if let Ok((roles, names)) = r {
        lemma_fetched(engine, user_id@, roles, names);
    }
}

pub(crate) proof fn lemma_fetched<
    P: Permission,
    A: AssignmentStore<StringSubject, P>,
    RR: RoleRegistry<P>,
    PR: PermissionRegistry<P>,
    C: PermissionCache<StringSubject, P>,
>(
    engine: &RbacEngine<StringSubject, P, A, RR, PR, C>,
    user: Seq<char>,
    roles: Vec<String>,
    names: Vec<String>,
)
    requires
        engine.store().roles_read(user) == Ok::<Set<Seq<char>>, ErrorView>(
            crate::rbac::traits::texts_of(roles@).to_set(),
        ),
        crate::rbac::engine::effective::<StringSubject, P, A, RR>(&engine.store(), &engine.registry(), false, user) is Ok,
        exists|set: crate::collections::KeySet<P>|
            #![trigger set.items()]
            set.wf() && set@ == crate::rbac::engine::effective::<StringSubject, P, A, RR>(
                &engine.store(),
                &engine.registry(),
                false,
                user,
            )->Ok_0 && crate::rbac::traits::texts_of(names@) == crate::rbac::registry::names_of(set.items()),
    ensures
        is_what_may_be_done(engine, user, roles@, names@),
{
    let perms = crate::rbac::engine::effective::<StringSubject, P, A, RR>(
        &engine.store(),
        &engine.registry(),
        false,
        user,
    )->Ok_0;
    let set = choose|set: crate::collections::KeySet<P>|
        #![trigger set.items()]
        set.wf() && set@ == perms && crate::rbac::traits::texts_of(names@) == crate::rbac::registry::names_of(
            set.items(),
        );
    assert forall|role: Seq<char>| #[trigger]
        crate::rbac::memory::is_among(roles@, role) <==> engine.store().roles_read(user)->Ok_0.contains(role) by {
        crate::rbac::memory::lemma_among(roles@, role);
    }
    let all = crate::rbac::registry::names_of(set.items());
    let ids = crate::collections::ids_of(set.items());
    assert(all.len() == names@.len());
    assert forall|id: P::Id| perms.contains(id) <==> #[trigger] may(engine, user, id) by {
        lemma_effective(engine, user, id);
    }
    assert forall|i: int| 0 <= i < names@.len() implies is_granted_by_name(
        engine,
        user,
        (#[trigger] names@[i])@,
    ) by {
        let p = set.items()[i];
        assert(crate::rbac::traits::texts_of(names@)[i] == all[i]);
        assert(ids[i] == p.id());
        assert(ids.to_set().contains(ids[i]));
        assert(may(engine, user, p.id()));
        assert(names@[i]@ == p.name_text());
    }
    assert forall|p: P| #[trigger] may(engine, user, p.id()) implies crate::rbac::memory::is_among(
        names@,
        p.name_text(),
    ) by {
        assert(ids.to_set().contains(p.id()));
        let i = choose|i: int| 0 <= i < ids.len() && ids[i] == p.id();
        P::identity_fixes_texts(&set.items()[i], &p);
        assert(all[i] == p.name_text());
        assert(crate::rbac::traits::texts_of(names@)[i] == all[i]);
        assert(names@[i]@ == p.name_text());
    }
}

proof fn lemma_effective<
    P: Permission,
    A: AssignmentStore<StringSubject, P>,
    RR: RoleRegistry<P>,
    PR: PermissionRegistry<P>,
    C: PermissionCache<StringSubject, P>,
>(engine: &RbacEngine<StringSubject, P, A, RR, PR, C>, user: Seq<char>, id: P::Id)
    requires
        crate::rbac::engine::effective::<StringSubject, P, A, RR>(&engine.store(), &engine.registry(), false, user) is Ok,
    ensures
        crate::rbac::engine::effective::<StringSubject, P, A, RR>(
            &engine.store(),
            &engine.registry(),
            false,
            user,
        )->Ok_0.contains(id) <==> may(engine, user, id),
{
    let roles = engine.store().roles_read(user);
    if crate::rbac::engine::some_role_grants::<P, RR>(&engine.registry(), false, roles->Ok_0, id) {
        let role = choose|role: Seq<char>| #[trigger]
            roles->Ok_0.contains(role) && crate::rbac::engine::role_grants::<P, RR>(&engine.registry(), false, role).contains(
                id,
            );
        assert(roles->Ok_0.contains(role));
    }
}

/// A request is let through only if the roles grant it, and, where there is an arbiter, its verdict
/// allows it; a verdict comes along exactly where the arbiter was asked, which is after the roles
/// granted.
pub proof fn law_roles_are_asked_before_the_arbiter<
    P: Permission,
    A: AssignmentStore<StringSubject, P>,
    RR: RoleRegistry<P>,
    PR: PermissionRegistry<P>,
    C: PermissionCache<StringSubject, P>,
    S: TrustScoreStore,
    D: Fn(&AnomalyDetector) -> Score,
    E: Fn(TrustScore, Option<Score>) -> Score,
    T: Fn(SubScores, [Score; 5]) -> Score,
    W: Fn(Score) -> String,
>(
    service: &AuthService,
    before: RbacEngine<StringSubject, P, A, RR, PR, C>,
    after: RbacEngine<StringSubject, P, A, RR, PR, C>,
    user_id: &str,
    permission: &P,
    request: &ActionRequest,
    arbiter: Option<(&mut AuthorizationArbiter, &S)>,
    arithmetic: &Arithmetic<D, E, T, W>,
    ticks: u64,
    now: i128,
    r: (bool, Option<AuthorizationVerdict>),
)
    requires
        exists|engine: &mut RbacEngine<StringSubject, P, A, RR, PR, C>|
            *engine == before && *final(engine) == after && #[trigger] call_ensures(
                AuthService::check_static_and_dynamic::<P, A, RR, PR, C, S, D, E, T, W>,
                (service, engine, user_id, permission, request, arbiter, arithmetic, ticks, now),
                r,
            ),
        before.memory().recalled(user_id@, permission.name_text(), ticks) is None,
    ensures
        ({
            let granted = may(&before, user_id@, permission.id());
            &&& r.0 ==> granted
            &&& arbiter is None ==> r.0 == granted && r.1 is None
            &&& arbiter is Some ==> (r.1 is Some <==> granted)
            &&& arbiter is Some && granted ==> r.0 == r.1->Some_0.allowed
            &&& arbiter matches Some((a, _)) ==> !granted ==> *final(a) == *a
            &&& arbiter matches Some((a, _)) ==> a.locked().contains(request.delegator.id@) ==> !r.0
        }),
{
    let granted = choose|granted: bool|
        {
            &&& #[trigger] before.checked(&after, false, user_id@, *permission, ticks, granted)
            &&& match arbiter {
                None => r.0 == granted && r.1 is None,
                Some((a, trust)) => if granted {
                    &&& r.1 matches Some(verdict)
                    &&& a.authorized(final(a), trust, request, arithmetic, now, verdict@)
                    &&& r.0 == verdict.allowed
                } else {
                    r.0 == false && r.1 is None && *final(a) == *a
                },
            }
        };
    lemma_may(before, after, user_id@, *permission, ticks, granted);
}

} // verus!
