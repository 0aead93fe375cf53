//! Password policy: bootstrap passwords are changed on first login, old ones when they expire.
//!
//! The rules never read a clock: the moment is given.
use crate::collections::Table;
use crate::error::{ErrorView, KirinoError};
use crate::text::decimal;
use vstd::prelude::*;

verus! {

/// Why an account has to change its password.
#[derive(Debug, Clone, Copy, PartialEq, Eq, Hash, Structural)]
pub enum PasswordChangeReason {
    /// The password is still the temporary one.
    InitialPassword,
    /// The password is too old.
    Expired {
        /// Whole days since it was set.
        age_days: u32,
        /// The age from which on it has to be changed.
        max_age_days: u32,
    },
}

impl PasswordChangeReason {
    /// The code of the reason.
    pub open spec fn code(self) -> Seq<char> {
        match self {
            PasswordChangeReason::InitialPassword => "initial_password"@,
            PasswordChangeReason::Expired { age_days, max_age_days } => "expired"@,
        }
    }

    /// The reason in words.
    pub open spec fn message_text(self) -> Seq<char> {
        match self {
            PasswordChangeReason::InitialPassword => self.code(),
            PasswordChangeReason::Expired { age_days, max_age_days } => self.code() + "("@ + crate::text::decimal_text(
                age_days as nat,
            ) + "/"@ + crate::text::decimal_text(max_age_days as nat) + "d)"@,
        }
    }

    /// The code of the reason, which does not change.
    #[must_use]
    pub fn as_str(self) -> (r: &'static str)
        ensures
            r@ == self.code(),
    {
        match self {
            PasswordChangeReason::InitialPassword => "initial_password",
            PasswordChangeReason::Expired { .. } => "expired",
        }
    }

    /// The reason in words.
    pub fn message(self) -> (r: String)
        ensures
            r@ == self.message_text(),
    {
        match self {
            PasswordChangeReason::InitialPassword => self.as_str().to_owned(),
            PasswordChangeReason::Expired { age_days, max_age_days } => self.as_str().to_owned().concat("(").concat(
                decimal(age_days as u128).as_str(),
            ).concat("/").concat(decimal(max_age_days as u128).as_str()).concat("d)"),
        }
    }
}

/// The password policy of a deployment.
#[derive(Debug, Clone, Copy, PartialEq, Eq, Structural)]
pub struct PasswordPolicy {
    enabled: bool,
    force_change_on_first_login: bool,
    max_age_days: Option<u32>,
}

/// A policy as plain values.
pub struct PolicyView {
    /// Whether any rule applies.
    pub enabled: bool,
    /// Whether a bootstrap password has to be changed.
    pub force: bool,
    /// The age from which on a password has to be changed.
    pub max_age_days: Option<u32>,
}

impl PolicyView {
    /// Whether, and why, a password has to be changed at a moment.
    pub open spec fn requirement(self, state: StateView, now: i128) -> Option<PasswordChangeReason> {
        if !self.enabled {
            None
        } else if self.force && state.is_initial {
            Some(PasswordChangeReason::InitialPassword)
        } else if self.max_age_days is Some && state.age(now) >= self.max_age_days->Some_0 {
            Some(
                PasswordChangeReason::Expired { age_days: state.age(now), max_age_days: self.max_age_days->Some_0 },
            )
        } else {
            None
        }
    }
}

impl View for PasswordPolicy {
    type V = PolicyView;

    closed spec fn view(&self) -> PolicyView {
        PolicyView {
            enabled: self.enabled,
            force: self.force_change_on_first_login,
            max_age_days: self.max_age_days,
        }
    }
}

impl PasswordPolicy {
    /// A policy with the given rules, switched on.
    #[must_use]
    pub fn new(force_change_on_first_login: bool, max_age_days: Option<u32>) -> (r: Self)
        ensures
            r@ == (PolicyView { enabled: true, force: force_change_on_first_login, max_age_days }),
    {
        PasswordPolicy { enabled: true, force_change_on_first_login, max_age_days }
    }

    /// The policy without rules, switched off.
    #[must_use]
    pub fn disabled() -> (r: Self)
        ensures
            r@ == (PolicyView { enabled: false, force: false, max_age_days: None }),
    {
        PasswordPolicy { enabled: false, force_change_on_first_login: false, max_age_days: None }
    }

    /// A policy from configured values; an age of zero days is refused.
    pub fn from_config(enabled: bool, force_change_on_first_login: bool, max_age_days: Option<u32>) -> (r: Result<
        Self,
        KirinoError,
    >)
        ensures
            if max_age_days == Some(0u32) {
                r matches Err(e) && e@ == ErrorView::Validation(
                    "password policy max_age_days must be at least 1 day; omit it to disable expiration"@,
                )
            } else {
                r matches Ok(p) && p@ == (PolicyView { enabled, force: force_change_on_first_login, max_age_days })
            },
    {
        if let Some(days) = max_age_days {
            if days == 0 {
                return Err(
                    KirinoError::Validation(
                        "password policy max_age_days must be at least 1 day; omit it to disable expiration".to_owned(),
                    ),
                );
            }
        }
        Ok(PasswordPolicy { enabled, force_change_on_first_login, max_age_days })
    }

    /// The policy switched on or off, its rules as they are.
    #[must_use]
    pub fn with_enabled(self, enabled: bool) -> (r: Self)
        ensures
            r@ == (PolicyView { enabled, ..self@ }),
    {
        PasswordPolicy {
            enabled,
            force_change_on_first_login: self.force_change_on_first_login,
            max_age_days: self.max_age_days,
        }
    }

    /// The policy with the bootstrap rule on or off.
    #[must_use]
    pub fn with_force_change_on_first_login(self, force: bool) -> (r: Self)
        ensures
            r@ == (PolicyView { force, ..self@ }),
    {
        PasswordPolicy { enabled: self.enabled, force_change_on_first_login: force, max_age_days: self.max_age_days }
    }

    /// The policy with an age from which on a password has to be changed.
    #[must_use]
    pub fn with_max_age_days(self, days: u32) -> (r: Self)
        ensures
            r@ == (PolicyView { max_age_days: Some(days), ..self@ }),
    {
        PasswordPolicy {
            enabled: self.enabled,
            force_change_on_first_login: self.force_change_on_first_login,
            max_age_days: Some(days),
        }
    }

    /// Whether any rule applies.
    #[must_use]
    pub fn is_enabled(self) -> (r: bool)
        ensures
            r == self@.enabled,
    {
        self.enabled
    }

    /// Whether a bootstrap password has to be changed.
    #[must_use]
    pub fn force_change_on_first_login(self) -> (r: bool)
        ensures
            r == self@.force,
    {
        self.force_change_on_first_login
    }

    /// The age from which on a password has to be changed.
    #[must_use]
    pub fn max_age_days(self) -> (r: Option<u32>)
        ensures
            r == self@.max_age_days,
    {
        self.max_age_days
    }

    /// Whether, and why, a password has to be changed at a moment.
    #[must_use]
    pub fn change_requirement(&self, state: &PasswordState, now: i128) -> (r: Option<PasswordChangeReason>)
        ensures
            r == self@.requirement(state@, now),
    {
        if !self.enabled {
            return None;
        }
        if self.force_change_on_first_login && state.is_initial() {
            return Some(PasswordChangeReason::InitialPassword);
        }
        if let Some(max_age_days) = self.max_age_days {
            let age_days: u32 = state.age_days(now);
            if age_days >= max_age_days {
                return Some(PasswordChangeReason::Expired { age_days, max_age_days });
            }
        }
        None
    }
}

impl Default for PasswordPolicy {
    /// Bootstrap passwords have to be changed, others do not expire.
    fn default() -> (r: Self)
        ensures
            r@ == (PolicyView { enabled: true, force: true, max_age_days: None }),
    {
        Self::new(true, None)
    }
}

/// What is recorded of the password of one account.
#[derive(Debug, Clone, Copy, PartialEq, Eq, Structural)]
pub struct PasswordState {
    is_initial: bool,
    changed_at: i128,
}

/// What is recorded, as plain values.
pub struct StateView {
    /// Whether the password is still the temporary one.
    pub is_initial: bool,
    /// When it was set.
    pub changed_at: i128,
}

impl StateView {
    /// Whole days since the password was set; zero before that, and no more than fits.
    pub open spec fn age(self, now: i128) -> u32 {
        let days = (now - self.changed_at) / crate::time::NANOS_PER_DAY as int;
        if now <= self.changed_at {
            0
        } else if days > u32::MAX {
            u32::MAX
        } else {
            days as u32
        }
    }
}

impl View for PasswordState {
    type V = StateView;

    closed spec fn view(&self) -> StateView {
        StateView { is_initial: self.is_initial, changed_at: self.changed_at }
    }
}

impl PasswordState {
    /// A temporary password.
    #[must_use]
    pub fn initial(changed_at: i128) -> (r: Self)
        ensures
            r@ == (StateView { is_initial: true, changed_at }),
    {
        PasswordState { is_initial: true, changed_at }
    }

    /// A password that the user chose.
    #[must_use]
    pub fn rotated(changed_at: i128) -> (r: Self)
        ensures
            r@ == (StateView { is_initial: false, changed_at }),
    {
        PasswordState { is_initial: false, changed_at }
    }

    /// What was read back from storage.
    #[must_use]
    pub fn from_parts(changed_at: i128, is_initial: bool) -> (r: Self)
        ensures
            r@ == (StateView { is_initial, changed_at }),
    {
        PasswordState { is_initial, changed_at }
    }

    /// Whether the password is still the temporary one.
    #[must_use]
    pub fn is_initial(self) -> (r: bool)
        ensures
            r == self@.is_initial,
    {
        self.is_initial
    }

    /// When the password was set.
    #[must_use]
    pub fn changed_at(self) -> (r: i128)
        ensures
            r == self@.changed_at,
    {
        self.changed_at
    }

    /// Whole days since the password was set; zero before that, and no more than fits.
    #[must_use]
    pub fn age_days(self, now: i128) -> (r: u32)
        ensures
            r == self@.age(now),
    {
        if now <= self.changed_at {
            return 0;
        }
        match now.checked_sub(self.changed_at) {
            Some(elapsed) => {
                let days: i128 = elapsed / 86_400_000_000_000;
                if days > u32::MAX as i128 {
                    u32::MAX
                } else {
                    days as u32
                }
            },
            None => u32::MAX,
        }
    }
}

/// A policy that is switched off asks for nothing.
pub proof fn law_disabled_policy_asks_for_nothing(policy: PolicyView, state: StateView, now: i128)
    requires
        !policy.enabled,
    ensures
        policy.requirement(state, now) is None,
{
}

/// Where the bootstrap rule applies, it is the reason, however old the password is.
pub proof fn law_bootstrap_reason_comes_first(policy: PolicyView, state: StateView, now: i128)
    requires
        policy.enabled,
        policy.force,
        state.is_initial,
    ensures
        policy.requirement(state, now) == Some(PasswordChangeReason::InitialPassword),
{
}

/// A password has to be changed from exactly the given number of days on, and not before; a
/// moment before it was set is day zero.
pub proof fn law_expiry_is_inclusive(policy: PolicyView, state: StateView, now: i128)
    requires
        policy.enabled,
        !(policy.force && state.is_initial),
        policy.max_age_days is Some,
        policy.max_age_days->Some_0 > 0,
    ensures
        policy.requirement(state, now) is Some <==> now - state.changed_at >= policy.max_age_days->Some_0
            * crate::time::NANOS_PER_DAY,
{
    let days = policy.max_age_days->Some_0 as int;
    let elapsed = now - state.changed_at;
    assert(crate::time::NANOS_PER_DAY == 86_400_000_000_000);
    if elapsed > 0 {
        assert(elapsed / 86_400_000_000_000 >= days <==> elapsed >= days * 86_400_000_000_000);
    }
}

/// Without a rule on age no chosen password has to be changed.
pub proof fn law_no_expiry_without_a_rule(policy: PolicyView, state: StateView, now: i128)
    requires
        policy.max_age_days is None,
        !state.is_initial,
    ensures
        policy.requirement(state, now) is None,
{
}

/// A password that has to be changed still has to be changed later on.
pub proof fn law_requirement_stays(policy: PolicyView, state: StateView, now: i128, later: i128)
    requires
        policy.requirement(state, now) is Some,
        now <= later,
    ensures
        policy.requirement(state, later) is Some,
{
    assert(crate::time::NANOS_PER_DAY == 86_400_000_000_000);
    let a = now - state.changed_at;
    let b = later - state.changed_at;
    assert(a / 86_400_000_000_000 <= b / 86_400_000_000_000);
}

/// Where what is recorded of passwords is kept.
pub trait PasswordStateStore: Sized {
    /// Whether the value is well formed.
    open spec fn wf(&self) -> bool {
        true
    }

    /// What reading an account gives; none where nothing is recorded.
    open spec fn state_read(&self, account: u128) -> Result<Option<PasswordState>, ErrorView> {
        arbitrary()
    }

    /// What is recorded of an account.
    fn get(&self, account: u128) -> (r: Result<Option<PasswordState>, KirinoError>)
        requires
            self.wf(),
        ensures
            match r {
                Ok(s) => self.state_read(account) == Ok::<Option<PasswordState>, ErrorView>(s),
                Err(e) => self.state_read(account) == Err::<Option<PasswordState>, ErrorView>(e@),
            },
    ;

    /// Records a state in place of the one that was there.
    fn put(&mut self, account: u128, state: PasswordState) -> (r: Result<(), KirinoError>)
        requires
            old(self).wf(),
        ensures
            final(self).wf(),
            r is Ok ==> (final(self).state_read(account) matches Ok(after) ==> after == Some(state)),
            forall|other: u128| other != account ==> #[trigger] final(self).state_read(other) == old(self).state_read(other),
    ;
}

/// What is recorded of passwords, in memory.
pub struct InMemoryPasswordStateStore {
    states: Table<u128, PasswordState>,
}

impl InMemoryPasswordStateStore {
    /// What is recorded of each account.
    pub closed spec fn states(&self) -> Map<u128, PasswordState> {
        self.states@
    }

    /// A store with nothing recorded.
    #[must_use]
    pub fn new() -> (r: Self)
        ensures
            r.wf(),
            r.states() == Map::<u128, PasswordState>::empty(),
    {
        InMemoryPasswordStateStore { states: Table::new() }
    }
}

impl Default for InMemoryPasswordStateStore {
    /// A store with nothing recorded.
    fn default() -> (r: Self)
        ensures
            r.wf(),
            r.states() == Map::<u128, PasswordState>::empty(),
    {
        Self::new()
    }
}

impl PasswordStateStore for InMemoryPasswordStateStore {
    closed spec fn wf(&self) -> bool {
        self.states.wf()
    }

    open spec fn state_read(&self, account: u128) -> Result<Option<PasswordState>, ErrorView> {
        Ok(
            if self.states().contains_key(account) {
                Some(self.states()[account])
            } else {
                None
            },
        )
    }

    fn get(&self, account: u128) -> (r: Result<Option<PasswordState>, KirinoError>) {
        match self.states.get(&account) {
            Some(s) => Ok(Some(*s)),
            None => Ok(None),
        }
    }

    fn put(&mut self, account: u128, state: PasswordState) -> (r: Result<(), KirinoError>)
        ensures
            r is Ok,
            final(self).states() == old(self).states().insert(account, state),
    {
        let _ = self.states.insert(account, state);
        Ok(())
    }
}

/// A first-run credential: a temporary password, and what is to be recorded of it.
pub struct BootstrapCredential {
    username: String,
    password: String,
    state: PasswordState,
}

impl BootstrapCredential {
    /// The name of the account.
    pub closed spec fn name_text(&self) -> Seq<char> {
        self.username@
    }

    /// The temporary password.
    pub closed spec fn password_text(&self) -> Seq<char> {
        self.password@
    }

    /// What is to be recorded.
    pub closed spec fn recorded(&self) -> PasswordState {
        self.state
    }

    /// The name of the account.
    #[must_use]
    pub fn username(&self) -> (r: &str)
        ensures
            r@ == self.name_text(),
    {
        self.username.as_str()
    }

    /// The temporary password.
    #[must_use]
    pub fn password(&self) -> (r: &str)
        ensures
            r@ == self.password_text(),
    {
        self.password.as_str()
    }

    /// What is to be recorded.
    #[must_use]
    pub fn state(&self) -> (r: PasswordState)
        ensures
            r == self.recorded(),
    {
        self.state
    }

    /// The line for the operator, with the password in it.
    #[must_use]
    pub fn log_line(&self) -> (r: String)
        ensures
            r@ == "temporary password for '"@ + self.name_text() + "': "@ + self.password_text()
                + " — change it on first login"@,
    {
        "temporary password for '".to_owned().concat(self.username.as_str()).concat("': ").concat(
            self.password.as_str(),
        ).concat(" — change it on first login")
    }
}

/// The first-run credential of an account, for a password that was just generated at random.
#[must_use]
pub fn bootstrap_credential(username: &str, password: String, now: i128) -> (r: BootstrapCredential)
    ensures
        r.name_text() == username@,
        r.password_text() == password@,
        r.recorded()@ == (StateView { is_initial: true, changed_at: now }),
{
    BootstrapCredential { username: username.to_owned(), password, state: PasswordState::initial(now) }
}

/// A configured policy that is on asks for a change of a temporary password where it forces one, and
/// otherwise of one that is as many whole days old as it allows; it says how old it is. A policy that
/// is off asks for nothing, and an age of no days is refused.
pub proof fn law_configured_policy_asks_for_changes(
    enabled: bool,
    force: bool,
    max_age_days: Option<u32>,
    made: Result<PasswordPolicy, KirinoError>,
    changed_at: i128,
    is_initial: bool,
    state: PasswordState,
    now: i128,
    r: Option<PasswordChangeReason>,
)
    requires
        call_ensures(PasswordPolicy::from_config, (enabled, force, max_age_days), made),
        call_ensures(PasswordState::from_parts, (changed_at, is_initial), state),
        made matches Ok(policy) ==> call_ensures(PasswordPolicy::change_requirement, (&policy, &state, now), r),
    ensures
        made is Err <==> max_age_days is Some && max_age_days->Some_0 == 0,
        made matches Err(e) ==> e@ is Validation,
        made is Ok ==> {
            &&& !enabled ==> r is None
            &&& enabled && force && is_initial ==> r == Some(PasswordChangeReason::InitialPassword)
            &&& enabled && !(force && is_initial) ==> {
                &&& r is Some <==> max_age_days is Some && now - changed_at >= max_age_days->Some_0
                    * 86_400_000_000_000
                &&& r matches Some(reason) ==> (reason matches PasswordChangeReason::Expired {
                    age_days,
                    max_age_days: allowed,
                } && {
                    &&& allowed == max_age_days->Some_0
                    &&& age_days * 86_400_000_000_000 <= now - changed_at
                    &&& now - changed_at < (age_days + 1) * 86_400_000_000_000 || age_days == u32::MAX
                })
            }
        },
{
    let elapsed = now - changed_at;
    assert(crate::time::NANOS_PER_DAY == 86_400_000_000_000);
    if let Some(days) = max_age_days {
        if elapsed > 0 {
            assert(elapsed / 86_400_000_000_000 >= days as int <==> elapsed >= days * 86_400_000_000_000);
        }
    }
}

/// The age of a password is counted in whole days from the moment it was set, and is zero before.
pub proof fn law_age_in_whole_days(changed_at: i128, now: i128, chosen: PasswordState, temporary: PasswordState, a: u32, b: u32)
    requires
        call_ensures(PasswordState::rotated, (changed_at,), chosen),
        call_ensures(PasswordState::initial, (changed_at,), temporary),
        call_ensures(PasswordState::age_days, (chosen, now), a),
        call_ensures(PasswordState::age_days, (temporary, now), b),
    ensures
        a == b,
        now <= changed_at ==> a == 0,
        changed_at < now ==> a * 86_400_000_000_000 <= now - changed_at && (now - changed_at < (a + 1)
            * 86_400_000_000_000 || a == u32::MAX),
{
    assert(crate::time::NANOS_PER_DAY == 86_400_000_000_000);
}

/// A state is read back as it was made: a temporary password is one, a chosen one is not.
pub proof fn law_state_is_read_back(
    at: i128,
    initial: bool,
    chosen: PasswordState,
    temporary: PasswordState,
    stored: PasswordState,
    a: bool,
    b: bool,
    c: bool,
    set: i128,
)
    requires
        call_ensures(PasswordState::rotated, (at,), chosen),
        call_ensures(PasswordState::initial, (at,), temporary),
        call_ensures(PasswordState::from_parts, (at, initial), stored),
        call_ensures(PasswordState::is_initial, (chosen,), a),
        call_ensures(PasswordState::is_initial, (temporary,), b),
        call_ensures(PasswordState::is_initial, (stored,), c),
        call_ensures(PasswordState::changed_at, (chosen,), set) || call_ensures(
            PasswordState::changed_at,
            (temporary,),
            set,
        ) || call_ensures(PasswordState::changed_at, (stored,), set),
    ensures
        !a && b && c == initial,
        set == at,
{
}

/// Each setting of a policy is read back as it was last made, and leaves the others as they are.
pub proof fn law_settings_are_read_back(
    policy: PasswordPolicy,
    enabled: bool,
    force: bool,
    days: u32,
    switched: PasswordPolicy,
    forced: PasswordPolicy,
    aged: PasswordPolicy,
    q: PasswordPolicy,
    was_on: bool,
    was_forced: bool,
    was_aged: Option<u32>,
    on: bool,
    is_forced: bool,
    age: Option<u32>,
)
    requires
        call_ensures(PasswordPolicy::with_enabled, (policy, enabled), switched),
        call_ensures(PasswordPolicy::with_force_change_on_first_login, (policy, force), forced),
        call_ensures(PasswordPolicy::with_max_age_days, (policy, days), aged),
        call_ensures(PasswordPolicy::is_enabled, (policy,), was_on),
        call_ensures(PasswordPolicy::force_change_on_first_login, (policy,), was_forced),
        call_ensures(PasswordPolicy::max_age_days, (policy,), was_aged),
        q == switched || q == forced || q == aged,
        call_ensures(PasswordPolicy::is_enabled, (q,), on),
        call_ensures(PasswordPolicy::force_change_on_first_login, (q,), is_forced),
        call_ensures(PasswordPolicy::max_age_days, (q,), age),
    ensures
        q == switched ==> on == enabled && is_forced == was_forced && age == was_aged,
        q == forced ==> on == was_on && is_forced == force && age == was_aged,
        q == aged ==> on == was_on && is_forced == was_forced && age == Some(days),
{
}

/// A new policy is on and has the rules that it was given; the one that is off has none, and the usual
/// one only forces a change of a temporary password.
pub proof fn law_policies_to_start_from(
    force: bool,
    days: Option<u32>,
    made: PasswordPolicy,
    off: PasswordPolicy,
    usual: PasswordPolicy,
    policy: PasswordPolicy,
    on: bool,
    is_forced: bool,
    age: Option<u32>,
)
    requires
        call_ensures(PasswordPolicy::new, (force, days), made),
        call_ensures(PasswordPolicy::disabled, (), off),
        call_ensures(PasswordPolicy::default, (), usual),
        policy == made || policy == off || policy == usual,
        call_ensures(PasswordPolicy::is_enabled, (policy,), on),
        call_ensures(PasswordPolicy::force_change_on_first_login, (policy,), is_forced),
        call_ensures(PasswordPolicy::max_age_days, (policy,), age),
    ensures
        policy == made ==> on && is_forced == force && age == days,
        policy == off ==> !on && !is_forced && age is None,
        policy == usual ==> on && is_forced && age is None,
{
}

/// What is recorded of an account is read back until something else is, and nothing is recorded of
/// another.
pub proof fn law_recorded_state_is_read_back(
    before: InMemoryPasswordStateStore,
    after: InMemoryPasswordStateStore,
    account: u128,
    state: PasswordState,
    asked: u128,
    was: Option<PasswordState>,
    is: Option<PasswordState>,
    done: Result<(), KirinoError>,
)
    requires
        exists|store: &mut InMemoryPasswordStateStore|
            *store == before && *final(store) == after && #[trigger] call_ensures(
                InMemoryPasswordStateStore::put,
                (store, account, state),
                done,
            ),
        call_ensures(InMemoryPasswordStateStore::get, (&before, asked), Ok(was)),
        call_ensures(InMemoryPasswordStateStore::get, (&after, asked), Ok(is)),
    ensures
        done is Ok,
        asked == account ==> is == Some(state),
        asked != account ==> is == was,
{
}

/// A first-run credential has the name and the password that it was made with, and is recorded as
/// temporary from the moment it was made.
pub proof fn law_first_run_credential(
    name: &str,
    password: String,
    now: i128,
    made: BootstrapCredential,
    shown_name: &str,
    shown_password: &str,
    state: PasswordState,
    initial: bool,
    at: i128,
)
    requires
        call_ensures(bootstrap_credential, (name, password, now), made),
        call_ensures(BootstrapCredential::username, (&made,), shown_name),
        call_ensures(BootstrapCredential::password, (&made,), shown_password),
        call_ensures(BootstrapCredential::state, (&made,), state),
        call_ensures(PasswordState::is_initial, (state,), initial),
        call_ensures(PasswordState::changed_at, (state,), at),
    ensures
        shown_name@ == name@,
        shown_password@ == password@,
        initial,
        at == now,
{
}

/// The code of a reason is one of two, and tells the two kinds apart; its message begins with it.
pub proof fn law_reasons_are_named(reason: PasswordChangeReason, code: &'static str, message: String)
    requires
        call_ensures(PasswordChangeReason::as_str, (reason,), code),
        call_ensures(PasswordChangeReason::message, (reason,), message),
    ensures
        code@ == "initial_password"@ <==> reason is InitialPassword,
        code@ == "expired"@ <==> reason is Expired,
        code@.is_prefix_of(message@),
        reason is InitialPassword ==> message@ == code@,
        reason matches PasswordChangeReason::Expired { age_days, max_age_days } ==> message@ == "expired("@
            + crate::text::decimal_text(age_days as nat) + "/"@ + crate::text::decimal_text(max_age_days as nat) + "d)"@,
{
    reveal_strlit("initial_password");
    reveal_strlit("expired");
    reveal_strlit("(");
    reveal_strlit("expired(");
    assert("initial_password"@.len() == 16 && "expired"@.len() == 7);
    assert("expired"@ + "("@ =~= "expired("@);
    if let PasswordChangeReason::Expired { age_days, max_age_days } = reason {
        let a = crate::text::decimal_text(age_days as nat);
        let b = crate::text::decimal_text(max_age_days as nat);
        assert(message@ == "expired"@ + "("@ + a + "/"@ + b + "d)"@);
    }
}

/// A new store has recorded nothing of anyone.
pub proof fn law_new_store_has_recorded_nothing(
    made: InMemoryPasswordStateStore,
    usual: InMemoryPasswordStateStore,
    user: u128,
)
    requires
        call_ensures(InMemoryPasswordStateStore::new, (), made),
        call_ensures(InMemoryPasswordStateStore::default, (), usual),
    ensures
        !made.states().contains_key(user) && !usual.states().contains_key(user),
{
}

/// The line about a first credential names the account, then the password, and asks for a change.
pub proof fn law_line_about_a_first_credential(
    credential: &BootstrapCredential,
    name: &str,
    password: &str,
    line: String,
)
    requires
        call_ensures(BootstrapCredential::username, (credential,), name),
        call_ensures(BootstrapCredential::password, (credential,), password),
        call_ensures(BootstrapCredential::log_line, (credential,), line),
    ensures
        line@ == "temporary password for '"@ + name@ + "': "@ + password@ + " — change it on first login"@,
{
}

} // verus!
