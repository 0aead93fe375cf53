//! Accounts where they are kept, and registration, login and what follows on them.
//!
//! Hashes and tokens are the host's: they come in as functions. The failure of a store ends what
//! it was needed for, and is handed on.
use crate::collections::KeySet;
use crate::error::{ErrorView, KirinoError};
use crate::ids::{draw_id, show_uuid};
use crate::rbac::cache::PermissionCache;
use crate::rbac::engine::RbacEngine;
use crate::rbac::session::{Session, SessionManager};
use crate::rbac::subject::StringSubject;
use crate::rbac::traits::{AssignmentStore, Permission, PermissionRegistry, RoleRegistry, Subject};
use crate::service::login::auth::{fetch_user_roles_and_perms, parse_user_id, AuthService};
use crate::service::login::users::{list_public, login_result, LoginResult, UserInfo, UserRecord, UserView};
use crate::time::utc_now;
use vstd::prelude::*;

verus! {

/// A hash of no password, with the cost of a real one.
pub const DUMMY_HASH: &'static str =
    "$argon2id$v=19$m=19456,t=2,p=1$AAAAAAAAAAAAAAAAAAAAAA$AAAAAAAAAAAAAAAAAAAAAAAAAAAAAAAAAAAAAAAAAAA";

/// Whether an account of a name is among some, and is the one that was found.
pub open spec fn is_named(accounts: Map<u128, UserView>, username: Seq<char>, found: Option<UserView>) -> bool {
    match found {
        Some(u) => accounts.contains_key(u.id) && accounts[u.id] == u && u.username == username,
        None => !is_taken(accounts, username),
    }
}

/// Whether some account has a name.
pub open spec fn is_taken(accounts: Map<u128, UserView>, username: Seq<char>) -> bool {
    exists|id: u128| #[trigger] accounts.contains_key(id) && accounts[id].username == username
}

/// An account with another hash, whenever it is said to be changed.
pub open spec fn rehashed(before: UserView, after: UserView, hash: Seq<char>) -> bool {
    after == (UserView { password_hash: hash, updated_at: after.updated_at, ..before })
}

/// Where accounts are kept. A call that fails is a failure, never an absence, and a write that
/// fails may have been done.
pub trait UserDatabase: Sized {
    /// Whether the value is well formed.
    open spec fn wf(&self) -> bool {
        true
    }

    /// The accounts by identifier.
    open spec fn accounts(&self) -> Map<u128, UserView> {
        arbitrary()
    }

    /// Adds an account.
    fn create_user(&mut self, user: &UserRecord) -> (r: Result<(), KirinoError>)
        requires
            old(self).wf(),
        ensures
            final(self).wf(),
            final(self).accounts() == old(self).accounts().insert(user.id, user@) || r is Err && final(self).accounts()
                == old(self).accounts(),
    ;

    /// The account of a name.
    fn find_by_username(&self, username: &str) -> (r: Result<Option<UserRecord>, KirinoError>)
        requires
            self.wf(),
        ensures
            r matches Ok(found) ==> is_named(self.accounts(), username@, user_shown(found)),
    ;

    /// The account of an identifier.
    fn find_by_id(&self, id: u128) -> (r: Result<Option<UserRecord>, KirinoError>)
        requires
            self.wf(),
        ensures
            r matches Ok(found) ==> user_shown(found) == (if self.accounts().contains_key(id) {
                Some(self.accounts()[id])
            } else {
                None
            }),
    ;

    /// Gives an account another hash.
    fn update_password(&mut self, id: u128, new_hash: &str) -> (r: Result<(), KirinoError>)
        requires
            old(self).wf(),
        ensures
            final(self).wf(),
            final(self).accounts().dom() == old(self).accounts().dom(),
            forall|other: u128| #[trigger]
                old(self).accounts().contains_key(other) && other != id ==> final(self).accounts()[other]
                    == old(self).accounts()[other],
            old(self).accounts().contains_key(id) ==> rehashed(
                old(self).accounts()[id],
                final(self).accounts()[id],
                new_hash@,
            ) || r is Err && final(self).accounts()[id] == old(self).accounts()[id],
    ;

    /// Removes an account; false if there was none.
    fn delete_user(&mut self, id: u128) -> (r: Result<bool, KirinoError>)
        requires
            old(self).wf(),
        ensures
            final(self).wf(),
            r matches Ok(found) ==> found == old(self).accounts().contains_key(id),
            final(self).accounts() == old(self).accounts().remove(id) || r is Err && final(self).accounts()
                == old(self).accounts(),
    ;

    /// Every account, each once.
    fn list_users(&self) -> (r: Result<Vec<UserRecord>, KirinoError>)
        requires
            self.wf(),
        ensures
            r matches Ok(list) ==> lists_all(self.accounts(), list@),
    ;

    /// How many accounts there are.
    fn count_users(&self) -> (r: Result<u64, KirinoError>)
        requires
            self.wf(),
        ensures
            r matches Ok(n) ==> self.accounts().dom().finite() && n == self.accounts().dom().len(),
    ;
}

/// An account that was found, with its texts as characters.
pub open spec fn user_shown(found: Option<UserRecord>) -> Option<UserView> {
    match found {
        Some(u) => Some(u@),
        None => None,
    }
}

/// Whether a list holds every account once, as it is.
pub open spec fn lists_all(accounts: Map<u128, UserView>, list: Seq<UserRecord>) -> bool {
    &&& forall|i: int|
        0 <= i < list.len() ==> accounts.contains_key((#[trigger] list[i]).id) && accounts[list[i].id] == list[i]@
    &&& forall|i: int, j: int| 0 <= i < j < list.len() ==> (#[trigger] list[i]).id != (#[trigger] list[j]).id
    &&& forall|id: u128| #[trigger]
        accounts.contains_key(id) ==> exists|i: int| 0 <= i < list.len() && (#[trigger] list[i]).id == id
}

/// Whether a new account, whose hash is one of a password, was written to a database, and is now
/// among its accounts.
pub open spec fn added<DB: UserDatabase, H: Fn(&str) -> Result<String, KirinoError>>(
    db: (DB, DB),
    username: Seq<char>,
    password: &str,
    display_name: Option<Seq<char>>,
    hash: H,
    id: u128,
    now: i128,
) -> bool {
    exists|hashed: String|
        {
            let account = crate::service::login::users::new_account(id, username, hashed@, display_name, now);
            &&& #[trigger] call_ensures(hash, (password,), Ok(hashed))
            &&& creation_done(db.0, account, Ok(()))
            &&& db.1.accounts() == db.0.accounts().insert(id, account)
        }
}

/// Whether looking for a name can come to this.
pub open spec fn searched<DB: UserDatabase>(
    db: DB,
    username: Seq<char>,
    r: Result<Option<UserRecord>, KirinoError>,
) -> bool {
    exists|name: &str| name@ == username && #[trigger] call_ensures(DB::find_by_username, (&db, name), r)
}

/// Whether looking for a name can find an account where it is taken, and none where it is not.
pub open spec fn found_taken<DB: UserDatabase>(db: DB, username: Seq<char>, taken: bool) -> bool {
    &&& is_taken(db.accounts(), username) == taken
    &&& exists|found: Option<UserRecord>| found is Some == taken && #[trigger] searched(db, username, Ok(found))
}

/// Whether counting the accounts of a database can give their number.
pub open spec fn counted<DB: UserDatabase>(db: DB) -> bool {
    exists|n: u64| #[trigger] call_ensures(DB::count_users, (&db,), Ok(n)) && n == db.accounts().dom().len()
}

/// Whether adding an account can come to this.
pub open spec fn creation_done<DB: UserDatabase>(db: DB, account: UserView, r: Result<(), KirinoError>) -> bool {
    exists|store: &mut DB, user: &UserRecord|
        *store == db && user@ == account && #[trigger] call_ensures(DB::create_user, (store, user), r)
}

/// Whether an engine is as before but for the roles of one account.
pub open spec fn others_kept<
    P: Permission,
    A: AssignmentStore<StringSubject, P>,
    RR: RoleRegistry<P>,
    PR: PermissionRegistry<P>,
    C: PermissionCache<StringSubject, P>,
>(
    engine: (RbacEngine<StringSubject, P, A, RR, PR, C>, RbacEngine<StringSubject, P, A, RR, PR, C>),
    id: u128,
) -> bool {
    let before = engine.0.store();
    let after = engine.1.store();
    &&& engine.1.registry() == engine.0.registry()
    &&& engine.1.catalogue() == engine.0.catalogue()
    &&& engine.1.memory() == engine.0.memory()
    &&& forall|s: Seq<char>| s != crate::ids::uuid_text(id) ==> #[trigger] after.roles_read(s) == before.roles_read(s)
    &&& forall|s: Seq<char>| #[trigger] after.extra_read(s) == before.extra_read(s)
    &&& forall|s: Seq<char>| #[trigger] after.denied_read(s) == before.denied_read(s)
}

/// Whether giving a role to the account of an identifier can come to this.
pub open spec fn role_set<P: Permission, A: AssignmentStore<StringSubject, P>>(
    assignments: A,
    id: u128,
    role: Seq<char>,
    r: Result<(), KirinoError>,
) -> bool {
    exists|store: &mut A, subject: &StringSubject, name: &str|
        {
            &&& *store == assignments
            &&& subject.id_text() == crate::ids::uuid_text(id)
            &&& name@ == role
            &&& #[trigger] call_ensures(A::assign_role, (store, subject, name), r)
        }
}

impl AuthService {
    /// The role of someone who registers now: that of the first user where they are singled out,
    /// no one was looked at as the first before, and there are no accounts.
    pub open spec fn role_given(&self, accounts: Map<u128, UserView>) -> Seq<char> {
        if self.singles_out_first() && !self.latched() && accounts.dom().len() == 0 {
            self.first_role()
        } else {
            self.other_role()
        }
    }

    /// Whether a registration under a canonical name did what it should, from what was before. It
    /// fails where the name is taken, or where a store or the hash does: one that fails made no
    /// account, or made the account and could not give it its role. From the moment someone may be
    /// the first user, they were looked at as such, whether or not the registration succeeds.
    pub open spec fn entered<
        DB: UserDatabase,
        H: Fn(&str) -> Result<String, KirinoError>,
        P: Permission,
        A: AssignmentStore<StringSubject, P>,
        RR: RoleRegistry<P>,
        PR: PermissionRegistry<P>,
        C: PermissionCache<StringSubject, P>,
    >(
        &self,
        after: &Self,
        db: (DB, DB),
        engine: (RbacEngine<StringSubject, P, A, RR, PR, C>, RbacEngine<StringSubject, P, A, RR, PR, C>),
        username: Seq<char>,
        password: &str,
        display_name: Option<Seq<char>>,
        hash: H,
        id: u128,
        now: i128,
        r: Result<UserInfo, KirinoError>,
    ) -> bool {
        let before = db.0.accounts();
        let left = db.1.accounts();
        let text = crate::ids::uuid_text(id);
        let first = self.singles_out_first() && !self.latched();
        let looked = self.latched() || self.singles_out_first();
        match r {
            Ok(info) => {
                &&& found_taken(db.0, username, false)
                &&& first ==> counted(db.0)
                &&& after.latched() == looked
                &&& added(db, username, password, display_name, hash, id, now)
                &&& crate::service::login::users::shows(info, left[id])
                &&& role_set::<P, A>(engine.0.store(), id, self.role_given(before), Ok(()))
                &&& others_kept(engine, id)
                &&& engine.0.store().roles_read(text) matches Ok(had) ==> engine.1.store().roles_read(text) matches Ok(has)
                    ==> has == had.insert(self.role_given(before))
            },
            Err(e) => {
                ||| engine.1 == engine.0 && db.1 == db.0 && {
                    ||| after.latched() == self.latched() && {
                        ||| searched(db.0, username, Err(e))
                        ||| {
                            &&& found_taken(db.0, username, true)
                            &&& e@ == ErrorView::Validation("username already exists"@)
                        }
                        ||| found_taken(db.0, username, false) && call_ensures(hash, (password,), Err(e))
                    }
                    ||| {
                        &&& found_taken(db.0, username, false)
                        &&& exists|hashed: String| #[trigger] call_ensures(hash, (password,), Ok(hashed))
                        &&& first && after.latched()
                        &&& call_ensures(DB::count_users, (&db.0,), Err(e))
                    }
                }
                ||| {
                    &&& found_taken(db.0, username, false)
                    &&& first ==> counted(db.0)
                    &&& after.latched() == looked
                    &&& {
                        ||| engine.1 == engine.0 && exists|hashed: String|
                            {
                                let account = crate::service::login::users::new_account(
                                    id,
                                    username,
                                    hashed@,
                                    display_name,
                                    now,
                                );
                                &&& #[trigger] call_ensures(hash, (password,), Ok(hashed))
                                &&& creation_done(db.0, account, Err(e))
                                &&& left == before || left == before.insert(id, account)
                            }
                        ||| {
                            &&& added(db, username, password, display_name, hash, id, now)
                            &&& role_set::<P, A>(engine.0.store(), id, self.role_given(before), Err(e))
                            &&& others_kept(engine, id)
                        }
                    }
                }
            },
        }
    }

    /// Makes an account under a canonical name: the name must be free, the account is written,
    /// and then its role.
    fn register_impl<
        DB: UserDatabase,
        H: Fn(&str) -> Result<String, KirinoError>,
        P: Permission,
        A: AssignmentStore<StringSubject, P>,
        RR: RoleRegistry<P>,
        PR: PermissionRegistry<P>,
        C: PermissionCache<StringSubject, P>,
    >(
        &mut self,
        db: &mut DB,
        engine: &mut RbacEngine<StringSubject, P, A, RR, PR, C>,
        username: &str,
        password: &str,
        display_name: Option<&str>,
        hash: H,
        id: u128,
        now: i128,
    ) -> (r: Result<UserInfo, KirinoError>)
        requires
            old(self).wf(),
            old(db).wf(),
            old(engine).wf(),
            call_requires(hash, (password,)),
        ensures
            final(self).wf(),
            final(self).settled_as(old(self)),
            final(self).logins() == old(self).logins(),
            final(self).registrations() == old(self).registrations(),
            final(db).wf(),
            final(engine).wf(),
            r matches Ok(info) ==> exists|store: &mut DB, user: &UserRecord|
                {
                    &&& *store == *old(db)
                    &&& *final(store) == *final(db)
                    &&& crate::service::login::users::shows(info, user@)
                    &&& #[trigger] call_ensures(DB::create_user, (store, user), Ok(()))
                },
            old(self).entered(
                final(self),
                (*old(db), *final(db)),
                (*old(engine), *final(engine)),
                username@,
                password,
                crate::text::str_text(display_name),
                hash,
                id,
                now,
                r,
            ),
    {
        let found = db.find_by_username(username);
        assert(searched(*old(db), username@, found));
        let taken = match found {
            Ok(found) => found.is_some(),
            Err(e) => {
                return Err(e);
            },
        };
        assert(found_taken(*old(db), username@, taken));
        match self.check_free(taken) {
            Ok(()) => {},
            Err(e) => {
                return Err(e);
            },
        }
        let hashed = match hash(password) {
            Ok(hashed) => hashed,
            Err(e) => {
                return Err(e);
            },
        };
        let ghost text = hashed;
        let user = UserRecord::registered(id, username, hashed, display_name, now);
        let claimed = self.claim_first_user();
        let users: u64 = if claimed {
            match db.count_users() {
                Ok(n) => n,
                Err(e) => {
                    return Err(e);
                },
            }
        } else {
            0
        };
        assert(call_ensures(hash, (password,), Ok(text)));
        assert(old(self).singles_out_first() && !old(self).latched() ==> counted(*old(db)));
        let created = db.create_user(&user);
        assert(creation_done(*old(db), user@, created));
        match created {
            Ok(()) => {
                assert(created->Ok_0 == ());
            },
            Err(e) => {
                return Err(e);
            },
        }
        let subject = StringSubject::new(show_uuid(id).as_str());
        let role = self.role_for(claimed, users).to_owned();
        let given = engine.assignment_store_mut().assign_role(&subject, role.as_str());
        assert(role_set::<P, A>(old(engine).store(), id, role@, given));
        match given {
            Ok(()) => {
                assert(given->Ok_0 == ());
                Ok(user.to_public())
            },
            Err(e) => Err(e),
        }
    }

    /// Whether a registration did what it should, from what was before.
    pub open spec fn registered<
        DB: UserDatabase,
        H: Fn(&str) -> Result<String, KirinoError>,
        P: Permission,
        A: AssignmentStore<StringSubject, P>,
        RR: RoleRegistry<P>,
        PR: PermissionRegistry<P>,
        C: PermissionCache<StringSubject, P>,
    >(
        &self,
        after: &Self,
        db: (DB, DB),
        engine: (RbacEngine<StringSubject, P, A, RR, PR, C>, RbacEngine<StringSubject, P, A, RR, PR, C>),
        username: Seq<char>,
        password: &str,
        display_name: Option<Seq<char>>,
        hash: H,
        ticks: u64,
        id: u128,
        now: i128,
        r: Result<UserInfo, KirinoError>,
    ) -> bool {
        let outcome = crate::service::login::validation::username_outcome(username);
        let shape = crate::service::login::validation::shape_of(password@).outcome();
        if outcome is Err || shape is Err {
            &&& r matches Err(e) && e@ == (if outcome is Err {
                outcome->Err_0
            } else {
                shape->Err_0
            })
            &&& after.registrations() == self.registrations()
            &&& after.latched() == self.latched()
            &&& db.1 == db.0
            &&& engine.1 == engine.0
        } else {
            let name = outcome->Ok_0;
            let limits = self.registrations().limits();
            let kept = crate::service::login::rate_limiter::pruned(self.registrations().entries(), limits, ticks);
            let (let_through, entry) = crate::service::login::rate_limiter::attempt(
                limits,
                crate::service::login::rate_limiter::known_of(kept, name),
                ticks,
            );
            match let_through {
                Err(e) => {
                    &&& r matches Err(f) && f@ == e
                    &&& after.registrations().entries() == kept.insert(name, entry)
                    &&& after.latched() == self.latched()
                    &&& db.1 == db.0
                    &&& engine.1 == engine.0
                },
                Ok(()) => {
                    &&& self.entered(after, db, engine, name, password, display_name, hash, id, now, r)
                    &&& after.registrations().entries() == (if r is Ok {
                        kept.insert(name, entry).remove(name)
                    } else {
                        kept.insert(name, entry)
                    })
                },
            }
        }
    }

    /// Registers someone under an identifier at a moment: the name and the password must have the
    /// right form, the name must not be blocked and must be free. One that succeeds frees the name
    /// of its failures.
    pub fn register_at<
        DB: UserDatabase,
        H: Fn(&str) -> Result<String, KirinoError>,
        P: Permission,
        A: AssignmentStore<StringSubject, P>,
        RR: RoleRegistry<P>,
        PR: PermissionRegistry<P>,
        C: PermissionCache<StringSubject, P>,
    >(
        &mut self,
        db: &mut DB,
        engine: &mut RbacEngine<StringSubject, P, A, RR, PR, C>,
        username: &str,
        password: &str,
        display_name: Option<&str>,
        hash: H,
        ticks: u64,
        id: u128,
        now: i128,
    ) -> (r: Result<UserInfo, KirinoError>)
        requires
            old(self).wf(),
            old(db).wf(),
            old(engine).wf(),
            call_requires(hash, (password,)),
        ensures
            final(self).wf(),
            final(self).settled_as(old(self)),
            final(self).logins() == old(self).logins(),
            old(self).latched() ==> final(self).latched(),
            r is Ok ==> final(self).latched() == (old(self).latched() || old(self).singles_out_first()),
            final(db).wf(),
            final(engine).wf(),
            r matches Ok(info) ==> exists|store: &mut DB, user: &UserRecord|
                {
                    &&& *store == *old(db)
                    &&& *final(store) == *final(db)
                    &&& crate::service::login::users::shows(info, user@)
                    &&& #[trigger] call_ensures(DB::create_user, (store, user), Ok(()))
                },
            old(self).registered(
                final(self),
                (*old(db), *final(db)),
                (*old(engine), *final(engine)),
                username@,
                password,
                crate::text::str_text(display_name),
                hash,
                ticks,
                id,
                now,
                r,
            ),
    {
        let name = match self.begin_registration(username, password, ticks) {
            Ok(name) => name,
            Err(e) => {
                return Err(e);
            },
        };
        let ghost begun = *self;
        let r = self.register_impl(db, engine, name.as_str(), password, display_name, hash, id, now);
        assert(old(self).role_given(old(db).accounts()) == begun.role_given(old(db).accounts()));
        self.end_registration(name.as_str(), r.is_ok());
        r
    }

    /// Registers someone under a new identifier at the present moment.
    pub fn register<
        DB: UserDatabase,
        H: Fn(&str) -> Result<String, KirinoError>,
        P: Permission,
        A: AssignmentStore<StringSubject, P>,
        RR: RoleRegistry<P>,
        PR: PermissionRegistry<P>,
        C: PermissionCache<StringSubject, P>,
    >(
        &mut self,
        db: &mut DB,
        engine: &mut RbacEngine<StringSubject, P, A, RR, PR, C>,
        username: &str,
        password: &str,
        display_name: Option<&str>,
        hash: H,
        ticks: u64,
    ) -> (r: Result<UserInfo, KirinoError>)
        requires
            old(self).wf(),
            old(db).wf(),
            old(engine).wf(),
            call_requires(hash, (password,)),
        ensures
            final(self).wf(),
            final(self).settled_as(old(self)),
            final(self).logins() == old(self).logins(),
            old(self).latched() ==> final(self).latched(),
            r is Ok ==> final(self).latched() == (old(self).latched() || old(self).singles_out_first()),
            final(db).wf(),
            final(engine).wf(),
            r matches Ok(info) ==> exists|store: &mut DB, user: &UserRecord|
                {
                    &&& *store == *old(db)
                    &&& *final(store) == *final(db)
                    &&& crate::service::login::users::shows(info, user@)
                    &&& #[trigger] call_ensures(DB::create_user, (store, user), Ok(()))
                },
            exists|id: u128, now: i128|
                {
                    &&& crate::ids::is_drawn(id)
                    &&& crate::time::is_now(now)
                    &&& #[trigger] old(self).registered(
                        final(self),
                        (*old(db), *final(db)),
                        (*old(engine), *final(engine)),
                        username@,
                        password,
                        crate::text::str_text(display_name),
                        hash,
                        ticks,
                        id,
                        now,
                        r,
                    )
                },
    {
        let id: u128 = draw_id();
        let now: i128 = utc_now();
        self.register_at(db, engine, username, password, display_name, hash, ticks, id, now)
    }

    /// Whether a login did what it should, short of the token.
    pub open spec fn signed_in<
        DB: UserDatabase,
        V: Fn(&str, &str) -> Result<bool, KirinoError>,
        P: Permission,
        A: AssignmentStore<StringSubject, P>,
        RR: RoleRegistry<P>,
        PR: PermissionRegistry<P>,
        C: PermissionCache<StringSubject, P>,
    >(
        &self,
        after: &Self,
        db: &DB,
        engine: &RbacEngine<StringSubject, P, A, RR, PR, C>,
        username: Seq<char>,
        password: &str,
        verify: V,
        ticks: u64,
        r: Result<SignedIn, KirinoError>,
    ) -> bool {
        let name = crate::service::login::validation::trimmed(username);
        let limits = self.logins().limits();
        let kept = crate::service::login::rate_limiter::pruned(self.logins().entries(), limits, ticks);
        let (let_through, entry) = crate::service::login::rate_limiter::attempt(
            limits,
            crate::service::login::rate_limiter::known_of(kept, name),
            ticks,
        );
        let counted = kept.insert(name, entry);
        match let_through {
            Err(e) => after.logins().entries() == counted && (r matches Err(f) && f@ == e),
            Ok(()) => exists|read: Result<Option<UserRecord>, KirinoError>, verified: Result<bool, KirinoError>|
                {
                    &&& #[trigger] can_be_found(db, name, read)
                    &&& #[trigger] was_checked(verify, password, read, verified)
                    &&& match sign_in_failure(read, verified) {
                        Some(e) => after.logins().entries() == counted && (r matches Err(f) && f@ == e),
                        None => {
                            &&& after.logins().entries() == counted.remove(name)
                            &&& fetched(engine, read->Ok_0->Some_0, r)
                        },
                    }
                },
        }
    }

    /// Logs someone in, short of the token: the name must not be blocked, an account must be found
    /// that is switched on and whose password fits, and what it may do must be readable. One whose
    /// password fits frees the name of its failures. A name that is unknown is checked against a
    /// hash of no password, and an account that is switched off against its own, so that answering
    /// takes as long.
    pub fn sign_in<
        DB: UserDatabase,
        V: Fn(&str, &str) -> Result<bool, KirinoError>,
        P: Permission,
        A: AssignmentStore<StringSubject, P>,
        RR: RoleRegistry<P>,
        PR: PermissionRegistry<P>,
        C: PermissionCache<StringSubject, P>,
    >(
        &mut self,
        db: &DB,
        engine: &RbacEngine<StringSubject, P, A, RR, PR, C>,
        username: &str,
        password: &str,
        verify: V,
        ticks: u64,
    ) -> (r: Result<SignedIn, KirinoError>)
        requires
            old(self).wf(),
            db.wf(),
            engine.wf(),
            forall|hash: &str| call_requires(verify, (password, hash)),
        ensures
            final(self).wf(),
            final(self).settled_as(old(self)),
            final(self).registrations() == old(self).registrations(),
            final(self).latched() == old(self).latched(),
            old(self).signed_in(final(self), db, engine, username@, password, verify, ticks, r),
    {
        let name = match self.begin_login(username, ticks) {
            Ok(name) => name,
            Err(e) => {
                return Err(e);
            },
        };
        let read = db.find_by_username(name.as_str());
        let ghost found_as = read;
        assert(can_be_found(db, name@, read));
        let found = match read {
            Ok(found) => found,
            Err(e) => {
                assert(was_checked(verify, password, found_as, Ok(false)));
                return Err(e);
            },
        };
        let verified = match &found {
            Some(user) => verify(password, user.password_hash.as_str()),
            None => verify(password, DUMMY_HASH),
        };
        assert(was_checked(verify, password, found_as, verified));
        match self.end_login(name.as_str(), found, verified) {
            Err(e) => Err(e),
            Ok(user) => {
                let user_id = show_uuid(user.id);
                match fetch_user_roles_and_perms(engine, user_id.as_str()) {
                    Ok((roles, permissions)) => Ok(SignedIn { user, roles, permissions }),
                    Err(e) => Err(e),
                }
            },
        }
    }

    /// Logs someone in: the token is issued for the account, its roles and its permissions.
    pub fn login<
        DB: UserDatabase,
        V: Fn(&str, &str) -> Result<bool, KirinoError>,
        T: Fn(&SignedIn) -> Result<String, KirinoError>,
        P: Permission,
        A: AssignmentStore<StringSubject, P>,
        RR: RoleRegistry<P>,
        PR: PermissionRegistry<P>,
        C: PermissionCache<StringSubject, P>,
    >(
        &mut self,
        db: &DB,
        engine: &RbacEngine<StringSubject, P, A, RR, PR, C>,
        username: &str,
        password: &str,
        verify: V,
        issue: T,
        ticks: u64,
    ) -> (r: Result<LoginResult, KirinoError>)
        requires
            old(self).wf(),
            db.wf(),
            engine.wf(),
            forall|hash: &str| call_requires(verify, (password, hash)),
            forall|who: &SignedIn| call_requires(issue, (who,)),
        ensures
            final(self).wf(),
            final(self).settled_as(old(self)),
            final(self).registrations() == old(self).registrations(),
            final(self).latched() == old(self).latched(),
            exists|signed: Result<SignedIn, KirinoError>|
                {
                    &&& #[trigger] old(self).signed_in(
                        final(self),
                        db,
                        engine,
                        username@,
                        password,
                        verify,
                        ticks,
                        signed,
                    )
                    &&& match signed {
                        Err(e) => r matches Err(f) && f@ == e@,
                        Ok(who) => match r {
                            Err(e) => call_ensures(issue, (&who,), Err(e)),
                            Ok(given) => {
                                &&& call_ensures(issue, (&who,), Ok(given.token))
                                &&& given.user_id@ == crate::ids::uuid_text(who.user.id)
                                &&& given.username == who.user.username
                                &&& given.display_name == who.user.display_name
                                &&& given.roles == who.roles
                                &&& given.session_id is None
                            },
                        },
                    }
                },
    {
        let signed = self.sign_in(db, engine, username, password, verify, ticks);
        let ghost outcome = signed;
        assert(old(self).signed_in(self, db, engine, username@, password, verify, ticks, outcome));
        match signed {
            Err(e) => Err(e),
            Ok(who) => match issue(&who) {
                Err(e) => Err(e),
                Ok(token) => Ok(login_result(&who.user, who.roles, token, None)),
            },
        }
    }

    /// Whether a change of password may go on, and with which account and which hash.
    pub fn begin_password_change<
        DB: UserDatabase,
        V: Fn(&str, &str) -> Result<bool, KirinoError>,
        H: Fn(&str) -> Result<String, KirinoError>,
    >(
        &self,
        db: &DB,
        user_id: &str,
        old_password: &str,
        new_password: &str,
        verify: V,
        hash: H,
    ) -> (r: Result<(u128, String), KirinoError>)
        requires
            db.wf(),
            forall|h: &str| call_requires(verify, (old_password, h)),
            call_requires(hash, (new_password,)),
        ensures
            change_begun(db, user_id@, old_password, new_password, verify, hash, r),
    {
        let id: u128 = match parse_user_id(user_id) {
            Ok(id) => id,
            Err(e) => {
                return Err(e);
            },
        };
        let found = match db.find_by_id(id) {
            Ok(found) => found,
            Err(e) => {
                return Err(e);
            },
        };
        assert(found_by_id(db, id));
        let user = match found {
            Some(user) => user,
            None => {
                return Err(KirinoError::NotFound("user not found".to_owned()));
            },
        };
        let verified = verify(old_password, user.password_hash.as_str());
        assert(fits(verify, old_password, user@.password_hash, verified));
        assert(verified matches Err(f) ==> fits(verify, old_password, user@.password_hash, Err(f)));
        match self.check_password_change(true, verified, new_password) {
            Ok(()) => {},
            Err(e) => {
                return Err(e);
            },
        }
        match hash(new_password) {
            Ok(hashed) => Ok((id, hashed)),
            Err(e) => Err(e),
        }
    }

    /// Changes a password: the old one must fit, and the new one must have the right form. Every
    /// token of the account is revoked before the new hash is written.
    pub fn change_password<
        DB: UserDatabase,
        V: Fn(&str, &str) -> Result<bool, KirinoError>,
        H: Fn(&str) -> Result<String, KirinoError>,
        K: Fn(&str),
    >(
        &self,
        db: &mut DB,
        user_id: &str,
        old_password: &str,
        new_password: &str,
        verify: V,
        hash: H,
        revoke_all: K,
    ) -> (r: Result<(), KirinoError>)
        requires
            old(db).wf(),
            forall|h: &str| call_requires(verify, (old_password, h)),
            call_requires(hash, (new_password,)),
            call_requires(revoke_all, (user_id,)),
        ensures
            final(db).wf(),
            exists|begun: Result<(u128, String), KirinoError>|
                {
                    &&& #[trigger] change_begun(old(db), user_id@, old_password, new_password, verify, hash, begun)
                    &&& match begun {
                        Err(e) => r == Err::<(), KirinoError>(e) && *final(db) == *old(db),
                        Ok((id, hashed)) => {
                            let before = old(db).accounts();
                            let after = final(db).accounts();
                            &&& call_ensures(revoke_all, (user_id,), ())
                            &&& hash_written(*old(db), id, hashed@, r)
                            &&& after.dom() == before.dom()
                            &&& forall|other: u128| #[trigger]
                                before.contains_key(other) && other != id ==> after[other] == before[other]
                            &&& rehashed(before[id], after[id], hashed@) || r is Err && after[id] == before[id]
                        },
                    }
                },
    {
        let begun = self.begin_password_change(&*db, user_id, old_password, new_password, verify, hash);
        let ghost outcome = begun;
        assert(change_begun(old(db), user_id@, old_password, new_password, verify, hash, outcome));
        match begun {
            Err(e) => Err(e),
            Ok((id, hashed)) => {
                revoke_all(user_id);
                let r = db.update_password(id, hashed.as_str());
                assert(hash_written(*old(db), id, hashed@, r));
                r
            },
        }
    }

    /// Removes an account; false if there was none. Every token of it is revoked first.
    pub fn delete_user<DB: UserDatabase, K: Fn(&str)>(&self, db: &mut DB, user_id: &str, revoke_all: K) -> (r: Result<
        bool,
        KirinoError,
    >)
        requires
            old(db).wf(),
            call_requires(revoke_all, (user_id,)),
        ensures
            final(db).wf(),
            match crate::ids::uuid_read(user_id@) {
                Err(_) => {
                    &&& r matches Err(e) && e@ == ErrorView::Validation("invalid user_id"@)
                    &&& *final(db) == *old(db)
                },
                Ok(id) => {
                    &&& call_ensures(revoke_all, (user_id,), ())
                    &&& exists|store: &mut DB|
                        {
                            &&& *store == *old(db)
                            &&& *final(store) == *final(db)
                            &&& #[trigger] call_ensures(DB::delete_user, (store, id), r)
                        }
                    &&& r matches Ok(found) ==> found == old(db).accounts().contains_key(id)
                    &&& final(db).accounts() == old(db).accounts().remove(id) || r is Err && final(db).accounts()
                        == old(db).accounts()
                },
            },
    {
        match parse_user_id(user_id) {
            Err(e) => Err(e),
            Ok(id) => {
                revoke_all(user_id);
                db.delete_user(id)
            },
        }
    }

    /// What is shown of every account.
    pub fn list_users<DB: UserDatabase>(&self, db: &DB) -> (r: Result<Vec<UserInfo>, KirinoError>)
        requires
            db.wf(),
        ensures
            match r {
                Ok(shown) => exists|list: Vec<UserRecord>|
                    {
                        &&& #[trigger] call_ensures(DB::list_users, (db,), Ok(list))
                        &&& lists_all(db.accounts(), list@)
                        &&& shown@.len() == list@.len()
                        &&& forall|i: int|
                            0 <= i < list@.len() ==> crate::service::login::users::shows(#[trigger] shown@[i], list@[i]@)
                    },
                Err(e) => call_ensures(DB::list_users, (db,), Err(e)),
            },
    {
        match db.list_users() {
            Ok(list) => {
                assert(call_ensures(DB::list_users, (db,), Ok(list)));
                Ok(list_public(&list))
            },
            Err(e) => Err(e),
        }
    }

    /// Logs someone in and makes a session with all their roles: the token is issued for the
    /// account, its roles, its permissions and the session.
    pub fn login_with_session<
        DB: UserDatabase,
        V: Fn(&str, &str) -> Result<bool, KirinoError>,
        T: Fn(&SignedIn, &str) -> Result<String, KirinoError>,
        M: SessionManager<StringSubject>,
        P: Permission,
        A: AssignmentStore<StringSubject, P>,
        RR: RoleRegistry<P>,
        PR: PermissionRegistry<P>,
        C: PermissionCache<StringSubject, P>,
    >(
        &mut self,
        db: &DB,
        engine: &RbacEngine<StringSubject, P, A, RR, PR, C>,
        username: &str,
        password: &str,
        session_mgr: &mut M,
        session_ttl: i128,
        verify: V,
        issue: T,
        ticks: u64,
    ) -> (r: Result<(LoginResult, Session<StringSubject>), KirinoError>)
        requires
            old(self).wf(),
            db.wf(),
            engine.wf(),
            old(session_mgr).valid(),
            -crate::rbac::session::MAX_TTL <= session_ttl <= crate::rbac::session::MAX_TTL,
            forall|hash: &str| call_requires(verify, (password, hash)),
            forall|who: &SignedIn, session: &str| call_requires(issue, (who, session)),
        ensures
            final(self).wf(),
            final(self).settled_as(old(self)),
            final(self).registrations() == old(self).registrations(),
            final(self).latched() == old(self).latched(),
            final(session_mgr).valid(),
            exists|signed: Result<SignedIn, KirinoError>|
                {
                    &&& #[trigger] old(self).signed_in(
                        final(self),
                        db,
                        engine,
                        username@,
                        password,
                        verify,
                        ticks,
                        signed,
                    )
                    &&& match signed {
                        Err(e) => (r matches Err(f) && f@ == e@) && *final(session_mgr) == *old(session_mgr),
                        Ok(who) => exists|begun: Result<Session<StringSubject>, KirinoError>|
                            {
                                &&& #[trigger] session_begun(
                                    old(session_mgr),
                                    final(session_mgr),
                                    who,
                                    session_ttl,
                                    begun,
                                )
                                &&& match begun {
                                    Err(e) => r matches Err(f) && f@ == e@,
                                    Ok(session) => match r {
                                        Err(e) => issued(issue, who, session.id, Err(e)),
                                        Ok((given, made)) => {
                                            &&& issued(issue, who, session.id, Ok(given.token))
                                            &&& made == session && made.wf()
                                            &&& given.user_id@ == crate::ids::uuid_text(who.user.id)
                                            &&& given.username == who.user.username
                                            &&& given.display_name == who.user.display_name
                                            &&& given.roles == who.roles
                                            &&& given.session_id == Some(session.id)
                                        },
                                    },
                                }
                            },
                    }
                },
    {
        let signed = self.sign_in(db, engine, username, password, verify, ticks);
        let ghost outcome = signed;
        assert(old(self).signed_in(self, db, engine, username@, password, verify, ticks, outcome));
        let who = match signed {
            Ok(who) => who,
            Err(e) => {
                return Err(e);
            },
        };
        let subject = StringSubject::new(show_uuid(who.user.id).as_str());
        let roles = KeySet::from_items(&who.roles);
        assert(crate::rbac::traits::texts_of(who.roles@) =~= crate::collections::ids_of(who.roles@));
        let begun = session_mgr.create_session(&subject, roles, session_ttl);
        let ghost made = begun;
        assert(session_begun(old(session_mgr), session_mgr, who, session_ttl, made));
        let session = match begun {
            Ok(session) => session,
            Err(e) => {
                return Err(e);
            },
        };
        let session_id = show_uuid(session.id);
        let token = issue(&who, session_id.as_str());
        assert(issued(issue, who, session.id, token));
        match token {
            Err(e) => Err(e),
            Ok(token) => Ok((login_result(&who.user, who.roles, token, Some(session.id)), session)),
        }
    }

    /// Logs someone out: the tokens of the session are revoked, and then it is ended.
    pub fn logout<M: SessionManager<StringSubject>, K: Fn(&str)>(
        &self,
        _user_id: &str,
        session_id: u128,
        session_mgr: &mut M,
        revoke_session: K,
    ) -> (r: Result<(), KirinoError>)
        requires
            old(session_mgr).valid(),
            forall|text: &str| call_requires(revoke_session, (text,)),
        ensures
            final(session_mgr).valid(),
            told(revoke_session, session_id),
            old(session_mgr).ended(final(session_mgr), session_id, r),
    {
        let text = show_uuid(session_id);
        revoke_session(text.as_str());
        assert(told(revoke_session, session_id));
        session_mgr.destroy_session(session_id)
    }
}

/// Whether the beginning of a change of password can come to this: the identifier must be one, the
/// account must be there, the old password must fit, and the new one must have the right form.
pub open spec fn change_begun<
    DB: UserDatabase,
    V: Fn(&str, &str) -> Result<bool, KirinoError>,
    H: Fn(&str) -> Result<String, KirinoError>,
>(
    db: &DB,
    user_id: Seq<char>,
    old_password: &str,
    new_password: &str,
    verify: V,
    hash: H,
    r: Result<(u128, String), KirinoError>,
) -> bool {
    let shape = crate::service::login::validation::shape_of(new_password@).outcome();
    match crate::ids::uuid_read(user_id) {
        Err(_) => r matches Err(e) && e@ == ErrorView::Validation("invalid user_id"@),
        Ok(id) => match r {
            Ok((account, hashed)) => {
                &&& account == id
                &&& found_by_id(db, id) && db.accounts().contains_key(id)
                &&& fits(verify, old_password, db.accounts()[id].password_hash, Ok(true))
                &&& shape is Ok
                &&& call_ensures(hash, (new_password,), Ok(hashed))
            },
            Err(e) => {
                ||| call_ensures(DB::find_by_id, (db, id), Err(e))
                ||| {
                    &&& found_by_id(db, id) && !db.accounts().contains_key(id)
                    &&& e@ == ErrorView::NotFound("user not found"@)
                }
                ||| found_by_id(db, id) && db.accounts().contains_key(id) && {
                    let kept = db.accounts()[id].password_hash;
                    ||| exists|f: KirinoError| f@ == e@ && #[trigger] fits(verify, old_password, kept, Err(f))
                    ||| fits(verify, old_password, kept, Ok(false)) && e@ == ErrorView::AuthenticationFailed
                    ||| fits(verify, old_password, kept, Ok(true)) && shape == Err::<(), ErrorView>(e@)
                    ||| {
                        &&& fits(verify, old_password, kept, Ok(true))
                        &&& shape is Ok
                        &&& call_ensures(hash, (new_password,), Err(e))
                    }
                }
            },
        },
    }
}

/// Whether looking for an identifier can find what is there.
pub open spec fn found_by_id<DB: UserDatabase>(db: &DB, id: u128) -> bool {
    exists|found: Option<UserRecord>|
        {
            &&& #[trigger] call_ensures(DB::find_by_id, (db, id), Ok(found))
            &&& user_shown(found) == (if db.accounts().contains_key(id) {
                Some(db.accounts()[id])
            } else {
                None
            })
        }
}

/// Whether giving an account another hash can come to this.
pub open spec fn hash_written<DB: UserDatabase>(db: DB, id: u128, hashed: Seq<char>, r: Result<(), KirinoError>) -> bool {
    exists|store: &mut DB, text: &str|
        *store == db && text@ == hashed && #[trigger] call_ensures(DB::update_password, (store, id, text), r)
}

/// Whether a host was told of the text of an identifier, and answered so.
pub open spec fn told<K: Fn(&str)>(tell: K, id: u128) -> bool {
    exists|text: &str| text@ == crate::ids::uuid_text(id) && #[trigger] call_ensures(tell, (text,), ())
}

/// Whether a token for someone in a session can come to this.
pub open spec fn issued<T: Fn(&SignedIn, &str) -> Result<String, KirinoError>>(
    issue: T,
    who: SignedIn,
    session: u128,
    token: Result<String, KirinoError>,
) -> bool {
    exists|text: &str| text@ == crate::ids::uuid_text(session) && #[trigger] call_ensures(issue, (&who, text), token)
}

/// Whether a session for someone who is logged in can come to this: it is made for the subject of
/// the account, and all its roles are asked for.
pub open spec fn session_begun<M: SessionManager<StringSubject>>(
    before: &M,
    after: &M,
    who: SignedIn,
    ttl: i128,
    begun: Result<Session<StringSubject>, KirinoError>,
) -> bool {
    exists|subject: StringSubject|
        {
            &&& subject.id_text() == crate::ids::uuid_text(who.user.id)
            &&& #[trigger] before.begun(after, subject, crate::rbac::traits::texts_of(who.roles@).to_set(), ttl, begun)
        }
}

/// Someone who is logged in, short of a token.
pub struct SignedIn {
    /// The account.
    pub user: UserRecord,
    /// The roles.
    pub roles: Vec<String>,
    /// The names of the permissions.
    pub permissions: Vec<String>,
}

/// Whether looking for a name can come to this: the account of the name, none, or a failure.
pub open spec fn can_be_found<DB: UserDatabase>(
    db: &DB,
    username: Seq<char>,
    read: Result<Option<UserRecord>, KirinoError>,
) -> bool {
    &&& searched(*db, username, read)
    &&& read matches Ok(found) ==> is_named(db.accounts(), username, user_shown(found))
}

/// Whether checking a password against a hash can come to this.
pub open spec fn fits<V: Fn(&str, &str) -> Result<bool, KirinoError>>(
    verify: V,
    password: &str,
    hash: Seq<char>,
    verified: Result<bool, KirinoError>,
) -> bool {
    exists|h: &str| h@ == hash && #[trigger] call_ensures(verify, (password, h), verified)
}

/// Whether a password was checked against what belongs to what was found: the hash of the account,
/// or that of no password. Where the search failed nothing is checked.
pub open spec fn was_checked<V: Fn(&str, &str) -> Result<bool, KirinoError>>(
    verify: V,
    password: &str,
    read: Result<Option<UserRecord>, KirinoError>,
    verified: Result<bool, KirinoError>,
) -> bool {
    match read {
        Ok(Some(user)) => fits(verify, password, user.password_hash.text(), verified),
        Ok(None) => fits(verify, password, DUMMY_HASH@, verified),
        Err(_) => true,
    }
}

/// What a search and a check come to, if it is a failure.
pub open spec fn sign_in_failure(
    read: Result<Option<UserRecord>, KirinoError>,
    verified: Result<bool, KirinoError>,
) -> Option<ErrorView> {
    match read {
        Err(e) => Some(e@),
        Ok(found) => crate::service::login::auth::login_failure(found, verified),
    }
}

/// Whether what is read of an account's roles and permissions comes to this.
pub open spec fn fetched<
    P: Permission,
    A: AssignmentStore<StringSubject, P>,
    RR: RoleRegistry<P>,
    PR: PermissionRegistry<P>,
    C: PermissionCache<StringSubject, P>,
>(engine: &RbacEngine<StringSubject, P, A, RR, PR, C>, user: UserRecord, r: Result<SignedIn, KirinoError>) -> bool {
    let id = crate::ids::uuid_text(user.id);
    match (
        engine.store().roles_read(id),
        crate::rbac::engine::effective::<StringSubject, P, A, RR>(&engine.store(), &engine.registry(), false, id),
    ) {
        (Ok(roles), Ok(perms)) => {
            &&& r matches Ok(who)
            &&& who.user == user
            &&& crate::rbac::traits::texts_of(who.roles@).to_set() == roles
            &&& exists|set: crate::collections::KeySet<P>|
                #![trigger set.items()]
                set.wf() && set@ == perms && crate::rbac::traits::texts_of(who.permissions@)
                    == crate::rbac::registry::names_of(set.items())
        },
        _ => r matches Err(e) && e@ == ErrorView::AuthorizationDenied("store unavailable"@),
    }
}

/// Whether no two accounts have the same name.
pub open spec fn names_differ(accounts: Map<u128, UserView>) -> bool {
    forall|a: u128, b: u128| #[trigger]
        accounts.contains_key(a) && #[trigger] accounts.contains_key(b) && a != b ==> accounts[a].username
            != accounts[b].username
}

/// A registration under a free name leaves every name with one account.
pub proof fn law_names_stay_unique(before: Map<u128, UserView>, account: UserView)
    requires
        names_differ(before),
        !is_taken(before, account.username),
    ensures
        names_differ(before.insert(account.id, account)),
{
    let after = before.insert(account.id, account);
    assert forall|a: u128, b: u128| #[trigger]
        after.contains_key(a) && #[trigger] after.contains_key(b) && a != b implies after[a].username
        != after[b].username by {
        if a != account.id {
            assert(before.contains_key(a));
        }
        if b != account.id {
            assert(before.contains_key(b));
        }
    }
}

/// Whoever registered under a free name is found under it, and is let in with a password that fits.
pub proof fn law_registered_user_can_log_in(
    before: Map<u128, UserView>,
    id: u128,
    username: Seq<char>,
    password_hash: Seq<char>,
    display_name: Option<Seq<char>>,
    now: i128,
    found: Option<UserRecord>,
)
    requires
        !is_taken(before, username),
        is_named(
            before.insert(
                id,
                crate::service::login::users::new_account(id, username, password_hash, display_name, now),
            ),
            username,
            user_shown(found),
        ),
    ensures
        found is Some,
        found->Some_0@ == crate::service::login::users::new_account(id, username, password_hash, display_name, now),
        crate::service::login::auth::login_failure(found, Ok(true)) is None,
{
    let account = crate::service::login::users::new_account(id, username, password_hash, display_name, now);
    let after = before.insert(id, account);
    assert(after.contains_key(id) && after[id].username == username);
    if found is Some {
        let u = found->Some_0@;
        if u.id != id {
            assert(before.contains_key(u.id) && before[u.id].username == username);
        }
    }
}

/// An account whose password was changed is found under its name with the new hash, which then
/// decides.
pub proof fn law_new_password_decides(
    before: Map<u128, UserView>,
    after: Map<u128, UserView>,
    id: u128,
    hashed: Seq<char>,
    found: Option<UserRecord>,
)
    requires
        names_differ(before),
        before.contains_key(id),
        before[id].id == id,
        after.dom() == before.dom(),
        forall|other: u128| #[trigger] before.contains_key(other) && other != id ==> after[other] == before[other],
        rehashed(before[id], after[id], hashed),
        is_named(after, before[id].username, user_shown(found)),
    ensures
        found is Some,
        found->Some_0@.id == id,
        found->Some_0@.password_hash == hashed,
        found->Some_0@.is_active == before[id].is_active,
{
    assert(after.contains_key(id) && after[id].username == before[id].username);
    if found is Some {
        let u = found->Some_0@;
        assert(before.contains_key(u.id));
        if u.id != id {
            assert(before.contains_key(id) && before.contains_key(u.id));
        }
    }
}

/// A removed account is no longer found under its name, and whoever tries to log in with it is
/// refused as someone unknown is.
pub proof fn law_removed_user_is_unknown(
    before: Map<u128, UserView>,
    id: u128,
    found: Option<UserRecord>,
    verified: Result<bool, KirinoError>,
)
    requires
        names_differ(before),
        before.contains_key(id),
        is_named(before.remove(id), before[id].username, user_shown(found)),
    ensures
        found is None,
        crate::service::login::auth::login_failure(found, verified) == Some(ErrorView::AuthenticationFailed),
{
    if found is Some {
        let u = found->Some_0@;
        assert(before.contains_key(u.id) && before.contains_key(id));
    }
}

/// A registration that succeeds makes one account under the accepted name, which nobody had, with a hash
/// of the password, and changes no other; it gives the account its role, that of the first user only
/// where they are singled out, nobody was looked at before and there are no accounts. A name that is
/// taken, or is not accepted, or a password that is not, changes neither the accounts nor the roles.
pub proof fn law_registration<
    DB: UserDatabase,
    H: Fn(&str) -> Result<String, KirinoError>,
    P: Permission,
    A: AssignmentStore<StringSubject, P>,
    RR: RoleRegistry<P>,
    PR: PermissionRegistry<P>,
    C: PermissionCache<StringSubject, P>,
>(
    before: AuthService,
    after: AuthService,
    db: (DB, DB),
    engine: (RbacEngine<StringSubject, P, A, RR, PR, C>, RbacEngine<StringSubject, P, A, RR, PR, C>),
    username: &str,
    password: &str,
    display_name: Option<&str>,
    hash: H,
    ticks: u64,
    id: u128,
    now: i128,
    r: Result<UserInfo, KirinoError>,
    name: Result<String, KirinoError>,
    form: Result<(), KirinoError>,
    other: u128,
)
    requires
        exists|service: &mut AuthService, accounts: &mut DB, roles: &mut RbacEngine<StringSubject, P, A, RR, PR, C>|
            {
                &&& *service == before && *final(service) == after
                &&& *accounts == db.0 && *final(accounts) == db.1
                &&& *roles == engine.0 && *final(roles) == engine.1
                &&& #[trigger] call_ensures(
                    AuthService::register_at::<DB, H, P, A, RR, PR, C>,
                    (service, accounts, roles, username, password, display_name, hash, ticks, id, now),
                    r,
                )
            },
        call_ensures(crate::service::login::validation::validate_username, (username,), name),
        call_ensures(crate::service::login::validation::validate_password, (password,), form),
        other != id,
    ensures
        r matches Ok(info) ==> {
            let account = db.1.accounts()[id];
            let text = crate::ids::uuid_text(id);
            let role = if before.singles_out_first() && !before.latched() && db.0.accounts().dom().len() == 0 {
                before.first_role()
            } else {
                before.other_role()
            };
            &&& name is Ok && form is Ok
            &&& forall|a: u128| #[trigger] db.0.accounts().contains_key(a) ==> db.0.accounts()[a].username != name->Ok_0@
            &&& db.1.accounts().contains_key(id)
            &&& account.id == id && account.username == name->Ok_0@ && account.is_active
            &&& exists|hashed: String| #[trigger]
                call_ensures(hash, (password,), Ok(hashed)) && account.password_hash == hashed@
            &&& account.identity == (crate::rbac::identity_subject::Identity::Basic { id, created_at: now })
            &&& account.created_at == now && account.updated_at == now
            &&& account.display_name is Some <==> display_name is Some
            &&& account.display_name matches Some(d) ==> d == display_name->Some_0@
            &&& info.id == id && info.username@ == account.username && info.is_active
            &&& engine.0.store().roles_read(text) is Ok && engine.1.store().roles_read(text) is Ok
                ==> engine.1.store().roles_read(text)->Ok_0 == engine.0.store().roles_read(text)->Ok_0.insert(role)
            &&& after.latched() == (before.latched() || before.singles_out_first())
            &&& !after.registrations().entries().contains_key(name->Ok_0@)
        },
        db.1.accounts().contains_key(other) <==> db.0.accounts().contains_key(other),
        db.0.accounts().contains_key(other) ==> db.1.accounts()[other] == db.0.accounts()[other],
        crate::ids::uuid_text(other) != crate::ids::uuid_text(id) ==> engine.1.store().roles_read(
            crate::ids::uuid_text(other),
        ) == engine.0.store().roles_read(crate::ids::uuid_text(other)),
        name is Err || form is Err ==> r is Err && db.1 == db.0 && engine.1 == engine.0 && after.registrations()
            == before.registrations() && after.latched() == before.latched(),
        name matches Err(e) ==> r->Err_0@ == e@,
        name is Ok && form is Err ==> r->Err_0@ == form->Err_0@,
        name is Ok && is_taken(db.0.accounts(), name->Ok_0@) ==> r is Err && db.1 == db.0 && engine.1 == engine.0
            && after.latched() == before.latched(),
        after.logins() == before.logins(),
{
    assert(before.registered(
        &after,
        db,
        engine,
        username@,
        password,
        crate::text::str_text(display_name),
        hash,
        ticks,
        id,
        now,
        r,
    ));
    if let Ok(info) = r {
        let hashed = choose|hashed: String|
            {
                let account = crate::service::login::users::new_account(
                    id,
                    name->Ok_0@,
                    hashed@,
                    crate::text::str_text(display_name),
                    now,
                );
                &&& #[trigger] call_ensures(hash, (password,), Ok(hashed))
                &&& creation_done(db.0, account, Ok(()))
                &&& db.1.accounts() == db.0.accounts().insert(id, account)
            };
        assert(call_ensures(hash, (password,), Ok(hashed)));
    }
}

/// Whether someone is let in: there is an account of the name that is switched on, and the password fits
/// its hash; the roles are those that are read of it, and the permissions those that are granted to it.
pub open spec fn is_let_in<
    DB: UserDatabase,
    V: Fn(&str, &str) -> Result<bool, KirinoError>,
    P: Permission,
    A: AssignmentStore<StringSubject, P>,
    RR: RoleRegistry<P>,
    PR: PermissionRegistry<P>,
    C: PermissionCache<StringSubject, P>,
>(
    db: &DB,
    engine: &RbacEngine<StringSubject, P, A, RR, PR, C>,
    name: Seq<char>,
    password: &str,
    verify: V,
    who: SignedIn,
) -> bool {
    let account = db.accounts()[who.user.id];
    &&& db.accounts().contains_key(who.user.id) && account == who.user@
    &&& account.username == name
    &&& account.is_active
    &&& exists|h: &str| h@ == account.password_hash && #[trigger] call_ensures(verify, (password, h), Ok(true))
    &&& crate::service::login::auth::is_what_may_be_done(
        engine,
        crate::ids::uuid_text(who.user.id),
        who.roles@,
        who.permissions@,
    )
}

/// Whether a refused login is refused with reason: the attempt was not let through, the search failed,
/// no account of the name is switched on, the password does not fit or could not be checked, or what the
/// account may do could not be read.
pub open spec fn is_kept_out<
    DB: UserDatabase,
    V: Fn(&str, &str) -> Result<bool, KirinoError>,
    P: Permission,
    A: AssignmentStore<StringSubject, P>,
    RR: RoleRegistry<P>,
    PR: PermissionRegistry<P>,
    C: PermissionCache<StringSubject, P>,
>(
    db: &DB,
    engine: &RbacEngine<StringSubject, P, A, RR, PR, C>,
    name: Seq<char>,
    password: &str,
    verify: V,
    tried: Result<(), KirinoError>,
    e: ErrorView,
) -> bool {
    ||| tried matches Err(f) && f@ == e
    ||| exists|n: &str, f: KirinoError|
        n@ == name && f@ == e && #[trigger] call_ensures(DB::find_by_username, (db, n), Err(f))
    ||| e is AuthenticationFailed && {
        ||| forall|a: u128| #[trigger] db.accounts().contains_key(a) ==> db.accounts()[a].username != name
        ||| exists|a: u128| #[trigger]
            db.accounts().contains_key(a) && db.accounts()[a].username == name && (!db.accounts()[a].is_active || {
                exists|h: &str|
                    h@ == db.accounts()[a].password_hash && #[trigger] call_ensures(verify, (password, h), Ok(false))
            })
    }
    ||| exists|h: &str, f: KirinoError| f@ == e && #[trigger] call_ensures(verify, (password, h), Err(f))
    ||| e is AuthorizationDenied && exists|a: u128| #[trigger]
        db.accounts().contains_key(a) && db.accounts()[a].username == name && {
            ||| engine.store().roles_read(crate::ids::uuid_text(a)) is Err
            ||| engine.store().extra_read(crate::ids::uuid_text(a)) is Err
            ||| engine.store().denied_read(crate::ids::uuid_text(a)) is Err
        }
}

proof fn lemma_signed_in<
    DB: UserDatabase,
    V: Fn(&str, &str) -> Result<bool, KirinoError>,
    P: Permission,
    A: AssignmentStore<StringSubject, P>,
    RR: RoleRegistry<P>,
    PR: PermissionRegistry<P>,
    C: PermissionCache<StringSubject, P>,
>(
    before: AuthService,
    after: AuthService,
    db: &DB,
    engine: &RbacEngine<StringSubject, P, A, RR, PR, C>,
    username: &str,
    password: &str,
    verify: V,
    ticks: u64,
    r: Result<SignedIn, KirinoError>,
    name: String,
    key: &str,
    counted: crate::service::login::rate_limiter::LoginRateLimiter,
    tried: Result<(), KirinoError>,
)
    requires
        before.signed_in(&after, db, engine, username@, password, verify, ticks, r),
        call_ensures(crate::service::login::validation::trim, (username,), name),
        key@ == name@,
        exists|limiter: &mut crate::service::login::rate_limiter::LoginRateLimiter|
            *limiter == before.logins() && *final(limiter) == counted && #[trigger] call_ensures(
                crate::service::login::rate_limiter::LoginRateLimiter::check_and_record_failure,
                (limiter, key, ticks),
                tried,
            ),
    ensures
        r matches Ok(who) ==> tried is Ok && is_let_in(db, engine, name@, password, verify, who)
            && !after.logins().entries().contains_key(name@),
        r matches Err(e) ==> is_kept_out(db, engine, name@, password, verify, tried, e@),
        tried matches Err(e) ==> (r matches Err(f) && f@ == e@) && after.logins().entries() == counted.entries(),
{
    if tried is Ok {
        let kept = crate::service::login::rate_limiter::pruned(
            before.logins().entries(),
            before.logins().limits(),
            ticks,
        );
        let (_, entry) = crate::service::login::rate_limiter::attempt(
            before.logins().limits(),
            crate::service::login::rate_limiter::known_of(kept, name@),
            ticks,
        );
        let (read, verified) = choose|read: Result<Option<UserRecord>, KirinoError>, verified: Result<bool, KirinoError>|
            {
                &&& #[trigger] can_be_found(db, name@, read)
                &&& #[trigger] was_checked(verify, password, read, verified)
                &&& match sign_in_failure(read, verified) {
                    Some(e) => after.logins().entries() == kept.insert(name@, entry) && (r matches Err(f) && f@ == e),
                    None => {
                        &&& after.logins().entries() == kept.insert(name@, entry).remove(name@)
                        &&& fetched(engine, read->Ok_0->Some_0, r)
                    },
                }
            };
        if let Ok(Some(user)) = read {
            assert(db.accounts().contains_key(user.id) && db.accounts()[user.id] == user@);
            let h = choose|h: &str|
                h@ == user.password_hash.text() && #[trigger] call_ensures(verify, (password, h), verified);
            if user.is_active {
                match verified {
                    Ok(b) => {
                        if b {
                            assert(call_ensures(verify, (password, h), Ok(true)));
                            if let Ok(who) = r {
                                crate::service::login::auth::lemma_fetched(
                                    engine,
                                    crate::ids::uuid_text(user.id),
                                    who.roles,
                                    who.permissions,
                                );
                            }
                        } else {
                            assert(call_ensures(verify, (password, h), Ok(false)));
                        }
                    },
                    Err(f) => {
                        assert(call_ensures(verify, (password, h), Err(f)));
                    },
                }
            }
        }
        if let Err(f) = read {
            let n = choose|n: &str| n@ == name@ && #[trigger] call_ensures(DB::find_by_username, (db, n), read);
            assert(call_ensures(DB::find_by_username, (db, n), Err(f)));
        }
        if read matches Ok(None) {
            assert forall|a: u128| #[trigger] db.accounts().contains_key(a) implies db.accounts()[a].username != name@ by {
                if db.accounts()[a].username == name@ {
                    assert(is_taken(db.accounts(), name@));
                }
            }
        }
    }
}

/// Whoever is logged in is let in with reason, and whoever is refused is kept out with reason; while a
/// name is blocked nobody is let in under it, whatever the password.
pub proof fn law_login_short_of_the_token<
    DB: UserDatabase,
    V: Fn(&str, &str) -> Result<bool, KirinoError>,
    P: Permission,
    A: AssignmentStore<StringSubject, P>,
    RR: RoleRegistry<P>,
    PR: PermissionRegistry<P>,
    C: PermissionCache<StringSubject, P>,
>(
    before: AuthService,
    after: AuthService,
    db: &DB,
    engine: &RbacEngine<StringSubject, P, A, RR, PR, C>,
    username: &str,
    password: &str,
    verify: V,
    ticks: u64,
    r: Result<SignedIn, KirinoError>,
    name: String,
    key: &str,
    counted: crate::service::login::rate_limiter::LoginRateLimiter,
    tried: Result<(), KirinoError>,
)
    requires
        exists|service: &mut AuthService|
            *service == before && *final(service) == after && #[trigger] call_ensures(
                AuthService::sign_in::<DB, V, P, A, RR, PR, C>,
                (service, db, engine, username, password, verify, ticks),
                r,
            ),
        call_ensures(crate::service::login::validation::trim, (username,), name),
        key@ == name@,
        exists|limiter: &mut crate::service::login::rate_limiter::LoginRateLimiter|
            *limiter == before.logins() && *final(limiter) == counted && #[trigger] call_ensures(
                crate::service::login::rate_limiter::LoginRateLimiter::check_and_record_failure,
                (limiter, key, ticks),
                tried,
            ),
    ensures
        r matches Ok(who) ==> tried is Ok && is_let_in(db, engine, name@, password, verify, who)
            && !after.logins().entries().contains_key(name@),
        r matches Err(e) ==> is_kept_out(db, engine, name@, password, verify, tried, e@),
        tried matches Err(e) ==> (r matches Err(f) && f@ == e@) && after.logins().entries() == counted.entries(),
        after.registrations() == before.registrations(),
        after.latched() == before.latched(),
{
    lemma_signed_in(before, after, db, engine, username, password, verify, ticks, r, name, key, counted, tried);
}

/// A login gives the token that was issued for whoever was let in, with their account and roles and no
/// session; it fails only where they are kept out or the token could not be issued.
pub proof fn law_login<
    DB: UserDatabase,
    V: Fn(&str, &str) -> Result<bool, KirinoError>,
    T: Fn(&SignedIn) -> Result<String, KirinoError>,
    P: Permission,
    A: AssignmentStore<StringSubject, P>,
    RR: RoleRegistry<P>,
    PR: PermissionRegistry<P>,
    C: PermissionCache<StringSubject, P>,
>(
    before: AuthService,
    after: AuthService,
    db: &DB,
    engine: &RbacEngine<StringSubject, P, A, RR, PR, C>,
    username: &str,
    password: &str,
    verify: V,
    issue: T,
    ticks: u64,
    r: Result<LoginResult, KirinoError>,
    name: String,
    key: &str,
    counted: crate::service::login::rate_limiter::LoginRateLimiter,
    tried: Result<(), KirinoError>,
)
    requires
        exists|service: &mut AuthService|
            *service == before && *final(service) == after && #[trigger] call_ensures(
                AuthService::login::<DB, V, T, P, A, RR, PR, C>,
                (service, db, engine, username, password, verify, issue, ticks),
                r,
            ),
        call_ensures(crate::service::login::validation::trim, (username,), name),
        key@ == name@,
        exists|limiter: &mut crate::service::login::rate_limiter::LoginRateLimiter|
            *limiter == before.logins() && *final(limiter) == counted && #[trigger] call_ensures(
                crate::service::login::rate_limiter::LoginRateLimiter::check_and_record_failure,
                (limiter, key, ticks),
                tried,
            ),
    ensures
        tried matches Err(e) ==> (r matches Err(f) && f@ == e@),
        r matches Ok(given) ==> given.session_id is None && exists|who: SignedIn|
            {
                &&& #[trigger] call_ensures(issue, (&who,), Ok(given.token))
                &&& is_let_in(db, engine, name@, password, verify, who)
                &&& given.user_id@ == crate::ids::uuid_text(who.user.id)
                &&& given.username == who.user.username && given.display_name == who.user.display_name
                &&& given.roles == who.roles
            },
        r matches Err(e) ==> {
            ||| is_kept_out(db, engine, name@, password, verify, tried, e@)
            ||| exists|who: SignedIn| #[trigger]
                call_ensures(issue, (&who,), Err(e)) && is_let_in(db, engine, name@, password, verify, who)
        },
{
    let signed = choose|signed: Result<SignedIn, KirinoError>|
        {
            &&& #[trigger] before.signed_in(&after, db, engine, username@, password, verify, ticks, signed)
            &&& match signed {
                Err(e) => r matches Err(f) && f@ == e@,
                Ok(who) => match r {
                    Err(e) => call_ensures(issue, (&who,), Err(e)),
                    Ok(given) => {
                        &&& call_ensures(issue, (&who,), Ok(given.token))
                        &&& given.user_id@ == crate::ids::uuid_text(who.user.id)
                        &&& given.username == who.user.username
                        &&& given.display_name == who.user.display_name
                        &&& given.roles == who.roles
                        &&& given.session_id is None
                    },
                },
            }
        };
    lemma_signed_in(before, after, db, engine, username, password, verify, ticks, signed, name, key, counted, tried);
    if let Ok(who) = signed {
        match r {
            Ok(given) => {
                assert(call_ensures(issue, (&who,), Ok(given.token)));
            },
            Err(e) => {
                assert(call_ensures(issue, (&who,), Err(e)));
            },
        }
    }
}

/// A password is changed only for an account that is there, whose old password fits, to one that is
/// accepted; then the account has a hash of the new one, its tokens were revoked, and everything else of
/// it and every other account is as before. A change that is refused before anything is written changes
/// nothing.
pub proof fn law_changed_password<
    DB: UserDatabase,
    V: Fn(&str, &str) -> Result<bool, KirinoError>,
    H: Fn(&str) -> Result<String, KirinoError>,
    K: Fn(&str),
>(
    service: &AuthService,
    before: DB,
    after: DB,
    user_id: &str,
    old_password: &str,
    new_password: &str,
    verify: V,
    hash: H,
    revoke_all: K,
    r: Result<(), KirinoError>,
    form: Result<(), KirinoError>,
    other: u128,
)
    requires
        exists|db: &mut DB|
            *db == before && *final(db) == after && #[trigger] call_ensures(
                AuthService::change_password::<DB, V, H, K>,
                (service, db, user_id, old_password, new_password, verify, hash, revoke_all),
                r,
            ),
        call_ensures(crate::service::login::validation::validate_password, (new_password,), form),
    ensures
        r is Ok ==> form is Ok && crate::ids::uuid_read(user_id@) is Ok && {
            let id = crate::ids::uuid_read(user_id@)->Ok_0;
            let was = before.accounts()[id];
            let is = after.accounts()[id];
            &&& before.accounts().contains_key(id) && after.accounts().contains_key(id)
            &&& exists|h: &str| h@ == was.password_hash && #[trigger] call_ensures(verify, (old_password, h), Ok(true))
            &&& exists|hashed: String| #[trigger]
                call_ensures(hash, (new_password,), Ok(hashed)) && is.password_hash == hashed@
            &&& call_ensures(revoke_all, (user_id,), ())
            &&& is.id == was.id && is.username == was.username && is.display_name == was.display_name
            &&& is.is_active == was.is_active && is.identity == was.identity && is.created_at == was.created_at
        },
        form is Err ==> r is Err && after == before,
        crate::ids::uuid_read(user_id@) is Err ==> (r matches Err(e) && e@ is Validation) && after == before,
        crate::ids::uuid_read(user_id@) matches Ok(id) ==> !before.accounts().contains_key(id) ==> r is Err && after
            == before,
        crate::ids::uuid_read(user_id@) matches Ok(id) ==> other != id ==> {
            &&& after.accounts().contains_key(other) <==> before.accounts().contains_key(other)
            &&& before.accounts().contains_key(other) ==> after.accounts()[other] == before.accounts()[other]
        },
{
    let begun = choose|begun: Result<(u128, String), KirinoError>|
        {
            &&& #[trigger] change_begun(&before, user_id@, old_password, new_password, verify, hash, begun)
            &&& match begun {
                Err(e) => r == Err::<(), KirinoError>(e) && after == before,
                Ok((id, hashed)) => {
                    &&& call_ensures(revoke_all, (user_id,), ())
                    &&& hash_written(before, id, hashed@, r)
                    &&& after.accounts().dom() == before.accounts().dom()
                    &&& forall|o: u128| #[trigger]
                        before.accounts().contains_key(o) && o != id ==> after.accounts()[o] == before.accounts()[o]
                    &&& rehashed(before.accounts()[id], after.accounts()[id], hashed@) || r is Err
                        && after.accounts()[id] == before.accounts()[id]
                },
            }
        };
    if let Ok((id, hashed)) = begun {
        assert(before.accounts().dom().contains(other) <==> after.accounts().dom().contains(other));
        assert(before.accounts().dom().contains(id) <==> after.accounts().dom().contains(id));
        assert(call_ensures(hash, (new_password,), Ok(hashed)));
        let h = choose|h: &str|
            h@ == before.accounts()[id].password_hash && #[trigger] call_ensures(verify, (old_password, h), Ok(true));
        assert(call_ensures(verify, (old_password, h), Ok(true)));
    }
}

/// A refused change of password says what stood against it.
pub proof fn law_refused_change_of_password<
    DB: UserDatabase,
    V: Fn(&str, &str) -> Result<bool, KirinoError>,
    H: Fn(&str) -> Result<String, KirinoError>,
>(
    service: &AuthService,
    db: &DB,
    user_id: &str,
    old_password: &str,
    new_password: &str,
    verify: V,
    hash: H,
    e: KirinoError,
    form: Result<(), KirinoError>,
)
    requires
        call_ensures(
            AuthService::begin_password_change::<DB, V, H>,
            (service, db, user_id, old_password, new_password, verify, hash),
            Err(e),
        ),
        call_ensures(crate::service::login::validation::validate_password, (new_password,), form),
    ensures
        crate::ids::uuid_read(user_id@) is Err ==> e@ is Validation,
        crate::ids::uuid_read(user_id@) matches Ok(id) ==> {
            ||| call_ensures(DB::find_by_id, (db, id), Err(e))
            ||| !db.accounts().contains_key(id) && e@ is NotFound
            ||| db.accounts().contains_key(id) && exists|h: &str, verified: Result<bool, KirinoError>|
                {
                    &&& h@ == db.accounts()[id].password_hash
                    &&& #[trigger] call_ensures(verify, (old_password, h), verified)
                    &&& match verified {
                        Err(f) => f@ == e@,
                        Ok(fits) => if !fits {
                            e@ is AuthenticationFailed
                        } else {
                            form is Err && form->Err_0@ == e@ || form is Ok && call_ensures(hash, (new_password,), Err(e))
                        },
                    }
                }
        },
{
    if let Ok(id) = crate::ids::uuid_read(user_id@) {
        if db.accounts().contains_key(id) {
            let kept = db.accounts()[id].password_hash;
            if call_ensures(DB::find_by_id, (db, id), Err(e)) {
            } else if exists|f: KirinoError| f@ == e@ && #[trigger] fits(verify, old_password, kept, Err(f)) {
                let f = choose|f: KirinoError| f@ == e@ && #[trigger] fits(verify, old_password, kept, Err(f));
                let h = choose|h: &str| h@ == kept && #[trigger] call_ensures(verify, (old_password, h), Err(f));
                assert(call_ensures(verify, (old_password, h), Err(f)));
            } else if fits(verify, old_password, kept, Ok(false)) && e@ is AuthenticationFailed {
                let h = choose|h: &str| h@ == kept && #[trigger] call_ensures(verify, (old_password, h), Ok(false));
                assert(call_ensures(verify, (old_password, h), Ok(false)));
            } else {
                let h = choose|h: &str| h@ == kept && #[trigger] call_ensures(verify, (old_password, h), Ok(true));
                assert(call_ensures(verify, (old_password, h), Ok(true)));
            }
        }
    }
}

/// An account that is removed is gone alone, its tokens were revoked, and the answer says whether it was
/// there. What is listed are all accounts, each once, without their hashes.
pub proof fn law_removed_and_listed<DB: UserDatabase, K: Fn(&str)>(
    service: &AuthService,
    before: DB,
    after: DB,
    user_id: &str,
    revoke_all: K,
    r: Result<bool, KirinoError>,
    listed: Vec<UserInfo>,
    other: u128,
    i: int,
    j: int,
)
    requires
        exists|db: &mut DB|
            *db == before && *final(db) == after && #[trigger] call_ensures(
                AuthService::delete_user::<DB, K>,
                (service, db, user_id, revoke_all),
                r,
            ),
        call_ensures(AuthService::list_users::<DB>, (service, &before), Ok(listed)),
    ensures
        crate::ids::uuid_read(user_id@) is Err ==> (r matches Err(e) && e@ is Validation) && after == before,
        crate::ids::uuid_read(user_id@) matches Ok(id) ==> {
            &&& call_ensures(revoke_all, (user_id,), ())
            &&& r matches Ok(found) ==> (found <==> before.accounts().contains_key(id))
            &&& r is Ok ==> !after.accounts().contains_key(id)
            &&& other != id ==> (after.accounts().contains_key(other) <==> before.accounts().contains_key(other))
            &&& after.accounts().contains_key(other) ==> after.accounts()[other] == before.accounts()[other]
        },
        before.accounts().contains_key(other) ==> exists|k: int| 0 <= k < listed@.len() && (#[trigger] listed@[k]).id
            == other,
        0 <= i < listed@.len() ==> {
            let account = before.accounts()[listed@[i].id];
            &&& before.accounts().contains_key(listed@[i].id)
            &&& listed@[i].username@ == account.username && listed@[i].is_active == account.is_active
            &&& listed@[i].identity == account.identity && listed@[i].created_at == account.created_at
        },
        0 <= i < j < listed@.len() ==> listed@[i].id != listed@[j].id,
{
    let list = choose|list: Vec<UserRecord>|
        {
            &&& #[trigger] call_ensures(DB::list_users, (&before,), Ok(list))
            &&& lists_all(before.accounts(), list@)
            &&& listed@.len() == list@.len()
            &&& forall|k: int|
                0 <= k < list@.len() ==> crate::service::login::users::shows(#[trigger] listed@[k], list@[k]@)
        };
    if before.accounts().contains_key(other) {
        let k = choose|k: int| 0 <= k < list@.len() && (#[trigger] list@[k]).id == other;
        assert(crate::service::login::users::shows(listed@[k], list@[k]@));
    }
    if 0 <= i < listed@.len() {
        assert(crate::service::login::users::shows(listed@[i], list@[i]@));
        assert(before.accounts().contains_key(list@[i].id));
    }
    if 0 <= i < j < listed@.len() {
        assert(crate::service::login::users::shows(listed@[j], list@[j]@));
        assert(list@[i].id != list@[j].id);
    }
}

/// A login with a session makes the session for the account that was let in, asks for all its roles, and
/// gives a token that was issued for both; without a login no session is made.
pub proof fn law_login_with_session<
    DB: UserDatabase,
    V: Fn(&str, &str) -> Result<bool, KirinoError>,
    T: Fn(&SignedIn, &str) -> Result<String, KirinoError>,
    M: SessionManager<StringSubject>,
    P: Permission,
    A: AssignmentStore<StringSubject, P>,
    RR: RoleRegistry<P>,
    PR: PermissionRegistry<P>,
    C: PermissionCache<StringSubject, P>,
>(
    before: AuthService,
    after: AuthService,
    db: &DB,
    engine: &RbacEngine<StringSubject, P, A, RR, PR, C>,
    username: &str,
    password: &str,
    sessions: (M, M),
    ttl: i128,
    verify: V,
    issue: T,
    ticks: u64,
    r: Result<(LoginResult, Session<StringSubject>), KirinoError>,
    name: String,
    key: &str,
    counted: crate::service::login::rate_limiter::LoginRateLimiter,
    tried: Result<(), KirinoError>,
)
    requires
        exists|service: &mut AuthService, manager: &mut M|
            {
                &&& *service == before && *final(service) == after
                &&& *manager == sessions.0 && *final(manager) == sessions.1
                &&& #[trigger] call_ensures(
                    AuthService::login_with_session::<DB, V, T, M, P, A, RR, PR, C>,
                    (service, db, engine, username, password, manager, ttl, verify, issue, ticks),
                    r,
                )
            },
        call_ensures(crate::service::login::validation::trim, (username,), name),
        key@ == name@,
        exists|limiter: &mut crate::service::login::rate_limiter::LoginRateLimiter|
            *limiter == before.logins() && *final(limiter) == counted && #[trigger] call_ensures(
                crate::service::login::rate_limiter::LoginRateLimiter::check_and_record_failure,
                (limiter, key, ticks),
                tried,
            ),
    ensures
        tried matches Err(e) ==> (r matches Err(f) && f@ == e@) && sessions.1 == sessions.0,
        r matches Ok((given, session)) ==> given.session_id == Some(session.id) && exists|who: SignedIn, text: &str|
            {
                &&& #[trigger] call_ensures(issue, (&who, text), Ok(given.token))
                &&& text@ == crate::ids::uuid_text(session.id)
                &&& is_let_in(db, engine, name@, password, verify, who)
                &&& given.user_id@ == crate::ids::uuid_text(who.user.id)
                &&& given.username == who.user.username && given.display_name == who.user.display_name
                &&& given.roles == who.roles
                &&& exists|subject: StringSubject|
                    {
                        &&& #[trigger] subject.id_text() == crate::ids::uuid_text(who.user.id)
                        &&& sessions.0.begun(
                            &sessions.1,
                            subject,
                            crate::rbac::traits::texts_of(who.roles@).to_set(),
                            ttl,
                            Ok(session),
                        )
                    }
            },
        r is Err && sessions.1 != sessions.0 ==> exists|who: SignedIn|
            #![trigger who.user]
            is_let_in(db, engine, name@, password, verify, who),
{
    let signed = choose|signed: Result<SignedIn, KirinoError>|
        {
            &&& #[trigger] before.signed_in(&after, db, engine, username@, password, verify, ticks, signed)
            &&& match signed {
                Err(e) => (r matches Err(f) && f@ == e@) && sessions.1 == sessions.0,
                Ok(who) => exists|begun: Result<Session<StringSubject>, KirinoError>|
                    {
                        &&& #[trigger] session_begun(&sessions.0, &sessions.1, who, ttl, begun)
                        &&& match begun {
                            Err(e) => r matches Err(f) && f@ == e@,
                            Ok(session) => match r {
                                Err(e) => issued(issue, who, session.id, Err(e)),
                                Ok((given, made)) => {
                                    &&& issued(issue, who, session.id, Ok(given.token))
                                    &&& made == session && made.wf()
                                    &&& given.user_id@ == crate::ids::uuid_text(who.user.id)
                                    &&& given.username == who.user.username
                                    &&& given.display_name == who.user.display_name
                                    &&& given.roles == who.roles
                                    &&& given.session_id == Some(session.id)
                                },
                            },
                        }
                    },
            }
        };
    lemma_signed_in(before, after, db, engine, username, password, verify, ticks, signed, name, key, counted, tried);
    if let Ok(who) = signed {
        assert(is_let_in(db, engine, name@, password, verify, who));
        assert(who.user == who.user);
        if let Ok((given, session)) = r {
            assert(issued(issue, who, session.id, Ok(given.token)));
            let text = choose|text: &str|
                text@ == crate::ids::uuid_text(session.id) && #[trigger] call_ensures(
                    issue,
                    (&who, text),
                    Ok(given.token),
                );
            assert(call_ensures(issue, (&who, text), Ok(given.token)));
        }
    }
}

/// Whoever logs out has the tokens of the session revoked, and the session is ended as the manager ends
/// one of its identifier.
pub proof fn law_logout<M: SessionManager<StringSubject>, K: Fn(&str)>(
    service: &AuthService,
    user_id: &str,
    id: u128,
    before: M,
    after: M,
    revoke_session: K,
    r: Result<(), KirinoError>,
)
    requires
        exists|manager: &mut M|
            *manager == before && *final(manager) == after && #[trigger] call_ensures(
                AuthService::logout::<M, K>,
                (service, user_id, id, manager, revoke_session),
                r,
            ),
    ensures
        exists|text: &str| text@ == crate::ids::uuid_text(id) && #[trigger] call_ensures(revoke_session, (text,), ()),
        before.ended(&after, id, r),
{
}

/// A registration of the present moment that succeeds makes one account, under an identifier that was drawn
/// and the accepted name, which nobody had, with a hash of the password; a name that is not accepted or is
/// taken, or a password that is not accepted, changes nothing.
pub proof fn law_registration_now<
    DB: UserDatabase,
    H: Fn(&str) -> Result<String, KirinoError>,
    P: Permission,
    A: AssignmentStore<StringSubject, P>,
    RR: RoleRegistry<P>,
    PR: PermissionRegistry<P>,
    C: PermissionCache<StringSubject, P>,
>(
    before: AuthService,
    after: AuthService,
    db: (DB, DB),
    engine: (RbacEngine<StringSubject, P, A, RR, PR, C>, RbacEngine<StringSubject, P, A, RR, PR, C>),
    username: &str,
    password: &str,
    display_name: Option<&str>,
    hash: H,
    ticks: u64,
    r: Result<UserInfo, KirinoError>,
    name: Result<String, KirinoError>,
    form: Result<(), KirinoError>,
)
    requires
        exists|service: &mut AuthService, accounts: &mut DB, roles: &mut RbacEngine<StringSubject, P, A, RR, PR, C>|
            {
                &&& *service == before && *final(service) == after
                &&& *accounts == db.0 && *final(accounts) == db.1
                &&& *roles == engine.0 && *final(roles) == engine.1
                &&& #[trigger] call_ensures(
                    AuthService::register::<DB, H, P, A, RR, PR, C>,
                    (service, accounts, roles, username, password, display_name, hash, ticks),
                    r,
                )
            },
        call_ensures(crate::service::login::validation::validate_username, (username,), name),
        call_ensures(crate::service::login::validation::validate_password, (password,), form),
    ensures
        r matches Ok(info) ==> {
            let account = db.1.accounts()[info.id];
            &&& name is Ok && form is Ok
            &&& crate::ids::is_drawn(info.id) && crate::time::is_now(info.created_at)
            &&& forall|a: u128| #[trigger] db.0.accounts().contains_key(a) ==> db.0.accounts()[a].username != name->Ok_0@
            &&& db.1.accounts().contains_key(info.id)
            &&& account.id == info.id && account.username == name->Ok_0@ && account.is_active
            &&& exists|hashed: String| #[trigger]
                call_ensures(hash, (password,), Ok(hashed)) && account.password_hash == hashed@
            &&& db.1.accounts() == db.0.accounts().insert(info.id, account)
            &&& info.username@ == account.username && info.is_active
        },
        name is Err || form is Err ==> r is Err && db.1 == db.0 && engine.1 == engine.0,
        name is Ok && is_taken(db.0.accounts(), name->Ok_0@) ==> r is Err && db.1 == db.0 && engine.1 == engine.0,
{
    let (id, now) = choose|id: u128, now: i128|
        {
            &&& crate::ids::is_drawn(id)
            &&& crate::time::is_now(now)
            &&& #[trigger] before.registered(
                &after,
                db,
                engine,
                username@,
                password,
                crate::text::str_text(display_name),
                hash,
                ticks,
                id,
                now,
                r,
            )
        };
    if let Ok(info) = r {
        let hashed = choose|hashed: String|
            {
                let account = crate::service::login::users::new_account(
                    id,
                    name->Ok_0@,
                    hashed@,
                    crate::text::str_text(display_name),
                    now,
                );
                &&& #[trigger] call_ensures(hash, (password,), Ok(hashed))
                &&& creation_done(db.0, account, Ok(()))
                &&& db.1.accounts() == db.0.accounts().insert(id, account)
            };
        assert(call_ensures(hash, (password,), Ok(hashed)));
    }
}

} // verus!
