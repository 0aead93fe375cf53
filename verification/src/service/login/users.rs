//! Accounts, and what is shown of them.
use crate::ids::show_uuid;
use crate::rbac::identity_subject::Identity;
use vstd::prelude::*;

verus! {

/// The hash of a password, which is shown to no one but whoever checks a password against it.
pub struct PasswordHash(String);

impl PasswordHash {
    /// The characters of the hash.
    pub closed spec fn text(&self) -> Seq<char> {
        self.0@
    }

    /// A hash from its text.
    pub fn new(text: String) -> (r: Self)
        ensures
            r.text() == text@,
    {
        PasswordHash(text)
    }

    /// The text of the hash.
    pub fn as_str(&self) -> (r: &str)
        ensures
            r@ == self.text(),
    {
        self.0.as_str()
    }
}

/// An account.
pub struct UserRecord {
    /// Identifier.
    pub id: u128,
    /// The canonical username.
    pub username: String,
    /// The hash of the password.
    pub password_hash: PasswordHash,
    /// A name for people.
    pub display_name: Option<String>,
    /// Whether the account may be used.
    pub is_active: bool,
    /// Who the account stands for.
    pub identity: Identity,
    /// When it was made.
    pub created_at: i128,
    /// When it was last changed.
    pub updated_at: i128,
}

/// An account with its texts as characters.
pub struct UserView {
    /// See [`UserRecord::id`].
    pub id: u128,
    /// See [`UserRecord::username`].
    pub username: Seq<char>,
    /// See [`UserRecord::password_hash`].
    pub password_hash: Seq<char>,
    /// See [`UserRecord::display_name`].
    pub display_name: Option<Seq<char>>,
    /// See [`UserRecord::is_active`].
    pub is_active: bool,
    /// See [`UserRecord::identity`].
    pub identity: Identity,
    /// See [`UserRecord::created_at`].
    pub created_at: i128,
    /// See [`UserRecord::updated_at`].
    pub updated_at: i128,
}

impl View for UserRecord {
    type V = UserView;

    open spec fn view(&self) -> UserView {
        UserView {
            id: self.id,
            username: self.username@,
            password_hash: self.password_hash.text(),
            display_name: crate::text::optional_text(self.display_name),
            is_active: self.is_active,
            identity: self.identity,
            created_at: self.created_at,
            updated_at: self.updated_at,
        }
    }
}

/// A new account: active, a person's, made now.
pub open spec fn new_account(
    id: u128,
    username: Seq<char>,
    password_hash: Seq<char>,
    display_name: Option<Seq<char>>,
    now: i128,
) -> UserView {
    UserView {
        id,
        username,
        password_hash,
        display_name,
        is_active: true,
        identity: Identity::Basic { id, created_at: now },
        created_at: now,
        updated_at: now,
    }
}

/// What is shown of an account: everything but the hash of the password.
#[derive(Debug)]
pub struct UserInfo {
    /// Identifier.
    pub id: u128,
    /// The canonical username.
    pub username: String,
    /// A name for people.
    pub display_name: Option<String>,
    /// Whether the account may be used.
    pub is_active: bool,
    /// Who the account stands for.
    pub identity: Identity,
    /// When it was made.
    pub created_at: i128,
    /// When it was last changed.
    pub updated_at: i128,
}

/// Whether this is what is shown of an account.
pub open spec fn shows(info: UserInfo, account: UserView) -> bool {
    &&& info.id == account.id
    &&& info.username@ == account.username
    &&& crate::text::optional_text(info.display_name) == account.display_name
    &&& info.is_active == account.is_active
    &&& info.identity == account.identity
    &&& info.created_at == account.created_at
    &&& info.updated_at == account.updated_at
}

/// What a login gives.
#[derive(Debug)]
pub struct LoginResult {
    /// The token.
    pub token: String,
    /// The text of the account's identifier.
    pub user_id: String,
    /// The canonical username.
    pub username: String,
    /// A name for people.
    pub display_name: Option<String>,
    /// The roles.
    pub roles: Vec<String>,
    /// The session, where one was made.
    pub session_id: Option<u128>,
}

/// A copy of a text that may be missing.
fn copy_text(t: &Option<String>) -> (r: Option<String>)
    ensures
        r == *t,
{
    match t {
        Some(s) => Some(s.clone()),
        None => None,
    }
}

impl UserRecord {
    /// A new account: active, a person's, made now.
    pub fn registered(id: u128, username: &str, password_hash: String, display_name: Option<&str>, now: i128) -> (r: Self)
        ensures
            r@ == new_account(id, username@, password_hash@, crate::text::str_text(display_name), now),
    {
        UserRecord {
            id,
            username: username.to_owned(),
            password_hash: PasswordHash::new(password_hash),
            display_name: match display_name {
                Some(d) => Some(d.to_owned()),
                None => None,
            },
            is_active: true,
            identity: Identity::Basic { id, created_at: now },
            created_at: now,
            updated_at: now,
        }
    }

    /// What is shown of the account.
    #[must_use]
    pub fn to_public(&self) -> (r: UserInfo)
        ensures
            shows(r, self@),
    {
        UserInfo {
            id: self.id,
            username: self.username.clone(),
            display_name: copy_text(&self.display_name),
            is_active: self.is_active,
            identity: self.identity,
            created_at: self.created_at,
            updated_at: self.updated_at,
        }
    }
}

/// What a login gives: the token, and what the account says of its holder.
pub fn login_result(user: &UserRecord, roles: Vec<String>, token: String, session_id: Option<u128>) -> (r: LoginResult)
    ensures
        r.token == token,
        r.user_id@ == crate::ids::uuid_text(user.id),
        r.username == user.username,
        r.display_name == user.display_name,
        r.roles == roles,
        r.session_id == session_id,
{
    LoginResult {
        token,
        user_id: show_uuid(user.id),
        username: user.username.clone(),
        display_name: copy_text(&user.display_name),
        roles,
        session_id,
    }
}

/// What is shown of some accounts, in their order.
pub fn list_public(users: &Vec<UserRecord>) -> (r: Vec<UserInfo>)
    ensures
        r@.len() == users@.len(),
        forall|i: int| 0 <= i < r@.len() ==> shows(#[trigger] r@[i], users@[i]@),
{
    let mut r: Vec<UserInfo> = Vec::new();
    let mut i: usize = 0;
    while i < users.len()
        invariant
            i <= users@.len(),
            r@.len() == i,
            forall|j: int| 0 <= j < i ==> shows(#[trigger] r@[j], users@[j]@),
        decreases users.len() - i,
    {
        r.push(users[i].to_public());
        i = i + 1;
    }
    r
}

/// A new account is active and that of a person of its identifier, made and last changed when it was
/// made, with the name, the hash and the display name that it was given.
pub proof fn law_new_account(
    id: u128,
    username: &str,
    password_hash: String,
    display_name: Option<&str>,
    now: i128,
    r: UserRecord,
    hash: &str,
)
    requires
        call_ensures(UserRecord::registered, (id, username, password_hash, display_name, now), r),
        call_ensures(PasswordHash::as_str, (&r.password_hash,), hash),
    ensures
        r.id == id && r.username@ == username@ && hash@ == password_hash@,
        r.is_active,
        r.identity matches Identity::Basic { id: key, created_at } && key == id && created_at == now,
        r.created_at == now && r.updated_at == now,
        r.display_name is Some <==> display_name is Some,
        r.display_name matches Some(d) ==> d@ == display_name->Some_0@,
{
    assert(r@.display_name == crate::text::str_text(display_name));
}

/// What is shown of an account is the account but for the hash, of many as of one; a login gives who it
/// is, the roles, the token and the session.
pub proof fn law_what_is_shown(
    user: &UserRecord,
    info: UserInfo,
    users: &Vec<UserRecord>,
    list: Vec<UserInfo>,
    i: int,
    roles: Vec<String>,
    token: String,
    session: Option<u128>,
    given: LoginResult,
)
    requires
        call_ensures(UserRecord::to_public, (user,), info),
        call_ensures(list_public, (users,), list),
        call_ensures(login_result, (user, roles, token, session), given),
        0 <= i < users@.len(),
        *user == users@[i],
    ensures
        list@.len() == users@.len(),
        forall|shown: UserInfo| shown == info || shown == list@[i] ==> {
            &&& #[trigger] shown.username@ == user.username@
            &&& shown.id == user.id && shown.is_active == user.is_active && shown.identity == user.identity
            &&& shown.created_at == user.created_at && shown.updated_at == user.updated_at
            &&& shown.display_name is Some <==> user.display_name is Some
            &&& shown.display_name matches Some(d) ==> d@ == user.display_name->Some_0@
        },
        given.token == token && given.roles == roles && given.session_id == session,
        given.user_id@ == crate::ids::uuid_text(user.id) && given.username == user.username && given.display_name
            == user.display_name,
{
}

/// Nothing of an account is out of sight: two that look the same have the same parts.
pub proof fn law_accounts_that_look_the_same(a: UserRecord, b: UserRecord, x: &str, y: &str)
    requires
        a@ == b@,
        call_ensures(PasswordHash::as_str, (&a.password_hash,), x),
        call_ensures(PasswordHash::as_str, (&b.password_hash,), y),
    ensures
        a.id == b.id && a.username@ == b.username@ && a.is_active == b.is_active && a.identity == b.identity,
        a.created_at == b.created_at && a.updated_at == b.updated_at && x@ == y@,
        a.display_name is Some <==> b.display_name is Some,
        a.display_name is Some ==> a.display_name->Some_0@ == b.display_name->Some_0@,
        a@.id == a.id && a@.username == a.username@ && a@.is_active == a.is_active && a@.identity == a.identity,
        a@.created_at == a.created_at && a@.updated_at == a.updated_at && a@.password_hash == x@,
{
}

} // verus!
