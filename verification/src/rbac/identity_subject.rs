//! Subjects built from an identity: a person, a visitor, a passing guest or a service.
use crate::collections::Key;
use crate::error::{ErrorView, KirinoError};
use crate::ids::{parse_uuid, show_uuid};
use crate::rbac::traits::Subject;
use crate::time::utc_now;
use vstd::prelude::*;

verus! {

/// Who a principal is.
#[derive(Debug, Clone, Copy, PartialEq, Eq, Structural)]
pub enum Identity {
    /// A visitor without an account.
    Anonymous {
        /// Identifier.
        id: u128,
        /// When the identity was made.
        created_at: i128,
    },
    /// A person with an account.
    Basic {
        /// Identifier.
        id: u128,
        /// When the identity was made.
        created_at: i128,
    },
    /// An identity with an end.
    Temporary {
        /// Identifier.
        id: u128,
        /// The last moment of the identity.
        expires_at: i128,
    },
    /// A service that acts for a person.
    Service {
        /// Identifier.
        id: u128,
        /// The person whom the service acts for.
        caller: u128,
        /// When the identity was made.
        created_at: i128,
    },
}

impl Identity {
    /// The identifier.
    pub open spec fn key(self) -> u128 {
        match self {
            Identity::Anonymous { id, .. } => id,
            Identity::Basic { id, .. } => id,
            Identity::Temporary { id, .. } => id,
            Identity::Service { id, .. } => id,
        }
    }

    /// The kind of principal.
    pub open spec fn kind_text(self) -> Seq<char> {
        match self {
            Identity::Anonymous { .. } => "anonymous"@,
            Identity::Basic { .. } => "user"@,
            Identity::Temporary { .. } => "temporary"@,
            Identity::Service { .. } => "service"@,
        }
    }

    /// Whether the identity has ended at a moment; only a temporary one ends.
    pub open spec fn expired_at(self, now: i128) -> bool {
        match self {
            Identity::Temporary { expires_at, .. } => expires_at < now,
            _ => false,
        }
    }
}

/// A subject that may act on behalf of another one.
pub trait Delegatable: Subject {
    /// Whether the subject may delegate to one of an id and a kind.
    open spec fn delegates_to(&self, id: Seq<char>, kind: Seq<char>) -> bool {
        false
    }

    /// Whether the subject may delegate to another.
    fn can_delegate_to<S: Subject>(&self, delegate: &S) -> (r: bool)
        ensures
            r == self.delegates_to(delegate.id_text(), delegate.type_text()),
    ;
}

/// A subject built from an identity.
#[derive(Debug)]
pub struct IdentitySubject {
    identity: Identity,
    id_str: String,
}

impl IdentitySubject {
    /// The identity.
    pub closed spec fn source(&self) -> Identity {
        self.identity
    }

    /// The text of the identifier.
    pub closed spec fn key_text(&self) -> Seq<char> {
        self.id_str@
    }

    /// The kind of principal.
    fn kind(&self) -> (r: &'static str)
        ensures
            r@ == self.source().kind_text(),
    {
        match self.identity {
            Identity::Anonymous { .. } => "anonymous",
            Identity::Basic { .. } => "user",
            Identity::Temporary { .. } => "temporary",
            Identity::Service { .. } => "service",
        }
    }

    /// The stored text is that of the identifier.
    pub closed spec fn wf(&self) -> bool {
        self.id_str@ == crate::ids::uuid_text(self.identity.key())
    }

    /// The subject of an identity.
    #[must_use]
    pub fn new(identity: Identity) -> (r: Self)
        ensures
            r.wf(),
            r.source() == identity,
            r.id_text() == crate::ids::uuid_text(identity.key()),
            r.type_text() == identity.kind_text(),
    {
        let id: u128 = match identity {
            Identity::Anonymous { id, .. } => id,
            Identity::Basic { id, .. } => id,
            Identity::Temporary { id, .. } => id,
            Identity::Service { id, .. } => id,
        };
        IdentitySubject { identity, id_str: show_uuid(id) }
    }

    /// The identity.
    #[must_use]
    pub fn identity(&self) -> (r: &Identity)
        ensures
            *r == self.source(),
    {
        &self.identity
    }

    /// The identity, taken out.
    #[must_use]
    pub fn into_inner(self) -> (r: Identity)
        ensures
            r == self.source(),
    {
        self.identity
    }

    /// The user of an id, made at a moment; a text that is no identifier is refused.
    pub fn user_at(id: &str, now: i128) -> (r: Result<Self, KirinoError>)
        ensures
            match crate::ids::uuid_read(id@) {
                Ok(key) => r matches Ok(s) && s.wf() && s.source() == (Identity::Basic { id: key, created_at: now }),
                Err(e) => r matches Err(f) && f@ == ErrorView::Validation(
                    "invalid user UUID '"@ + id@ + "': "@ + e,
                ),
            },
            forall|key: u128|
                #![trigger crate::ids::uuid_text(key)]
                id@ == crate::ids::uuid_text(key) ==> is_read_back(r, key),
    {
        match parse_uuid(id) {
            Ok(key) => Ok(IdentitySubject::new(Identity::Basic { id: key, created_at: now })),
            Err(e) => Err(
                KirinoError::Validation(
                    "invalid user UUID '".to_owned().concat(id).concat("': ").concat(e.as_str()),
                ),
            ),
        }
    }

    /// The user of an id, made at the present moment.
    pub fn user(id: &str) -> (r: Result<Self, KirinoError>)
        ensures
            match crate::ids::uuid_read(id@) {
                Ok(key) => r matches Ok(s) && s.wf() && is_basic_now(s.source(), key),
                Err(e) => r matches Err(f) && f@ == ErrorView::Validation(
                    "invalid user UUID '"@ + id@ + "': "@ + e,
                ),
            },
            forall|key: u128|
                #![trigger crate::ids::uuid_text(key)]
                id@ == crate::ids::uuid_text(key) ==> is_read_back(r, key),
    {
        let now: i128 = utc_now();
        IdentitySubject::user_at(id, now)
    }

    /// Whether the identity has ended at a moment.
    #[must_use]
    pub fn is_expired_at(&self, now: i128) -> (r: bool)
        ensures
            r == self.source().expired_at(now),
    {
        match self.identity {
            Identity::Temporary { expires_at, .. } => expires_at < now,
            _ => false,
        }
    }

    /// Whether the identity has ended.
    #[must_use]
    pub fn is_expired(&self) -> (r: bool)
        ensures
            exists|now: i128| #[trigger] crate::time::is_now(now) && r == self.source().expired_at(now),
    {
        let now: i128 = utc_now();
        self.is_expired_at(now)
    }
}

impl PartialEq for IdentitySubject {
    fn eq(&self, other: &Self) -> (r: bool) {
        self.id_str == other.id_str && crate::text::same_text(self.kind(), other.kind())
    }
}

impl vstd::std_specs::cmp::PartialEqSpecImpl for IdentitySubject {
    open spec fn obeys_eq_spec() -> bool {
        true
    }

    open spec fn eq_spec(&self, other: &Self) -> bool {
        self.key_text() == other.key_text() && self.source().kind_text() == other.source().kind_text()
    }
}

impl Key for IdentitySubject {
    type Id = (Seq<char>, Seq<char>);

    open spec fn id(&self) -> (Seq<char>, Seq<char>) {
        (self.key_text(), self.source().kind_text())
    }

    fn same(&self, other: &Self) -> (r: bool) {
        self.id_str == other.id_str && crate::text::same_text(self.kind(), other.kind())
    }

    fn duplicate(&self) -> (r: Self) {
        IdentitySubject { identity: self.identity, id_str: self.id_str.clone() }
    }
}

impl Subject for IdentitySubject {
    open spec fn id_text(&self) -> Seq<char> {
        self.key_text()
    }

    open spec fn type_text(&self) -> Seq<char> {
        self.source().kind_text()
    }

    fn subject_id(&self) -> (r: &str) {
        self.id_str.as_str()
    }

    fn subject_type(&self) -> (r: &'static str) {
        self.kind()
    }

    fn from_subject_id(id: &str) -> (r: Self)
        ensures
            r.wf(),
            match crate::ids::uuid_read(id@) {
                Ok(key) => is_basic_now(r.source(), key),
                Err(_) => r.source() matches Identity::Anonymous { id, created_at } && id == 0
                    && crate::time::is_now(created_at),
            },
            forall|key: u128|
                #![trigger crate::ids::uuid_text(key)]
                id@ == crate::ids::uuid_text(key) ==> r.source() is Basic && r.id_text() == id@,
    {
        let now: i128 = utc_now();
        match parse_uuid(id) {
            Ok(key) => IdentitySubject::new(Identity::Basic { id: key, created_at: now }),
            Err(_) => IdentitySubject::new(Identity::Anonymous { id: 0, created_at: now }),
        }
    }

    fn try_from_subject_id(id: &str) -> (r: Result<Self, KirinoError>)
        ensures
            match crate::ids::uuid_read(id@) {
                Ok(key) => r matches Ok(s) && s.wf() && is_basic_now(s.source(), key),
                Err(e) => r matches Err(f) && f@ == ErrorView::Validation(
                    "invalid subject UUID '"@ + id@ + "': "@ + e,
                ),
            },
            forall|key: u128|
                #![trigger crate::ids::uuid_text(key)]
                id@ == crate::ids::uuid_text(key) ==> is_read_back(r, key),
    {
        let now: i128 = utc_now();
        match parse_uuid(id) {
            Ok(key) => Ok(IdentitySubject::new(Identity::Basic { id: key, created_at: now })),
            Err(e) => Err(
                KirinoError::Validation(
                    "invalid subject UUID '".to_owned().concat(id).concat("': ").concat(e.as_str()),
                ),
            ),
        }
    }
}

/// Whether an identity is that of a key, made at the present moment.
pub open spec fn is_basic_now(identity: Identity, key: u128) -> bool {
    identity matches Identity::Basic { id, created_at } && id == key && crate::time::is_now(created_at)
}

/// Whether the text of an identifier was read as a subject of that identifier.
pub open spec fn is_read_back(r: Result<IdentitySubject, KirinoError>, key: u128) -> bool {
    r matches Ok(s) && s.source().key() == key && s.id_text() == crate::ids::uuid_text(key)
}

impl Delegatable for IdentitySubject {
    open spec fn delegates_to(&self, id: Seq<char>, kind: Seq<char>) -> bool {
        match self.source() {
            Identity::Service { caller, .. } => id == crate::ids::uuid_text(caller) && kind == "user"@,
            _ => false,
        }
    }

    fn can_delegate_to<S: Subject>(&self, delegate: &S) -> (r: bool) {
        match self.identity {
            Identity::Service { caller, .. } => {
                let text = show_uuid(caller);
                crate::text::same_text(delegate.subject_id(), text.as_str()) && crate::text::same_text(
                    delegate.subject_type(),
                    "user",
                )
            },
            _ => false,
        }
    }
}

/// Kinds keep principals apart: two subjects of one identifier but different kinds have
/// different identities as keys.
pub proof fn law_kind_is_part_of_identity(a: IdentitySubject, b: IdentitySubject)
    requires
        a.wf(),
        b.wf(),
        a.source().key() == b.source().key(),
        a.type_text() != b.type_text(),
    ensures
        a.id() != b.id(),
        a.id_text() == b.id_text(),
{
}

/// Only a service delegates, only to a user, and never to another service.
pub proof fn law_only_services_delegate(a: IdentitySubject, b: IdentitySubject)
    requires
        a.delegates_to(b.id_text(), b.type_text()),
    ensures
        a.source() is Service,
        b.type_text() == "user"@,
        b.source() is Basic,
{
    reveal_strlit("anonymous");
    reveal_strlit("user");
    reveal_strlit("temporary");
    reveal_strlit("service");
    assert("anonymous"@[0] == 'a' && "user"@[0] == 'u' && "temporary"@[0] == 't' && "service"@[0] == 's');
}

/// The subject of an identity has its identifier as text and its kind by name, and gives the identity
/// back.
pub proof fn law_subject_of_an_identity(
    identity: Identity,
    made: IdentitySubject,
    inner: Identity,
    shown: &Identity,
    id: &str,
    kind: &'static str,
)
    requires
        call_ensures(IdentitySubject::new, (identity,), made),
        call_ensures(IdentitySubject::into_inner, (made,), inner),
        call_ensures(IdentitySubject::identity, (&made,), shown),
        call_ensures(IdentitySubject::subject_id, (&made,), id),
        call_ensures(IdentitySubject::subject_type, (&made,), kind),
    ensures
        inner == identity && *shown == identity,
        identity matches Identity::Anonymous { id: key, .. } ==> id@ == crate::ids::uuid_text(key) && kind@
            == "anonymous"@,
        identity matches Identity::Basic { id: key, .. } ==> id@ == crate::ids::uuid_text(key) && kind@ == "user"@,
        identity matches Identity::Temporary { id: key, .. } ==> id@ == crate::ids::uuid_text(key) && kind@
            == "temporary"@,
        identity matches Identity::Service { id: key, .. } ==> id@ == crate::ids::uuid_text(key) && kind@ == "service"@,
{
}

/// Only a temporary identity ends, and it has ended at exactly the moments after its last one.
pub proof fn law_only_a_temporary_identity_ends(identity: Identity, subject: &IdentitySubject, now: i128, r: bool)
    requires
        call_ensures(IdentitySubject::new, (identity,), *subject),
        call_ensures(IdentitySubject::is_expired_at, (subject, now), r),
    ensures
        r <==> identity is Temporary && identity->expires_at < now,
{
}

/// A service may delegate to exactly the person whom it acts for, and nobody else may delegate at all.
pub proof fn law_who_delegates<S: Subject>(identity: Identity, subject: &IdentitySubject, other: &S, r: bool)
    requires
        call_ensures(IdentitySubject::new, (identity,), *subject),
        call_ensures(IdentitySubject::can_delegate_to::<S>, (subject, other), r),
    ensures
        r <==> identity is Service && other.id_text() == crate::ids::uuid_text(identity->caller) && other.type_text()
            == "user"@,
{
}

/// A text that reads as an identifier gives a person of that identifier; another is refused, or, where
/// nothing can be refused, gives the visitor of identifier zero.
pub proof fn law_subject_is_read_of_its_id(
    id: &str,
    now: i128,
    user: Result<IdentitySubject, KirinoError>,
    user_at: Result<IdentitySubject, KirinoError>,
    tried: Result<IdentitySubject, KirinoError>,
    taken: IdentitySubject,
    of: IdentitySubject,
    inner: Identity,
)
    requires
        call_ensures(IdentitySubject::user, (id,), user),
        call_ensures(IdentitySubject::user_at, (id, now), user_at),
        call_ensures(IdentitySubject::try_from_subject_id, (id,), tried),
        call_ensures(IdentitySubject::from_subject_id, (id,), taken),
        user == Ok::<IdentitySubject, KirinoError>(of) || user_at == Ok::<IdentitySubject, KirinoError>(of) || tried
            == Ok::<IdentitySubject, KirinoError>(of) || taken == of,
        call_ensures(IdentitySubject::into_inner, (of,), inner),
    ensures
        user is Ok <==> crate::ids::uuid_read(id@) is Ok,
        user_at is Ok <==> crate::ids::uuid_read(id@) is Ok,
        tried is Ok <==> crate::ids::uuid_read(id@) is Ok,
        user matches Err(e) ==> e@ is Validation,
        user_at matches Err(e) ==> e@ is Validation,
        tried matches Err(e) ==> e@ is Validation,
        crate::ids::uuid_read(id@) matches Ok(key) ==> (inner matches Identity::Basic { id: k, .. } && k == key),
        crate::ids::uuid_read(id@) is Ok && user_at == Ok::<IdentitySubject, KirinoError>(of) && user != user_at && tried
            != user_at && taken != of ==> inner->Basic_created_at == now,
        crate::ids::uuid_read(id@) is Err ==> (inner matches Identity::Anonymous { id: k, .. } && k == 0),
{
}

/// Two subjects are the same exactly if their ids and their kinds are.
pub proof fn law_same_subject(a: &IdentitySubject, b: &IdentitySubject, x: Identity, y: Identity, r: bool, t: bool)
    requires
        call_ensures(IdentitySubject::new, (x,), *a),
        call_ensures(IdentitySubject::new, (y,), *b),
        call_ensures(IdentitySubject::eq, (a, b), r),
        call_ensures(IdentitySubject::same, (a, b), t),
    ensures
        r <==> crate::ids::uuid_text(x.key()) == crate::ids::uuid_text(y.key()) && (x is Anonymous <==> y is Anonymous)
            && (x is Basic <==> y is Basic) && (x is Temporary <==> y is Temporary) && (x is Service <==> y is Service),
        t == r,
{
    reveal_strlit("anonymous");
    reveal_strlit("user");
    reveal_strlit("temporary");
    reveal_strlit("service");
    assert("anonymous"@[0] == 'a' && "user"@[0] == 'u' && "temporary"@[0] == 't' && "service"@[0] == 's');
}

/// An identity that is not temporary has not ended; a temporary one has exactly if the clock reads a moment
/// after its last one.
pub proof fn law_identity_ends_now(identity: Identity, subject: &IdentitySubject, r: bool)
    requires
        call_ensures(IdentitySubject::new, (identity,), *subject),
        call_ensures(IdentitySubject::is_expired, (subject,), r),
    ensures
        r ==> identity is Temporary,
        exists|now: i128| #[trigger]
            crate::time::is_now(now) && (r <==> identity is Temporary && identity->expires_at < now),
{
}

} // verus!
