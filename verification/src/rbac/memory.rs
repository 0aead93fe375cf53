//! Assignments and role definitions held in memory.
use crate::collections::{Key, KeySet, Table};
use crate::error::{ErrorView, KirinoError};
use crate::rbac::traits::{AssignmentStore, Permission, RoleStore, Subject};
use vstd::prelude::*;

verus! {

/// The set that a table of sets holds for a key; empty without an entry.
pub open spec fn set_at<I, A>(m: Map<I, Set<A>>, k: I) -> Set<A> {
    if m.contains_key(k) {
        m[k]
    } else {
        Set::empty()
    }
}

/// The sets of a table of sets.
pub open spec fn sets_of<K: Key, A: Key>(t: Table<K, KeySet<A>>) -> Map<K::Id, Set<A::Id>> {
    t@.map_values(|s: KeySet<A>| s@)
}

/// Every set of a table is well formed.
pub open spec fn sets_wf<K: Key, A: Key>(t: Table<K, KeySet<A>>) -> bool {
    &&& t.wf()
    &&& forall|k: K::Id| #[trigger] t@.contains_key(k) ==> t@[k].wf()
}

/// Roles, added and denied permissions per subject id.
pub struct InMemoryAssignmentStore<S, P> {
    role_assignments: Table<String, KeySet<String>>,
    extra_perms: Table<String, KeySet<P>>,
    denied_perms: Table<String, KeySet<P>>,
    marker: std::marker::PhantomData<S>,
}

impl<S: Subject, P: Permission> InMemoryAssignmentStore<S, P> {
    /// The roles of each subject id that has a row.
    pub closed spec fn role_rows(&self) -> Map<Seq<char>, Set<Seq<char>>> {
        sets_of(self.role_assignments)
    }

    /// The added permissions of each subject id that has a row.
    pub closed spec fn extra_rows(&self) -> Map<Seq<char>, Set<P::Id>> {
        sets_of(self.extra_perms)
    }

    /// The denied permissions of each subject id that has a row.
    pub closed spec fn denied_rows(&self) -> Map<Seq<char>, Set<P::Id>> {
        sets_of(self.denied_perms)
    }

    /// A store without rows.
    #[must_use]
    pub fn new() -> (r: Self)
        ensures
            r.wf(),
            r.role_rows() == Map::<Seq<char>, Set<Seq<char>>>::empty(),
            r.extra_rows() == Map::<Seq<char>, Set<P::Id>>::empty(),
            r.denied_rows() == Map::<Seq<char>, Set<P::Id>>::empty(),
    {
        let r = InMemoryAssignmentStore {
            role_assignments: Table::new(),
            extra_perms: Table::new(),
            denied_perms: Table::new(),
            marker: std::marker::PhantomData,
        };
        assert(r.role_rows() =~= Map::<Seq<char>, Set<Seq<char>>>::empty());
        assert(r.extra_rows() =~= Map::<Seq<char>, Set<P::Id>>::empty());
        assert(r.denied_rows() =~= Map::<Seq<char>, Set<P::Id>>::empty());
        r
    }
}

impl<S: Subject, P: Permission> Default for InMemoryAssignmentStore<S, P> {
    /// A store without rows.
    fn default() -> (r: Self)
        ensures
            r.wf(),
            r.role_rows() == Map::<Seq<char>, Set<Seq<char>>>::empty(),
            r.extra_rows() == Map::<Seq<char>, Set<P::Id>>::empty(),
            r.denied_rows() == Map::<Seq<char>, Set<P::Id>>::empty(),
    {
        Self::new()
    }
}

impl<S: Subject, P: Permission> AssignmentStore<S, P> for InMemoryAssignmentStore<S, P> {
    closed spec fn wf(&self) -> bool {
        &&& sets_wf(self.role_assignments)
        &&& sets_wf(self.extra_perms)
        &&& sets_wf(self.denied_perms)
    }

    open spec fn roles_read(&self, subject: Seq<char>) -> Result<Set<Seq<char>>, ErrorView> {
        Ok(set_at(self.role_rows(), subject))
    }

    open spec fn extra_read(&self, subject: Seq<char>) -> Result<Set<P::Id>, ErrorView> {
        Ok(set_at(self.extra_rows(), subject))
    }

    open spec fn denied_read(&self, subject: Seq<char>) -> Result<Set<P::Id>, ErrorView> {
        Ok(set_at(self.denied_rows(), subject))
    }

    fn roles_of(&self, subject: &S) -> (r: Result<Vec<String>, KirinoError>) {
        match self.role_assignments.get(&subject.subject_id().to_owned()) {
            Some(roles) => {
                let names = roles.to_items();
                assert(crate::rbac::traits::texts_of(names@) =~= crate::collections::ids_of(names@));
                Ok(names)
            },
            None => {
                let names: Vec<String> = Vec::new();
                assert(crate::rbac::traits::texts_of(names@).to_set() =~= Set::<Seq<char>>::empty());
                Ok(names)
            },
        }
    }

    fn extra_permissions(&self, subject: &S) -> (r: Result<KeySet<P>, KirinoError>) {
        match self.extra_perms.get(&subject.subject_id().to_owned()) {
            Some(perms) => Ok(perms.duplicate()),
            None => Ok(KeySet::new()),
        }
    }

    fn denied_permissions(&self, subject: &S) -> (r: Result<KeySet<P>, KirinoError>) {
        match self.denied_perms.get(&subject.subject_id().to_owned()) {
            Some(perms) => Ok(perms.duplicate()),
            None => Ok(KeySet::new()),
        }
    }

    fn assign_role(&mut self, subject: &S, role_name: &str) -> (r: Result<(), KirinoError>)
        ensures
            r is Ok,
            final(self).role_rows() == old(self).role_rows().insert(
                subject.id_text(),
                set_at(old(self).role_rows(), subject.id_text()).insert(role_name@),
            ),
            final(self).extra_rows() == old(self).extra_rows(),
            final(self).denied_rows() == old(self).denied_rows(),
    {
        let ghost before = *self;
        let key = subject.subject_id().to_owned();
        let mut roles = match self.role_assignments.remove(&key) {
            Some(roles) => roles,
            None => KeySet::new(),
        };
        let _ = roles.insert(role_name.to_owned());
        let _ = self.role_assignments.insert(key, roles);
        assert(self.role_rows() =~= before.role_rows().insert(
            subject.id_text(),
            set_at(before.role_rows(), subject.id_text()).insert(role_name@),
        ));
        Ok(())
    }

    fn revoke_role(&mut self, subject: &S, role_name: &str) -> (r: Result<(), KirinoError>)
        ensures
            r is Ok,
            old(self).role_rows().contains_key(subject.id_text()) ==> final(self).role_rows()
                == old(self).role_rows().insert(
                subject.id_text(),
                old(self).role_rows()[subject.id_text()].remove(role_name@),
            ),
            !old(self).role_rows().contains_key(subject.id_text()) ==> final(self).role_rows()
                == old(self).role_rows(),
            final(self).extra_rows() == old(self).extra_rows(),
            final(self).denied_rows() == old(self).denied_rows(),
    {
        let ghost before = *self;
        let key = subject.subject_id().to_owned();
        match self.role_assignments.remove(&key) {
            Some(roles) => {
                let mut roles = roles;
                let _ = roles.remove(&role_name.to_owned());
                let _ = self.role_assignments.insert(key, roles);
                assert(self.role_rows() =~= before.role_rows().insert(
                    subject.id_text(),
                    before.role_rows()[subject.id_text()].remove(role_name@),
                ));
            },
            None => {
                assert(self.role_rows() =~= before.role_rows());
                assert(set_at(before.role_rows(), subject.id_text()).remove(role_name@) =~= set_at(
                    before.role_rows(),
                    subject.id_text(),
                ));
            },
        }
        Ok(())
    }

    fn subjects_with_role(&self, role_name: &str) -> (found: Result<Vec<String>, KirinoError>)
        ensures
            found is Ok,
            crate::rbac::traits::texts_of(found->Ok_0@).no_duplicates(),
            forall|s: Seq<char>| #[trigger]
                crate::rbac::traits::texts_of(found->Ok_0@).contains(s) <==> set_at(self.role_rows(), s).contains(
                    role_name@,
                ),
    {
        let key = role_name.to_owned();
        let mut r: Vec<String> = Vec::new();
        let mut i: usize = 0;
        let ghost ids = self.role_assignments.ids();
        while i < self.role_assignments.len()
            invariant
                self.wf(),
                key@ == role_name@,
                ids == self.role_assignments.ids(),
                i <= ids.len(),
                crate::rbac::traits::texts_of(r@).no_duplicates(),
                forall|s: Seq<char>| #[trigger]
                    crate::rbac::traits::texts_of(r@).contains(s) <==> ids.take(i as int).contains(s) && set_at(
                        self.role_rows(),
                        s,
                    ).contains(role_name@),
            decreases ids.len() - i,
        {
            let ghost before = crate::rbac::traits::texts_of(r@);
            let ghost id = ids[i as int];
            proof {
                self.role_assignments.lemma_at(i as int);
                assert(ids.take(i + 1) =~= ids.take(i as int).push(id));
                assert forall|s: Seq<char>| #[trigger] ids.take(i + 1).contains(s) <==> (ids.take(i as int).contains(s) || s == id) by {
                    if ids.take(i as int).contains(s) {
                        let j = choose|j: int| 0 <= j < i && ids.take(i as int)[j] == s;
                        assert(ids.take(i + 1)[j] == s);
                    }
                    if s == id {
                        assert(ids.take(i + 1)[i as int] == s);
                    }
                }
                if ids.take(i as int).contains(id) {
                    let j = choose|j: int| 0 <= j < i && ids.take(i as int)[j] == id;
                    assert(ids[j] == ids[i as int]);
                }
            }
            if self.role_assignments.value_at(i).contains(&key) {
                r.push(self.role_assignments.key_at(i).clone());
                proof {
                    let after = crate::rbac::traits::texts_of(r@);
                    assert(after =~= before.push(id));
                    assert(!before.contains(id));
                    assert forall|s: Seq<char>| #[trigger] after.contains(s) <==> (before.contains(s) || s == id) by {
                        if before.contains(s) {
                            let j = choose|j: int| 0 <= j < before.len() && before[j] == s;
                            assert(after[j] == s);
                        }
                        if s == id {
                            assert(after[before.len() as int] == s);
                        }
                    }
                }
            }
            i = i + 1;
        }
        proof {
            assert(ids.take(ids.len() as int) =~= ids);
            assert forall|s: Seq<char>| set_at(self.role_rows(), s).contains(role_name@) implies ids.contains(s) by {
                let j = self.role_assignments.lemma_position(s);
                assert(ids[j] == s);
            }
        }
        Ok(r)
    }

    fn set_extra_permissions(&mut self, subject: &S, perms: KeySet<P>) -> (r: Result<(), KirinoError>)
        ensures
            r is Ok,
            final(self).role_rows() == old(self).role_rows(),
            final(self).extra_rows() == old(self).extra_rows().insert(subject.id_text(), perms@),
            final(self).denied_rows() == old(self).denied_rows(),
    {
        let ghost before = *self;
        let _ = self.extra_perms.insert(subject.subject_id().to_owned(), perms);
        assert(self.extra_rows() =~= before.extra_rows().insert(subject.id_text(), perms@));
        Ok(())
    }

    fn set_denied_permissions(&mut self, subject: &S, perms: KeySet<P>) -> (r: Result<(), KirinoError>)
        ensures
            r is Ok,
            final(self).role_rows() == old(self).role_rows(),
            final(self).extra_rows() == old(self).extra_rows(),
            final(self).denied_rows() == old(self).denied_rows().insert(subject.id_text(), perms@),
    {
        let ghost before = *self;
        let _ = self.denied_perms.insert(subject.subject_id().to_owned(), perms);
        assert(self.denied_rows() =~= before.denied_rows().insert(subject.id_text(), perms@));
        Ok(())
    }
}

/// Role definitions: a name and its permissions.
pub struct InMemoryRoleStore<P> {
    roles: Table<String, KeySet<P>>,
}

impl<P: Permission> InMemoryRoleStore<P> {
    /// The permissions of each defined role.
    pub closed spec fn view(&self) -> Map<Seq<char>, Set<P::Id>> {
        sets_of(self.roles)
    }

    /// A store without roles.
    #[must_use]
    pub fn new() -> (r: Self)
        ensures
            r.wf(),
            r@ == Map::<Seq<char>, Set<P::Id>>::empty(),
    {
        let r = InMemoryRoleStore { roles: Table::new() };
        assert(r@ =~= Map::<Seq<char>, Set<P::Id>>::empty());
        r
    }
}

impl<P: Permission> Default for InMemoryRoleStore<P> {
    /// A store without roles.
    fn default() -> (r: Self)
        ensures
            r.wf(),
            r@ == Map::<Seq<char>, Set<P::Id>>::empty(),
    {
        Self::new()
    }
}

impl<P: Permission> RoleStore<P> for InMemoryRoleStore<P> {
    closed spec fn wf(&self) -> bool {
        sets_wf(self.roles)
    }

    open spec fn role_read(&self, name: Seq<char>) -> Result<Option<Set<P::Id>>, ErrorView> {
        if self@.contains_key(name) {
            Ok(Some(self@[name]))
        } else {
            Ok(None)
        }
    }

    fn create_role(&mut self, role_name: &str, permissions: KeySet<P>) -> (r: Result<(), KirinoError>)
        ensures
            r is Ok,
            final(self)@ == old(self)@.insert(role_name@, permissions@),
    {
        let ghost before = *self;
        let _ = self.roles.insert(role_name.to_owned(), permissions);
        assert(self@ =~= before@.insert(role_name@, permissions@));
        Ok(())
    }

    fn delete_role(&mut self, role_name: &str) -> (found: Result<bool, KirinoError>)
        ensures
            found == Ok::<bool, KirinoError>(old(self)@.contains_key(role_name@)),
            final(self)@ == old(self)@.remove(role_name@),
    {
        let ghost before = *self;
        let r = self.roles.remove(&role_name.to_owned());
        assert(self@ =~= before@.remove(role_name@));
        Ok(r.is_some())
    }

    fn get_role_permissions(&self, role_name: &str) -> (r: Result<Option<KeySet<P>>, KirinoError>) {
        match self.roles.get(&role_name.to_owned()) {
            Some(perms) => Ok(Some(perms.duplicate())),
            None => Ok(None),
        }
    }

    fn list_roles(&self) -> (names: Result<Vec<String>, KirinoError>)
        ensures
            names is Ok,
            crate::rbac::traits::texts_of(names->Ok_0@).no_duplicates(),
            crate::rbac::traits::texts_of(names->Ok_0@).to_set() == self@.dom(),
    {
        let r = self.roles.keys_list();
        assert(crate::rbac::traits::texts_of(r@) =~= crate::collections::ids_of(r@));
        assert(self@.dom() =~= self.roles@.dom());
        assert forall|name: Seq<char>| crate::rbac::traits::texts_of(r@).contains(name) <==> self@.contains_key(name) by {
            assert(crate::rbac::traits::texts_of(r@).to_set().contains(name) <==> self@.dom().contains(name));
        }
        Ok(r)
    }
}

/// A role that is assigned is among those that are read of the subject, and one that is revoked is not;
/// its other roles and those of others stay.
pub proof fn law_assigned_role_is_read_back<S: Subject, P: Permission>(
    before: InMemoryAssignmentStore<S, P>,
    assigned: InMemoryAssignmentStore<S, P>,
    revoked: InMemoryAssignmentStore<S, P>,
    subject: &S,
    role: &str,
    who: &S,
    at_first: Vec<String>,
    then: Vec<String>,
    at_last: Vec<String>,
    name: Seq<char>,
)
    requires
        exists|store: &mut InMemoryAssignmentStore<S, P>|
            *store == before && *final(store) == assigned && #[trigger] call_ensures(
                InMemoryAssignmentStore::<S, P>::assign_role,
                (store, subject, role),
                Ok(()),
            ),
        exists|store: &mut InMemoryAssignmentStore<S, P>|
            *store == assigned && *final(store) == revoked && #[trigger] call_ensures(
                InMemoryAssignmentStore::<S, P>::revoke_role,
                (store, subject, role),
                Ok(()),
            ),
        call_ensures(InMemoryAssignmentStore::<S, P>::roles_of, (&before, who), Ok(at_first)),
        call_ensures(InMemoryAssignmentStore::<S, P>::roles_of, (&assigned, who), Ok(then)),
        call_ensures(InMemoryAssignmentStore::<S, P>::roles_of, (&revoked, who), Ok(at_last)),
    ensures
        is_among(then@, name) <==> is_among(at_first@, name) || who.id_text() == subject.id_text() && name == role@,
        is_among(at_last@, name) <==> is_among(at_first@, name) && !(who.id_text() == subject.id_text() && name == role@),
{
    lemma_among(at_first@, name);
    lemma_among(then@, name);
    lemma_among(at_last@, name);
}

/// Whether a text is among some.
pub open spec fn is_among(list: Seq<String>, text: Seq<char>) -> bool {
    exists|i: int| 0 <= i < list.len() && #[trigger] list[i]@ == text
}

pub(crate) proof fn lemma_among(list: Seq<String>, text: Seq<char>)
    ensures
        is_among(list, text) <==> crate::rbac::traits::texts_of(list).to_set().contains(text),
        is_among(list, text) <==> crate::rbac::traits::texts_of(list).contains(text),
{
    let all = crate::rbac::traits::texts_of(list);
    if is_among(list, text) {
        let i = choose|i: int| 0 <= i < list.len() && #[trigger] list[i]@ == text;
        assert(all[i] == text);
    }
    if all.contains(text) {
        let i = choose|i: int| 0 <= i < all.len() && all[i] == text;
        assert(list[i]@ == text);
    }
}

/// What is added or denied to a subject replaces what was, each on its own, and concerns no one else.
pub proof fn law_added_and_denied_are_read_back<S: Subject, P: Permission>(
    before: InMemoryAssignmentStore<S, P>,
    added: InMemoryAssignmentStore<S, P>,
    denied: InMemoryAssignmentStore<S, P>,
    subject: &S,
    some: KeySet<P>,
    others: KeySet<P>,
    who: &S,
    extra_first: KeySet<P>,
    extra: KeySet<P>,
    kept_extra: KeySet<P>,
    denied_first: KeySet<P>,
    kept_denied: KeySet<P>,
    refused: KeySet<P>,
)
    requires
        exists|store: &mut InMemoryAssignmentStore<S, P>|
            *store == before && *final(store) == added && #[trigger] call_ensures(
                InMemoryAssignmentStore::<S, P>::set_extra_permissions,
                (store, subject, some),
                Ok(()),
            ),
        exists|store: &mut InMemoryAssignmentStore<S, P>|
            *store == added && *final(store) == denied && #[trigger] call_ensures(
                InMemoryAssignmentStore::<S, P>::set_denied_permissions,
                (store, subject, others),
                Ok(()),
            ),
        call_ensures(InMemoryAssignmentStore::<S, P>::extra_permissions, (&before, who), Ok(extra_first)),
        call_ensures(InMemoryAssignmentStore::<S, P>::extra_permissions, (&added, who), Ok(extra)),
        call_ensures(InMemoryAssignmentStore::<S, P>::extra_permissions, (&denied, who), Ok(kept_extra)),
        call_ensures(InMemoryAssignmentStore::<S, P>::denied_permissions, (&before, who), Ok(denied_first)),
        call_ensures(InMemoryAssignmentStore::<S, P>::denied_permissions, (&added, who), Ok(kept_denied)),
        call_ensures(InMemoryAssignmentStore::<S, P>::denied_permissions, (&denied, who), Ok(refused)),
    ensures
        who.id_text() == subject.id_text() ==> extra@ == some@ && refused@ == others@,
        who.id_text() != subject.id_text() ==> extra@ == extra_first@ && refused@ == denied_first@,
        kept_extra@ == extra@ && kept_denied@ == denied_first@,
{
}

/// Who holds a role is exactly who it is read of.
pub proof fn law_holders_of_a_role<S: Subject, P: Permission>(
    store: &InMemoryAssignmentStore<S, P>,
    role: &str,
    who: &S,
    ids: Vec<String>,
    roles: Vec<String>,
)
    requires
        call_ensures(InMemoryAssignmentStore::<S, P>::subjects_with_role, (store, role), Ok(ids)),
        call_ensures(InMemoryAssignmentStore::<S, P>::roles_of, (store, who), Ok(roles)),
    ensures
        is_among(ids@, who.id_text()) <==> is_among(roles@, role@),
{
    lemma_among(ids@, who.id_text());
    lemma_among(roles@, role@);
}

/// A role that is made has the permissions given, one that is deleted is unknown, and the other roles
/// stay; a deletion tells whether there was one.
pub proof fn law_role_is_read_back<P: Permission>(
    before: InMemoryRoleStore<P>,
    made: InMemoryRoleStore<P>,
    deleted: InMemoryRoleStore<P>,
    name: &str,
    perms: KeySet<P>,
    found: bool,
    asked: &str,
    at_first: Option<KeySet<P>>,
    then: Option<KeySet<P>>,
    at_last: Option<KeySet<P>>,
)
    requires
        exists|store: &mut InMemoryRoleStore<P>|
            *store == before && *final(store) == made && #[trigger] call_ensures(
                InMemoryRoleStore::<P>::create_role,
                (store, name, perms),
                Ok(()),
            ),
        exists|store: &mut InMemoryRoleStore<P>|
            *store == before && *final(store) == deleted && #[trigger] call_ensures(
                InMemoryRoleStore::<P>::delete_role,
                (store, name),
                Ok(found),
            ),
        call_ensures(InMemoryRoleStore::<P>::get_role_permissions, (&before, asked), Ok(at_first)),
        call_ensures(InMemoryRoleStore::<P>::get_role_permissions, (&made, asked), Ok(then)),
        call_ensures(InMemoryRoleStore::<P>::get_role_permissions, (&deleted, asked), Ok(at_last)),
    ensures
        asked@ == name@ ==> (then matches Some(p) && p@ == perms@) && at_last is None && found == at_first is Some,
        asked@ != name@ ==> {
            &&& then is Some <==> at_first is Some
            &&& at_last is Some <==> at_first is Some
            &&& at_first matches Some(p) ==> then->Some_0@ == p@ && at_last->Some_0@ == p@
        },
{
}

/// The roles that are listed are exactly those that can be read.
pub proof fn law_listed_roles_can_be_read<P: Permission>(
    store: &InMemoryRoleStore<P>,
    names: Result<Vec<String>, KirinoError>,
    name: &str,
    role: Result<Option<KeySet<P>>, KirinoError>,
)
    requires
        call_ensures(InMemoryRoleStore::<P>::list_roles, (store,), names),
        call_ensures(InMemoryRoleStore::<P>::get_role_permissions, (store, name), role),
    ensures
        names is Ok && role is Ok,
        is_among(names->Ok_0@, name@) <==> role->Ok_0 is Some,
{
    lemma_among(names->Ok_0@, name@);
}

/// New stores hold nothing: no one has a role, an added or a denied permission, and there is no role.
pub proof fn law_new_stores_hold_nothing<S: Subject, P: Permission>(
    made: InMemoryAssignmentStore<S, P>,
    usual: InMemoryAssignmentStore<S, P>,
    roles: InMemoryRoleStore<P>,
    usual_roles: InMemoryRoleStore<P>,
    text: Seq<char>,
)
    requires
        call_ensures(InMemoryAssignmentStore::<S, P>::new, (), made),
        call_ensures(InMemoryAssignmentStore::<S, P>::default, (), usual),
        call_ensures(InMemoryRoleStore::<P>::new, (), roles),
        call_ensures(InMemoryRoleStore::<P>::default, (), usual_roles),
    ensures
        !made.role_rows().contains_key(text) && !made.extra_rows().contains_key(text) && !made.denied_rows().contains_key(
            text,
        ),
        !usual.role_rows().contains_key(text) && !usual.extra_rows().contains_key(text)
            && !usual.denied_rows().contains_key(text),
        !roles@.contains_key(text) && !usual_roles@.contains_key(text),
{
}

} // verus!
