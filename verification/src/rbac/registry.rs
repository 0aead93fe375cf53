//! Role and permission catalogues held in memory.
use crate::collections::{Key, KeySet, Table};
use crate::rbac::hierarchy::HierarchicalRole;
use crate::rbac::traits::{Permission, PermissionRegistry, Role, RoleRegistry};
use vstd::prelude::*;

verus! {

/// A role name and its permissions.
pub struct SimpleRole<P> {
    name: String,
    permissions: KeySet<P>,
}

impl<P: Permission> SimpleRole<P> {
    /// A role of a name and a permission set, neither of which is checked.
    pub fn new(name: &str, permissions: KeySet<P>) -> (r: Self)
        requires
            permissions.wf(),
        ensures
            r.wf(),
            r.name_text() == name@,
            r.granted() == permissions@,
    {
        SimpleRole { name: name.to_owned(), permissions }
    }
}

impl<P: Permission> Role<P> for SimpleRole<P> {
    closed spec fn wf(&self) -> bool {
        self.permissions.wf()
    }

    closed spec fn name_text(&self) -> Seq<char> {
        self.name@
    }

    closed spec fn granted(&self) -> Set<P::Id> {
        self.permissions@
    }

    fn role_name(&self) -> (r: &str) {
        self.name.as_str()
    }

    fn permissions(&self) -> (r: &KeySet<P>) {
        &self.permissions
    }
}

/// The names of a list of permissions.
pub open spec fn names_of<P: Permission>(items: Seq<P>) -> Seq<Seq<char>> {
    Seq::new(items.len(), |i: int| items[i].name_text())
}

/// Permission catalogue that is built once.
pub struct StaticPermissionRegistry<P> {
    permissions: KeySet<P>,
}

impl<P: Permission> StaticPermissionRegistry<P> {
    /// The catalogue of the given permissions.
    #[must_use]
    pub fn new(permissions: KeySet<P>) -> (r: Self)
        requires
            permissions.wf(),
        ensures
            r.wf(),
            r.known() == permissions@,
            r.known_names() == names_of(permissions.items()).to_set(),
    {
        StaticPermissionRegistry { permissions }
    }
}

impl<P: Permission> PermissionRegistry<P> for StaticPermissionRegistry<P> {
    closed spec fn wf(&self) -> bool {
        self.permissions.wf()
    }

    closed spec fn known(&self) -> Set<P::Id> {
        self.permissions@
    }

    closed spec fn known_names(&self) -> Set<Seq<char>> {
        names_of(self.permissions.items()).to_set()
    }

    fn all_permissions(&self) -> (r: KeySet<P>) {
        self.permissions.duplicate()
    }

    fn get_permission(&self, name: &str) -> (r: Option<P>) {
        let mut i: usize = 0;
        let ghost names = names_of(self.permissions.items());
        while i < self.permissions.len()
            invariant
                self.wf(),
                names == names_of(self.permissions.items()),
                i <= self.permissions.items().len(),
                forall|k: int| 0 <= k < i ==> #[trigger] names[k] != name@,
            decreases self.permissions.items().len() - i,
        {
            let p = self.permissions.item_at(i);
            if crate::text::same_text(p.name(), name) {
                assert(names[i as int] == name@);
                assert(names.contains(name@));
                return Some(p.duplicate());
            }
            i = i + 1;
        }
        None
    }
}

/// Role definitions with an explicit parent list per name.
pub struct StaticRoleRegistry<R, P> {
    roles: Table<String, R>,
    parents: Table<String, Vec<String>>,
    marker: std::marker::PhantomData<P>,
}

impl<P: Permission, R: Role<P>> StaticRoleRegistry<R, P> {
    /// The parent lists by name.
    pub closed spec fn parent_lists(&self) -> Map<Seq<char>, Seq<Seq<char>>> {
        self.parents@.map_values(|v: Vec<String>| crate::rbac::traits::texts_of(v@))
    }

    /// An empty registry: no role is known.
    #[must_use]
    pub fn new() -> (r: Self)
        ensures
            r.wf(),
            r.roles() == Map::<Seq<char>, Set<P::Id>>::empty(),
            r.parent_lists() == Map::<Seq<char>, Seq<Seq<char>>>::empty(),
    {
        let r = StaticRoleRegistry {
            roles: Table::new(),
            parents: Table::new(),
            marker: std::marker::PhantomData,
        };
        assert(r.roles() =~= Map::<Seq<char>, Set<P::Id>>::empty());
        assert(r.parent_lists() =~= Map::<Seq<char>, Seq<Seq<char>>>::empty());
        r
    }

    /// Defines a role in place of the one that has its name, if any; the name loses its parents.
    pub fn register(&mut self, role: R)
        requires
            old(self).wf(),
            role.wf(),
        ensures
            final(self).wf(),
            final(self).roles() == old(self).roles().insert(role.name_text(), role.granted()),
            final(self).parent_lists() == old(self).parent_lists().remove(role.name_text()),
    {
        let ghost before = *self;
        let name = role.role_name().to_owned();
        let _ = self.parents.remove(&name);
        let _ = self.roles.insert(name, role);
        assert(self.roles() =~= before.roles().insert(role.name_text(), role.granted()));
        assert(self.parent_lists() =~= before.parent_lists().remove(role.name_text()));
    }

    /// Gives a name its parent list, whether or not a role of that name is defined.
    pub fn set_parents(&mut self, role_name: &str, parents: Vec<String>)
        requires
            old(self).wf(),
        ensures
            final(self).wf(),
            final(self).roles() == old(self).roles(),
            final(self).parent_lists() == old(self).parent_lists().insert(
                role_name@,
                crate::rbac::traits::texts_of(parents@),
            ),
    {
        let ghost before = *self;
        let _ = self.parents.insert(role_name.to_owned(), parents);
        assert(self.parent_lists() =~= before.parent_lists().insert(
            role_name@,
            crate::rbac::traits::texts_of(parents@),
        ));
    }
}

impl<P: Permission, R: Role<P>> Default for StaticRoleRegistry<R, P> {
    /// An empty registry: no role is known.
    fn default() -> (r: Self)
        ensures
            r.wf(),
            r.roles() == Map::<Seq<char>, Set<P::Id>>::empty(),
            r.parent_lists() == Map::<Seq<char>, Seq<Seq<char>>>::empty(),
    {
        Self::new()
    }
}

impl<P: Permission, R: HierarchicalRole<P>> StaticRoleRegistry<R, P> {
    /// Defines a role together with the parents that it declares.
    pub fn register_hierarchical(&mut self, role: R)
        requires
            old(self).wf(),
            role.wf(),
        ensures
            final(self).wf(),
            final(self).roles() == old(self).roles().insert(role.name_text(), role.granted()),
            final(self).parent_lists() == old(self).parent_lists().insert(
                role.name_text(),
                role.parent_texts(),
            ),
    {
        let ghost before = *self;
        let name = role.role_name().to_owned();
        let parents = role.parent_roles();
        let _ = self.parents.insert(name.clone(), parents);
        let _ = self.roles.insert(name, role);
        assert(self.roles() =~= before.roles().insert(role.name_text(), role.granted()));
        assert(self.parent_lists() =~= before.parent_lists().insert(role.name_text(), role.parent_texts()));
    }
}

impl<P: Permission, R: Role<P>> RoleRegistry<P> for StaticRoleRegistry<R, P> {
    closed spec fn wf(&self) -> bool {
        &&& self.roles.wf()
        &&& self.parents.wf()
        &&& forall|n: Seq<char>| #[trigger] self.roles@.contains_key(n) ==> self.roles@[n].wf()
    }

    closed spec fn roles(&self) -> Map<Seq<char>, Set<P::Id>> {
        self.roles@.map_values(|r: R| r.granted())
    }

    open spec fn parent_names(&self, name: Seq<char>) -> Seq<Seq<char>> {
        if self.parent_lists().contains_key(name) {
            self.parent_lists()[name]
        } else {
            Seq::empty()
        }
    }

    fn get_role_permissions(&self, role_name: &str) -> (r: Option<KeySet<P>>) {
        match self.roles.get(&role_name.to_owned()) {
            Some(role) => Some(role.permissions().duplicate()),
            None => None,
        }
    }

    fn role_parents(&self, role_name: &str) -> (r: Vec<String>) {
        match self.parents.get(&role_name.to_owned()) {
            Some(list) => crate::text::copy_texts(list),
            None => {
                let r: Vec<String> = Vec::new();
                assert(crate::rbac::traits::texts_of(r@) =~= Seq::<Seq<char>>::empty());
                r
            },
        }
    }

    fn list_role_names(&self) -> (r: Vec<String>) {
        let r = self.roles.keys_list();
        assert(crate::rbac::traits::texts_of(r@) =~= crate::collections::ids_of(r@));
        assert(self.roles().dom() =~= self.roles@.dom());
        r
    }
}

/// A role that is defined has the permissions that it says, and no parents until some are set; parents
/// that are set are read back, and other roles stay.
pub proof fn law_definition_is_read_back<P: Permission, R: Role<P>>(
    before: StaticRoleRegistry<R, P>,
    defined: StaticRoleRegistry<R, P>,
    linked: StaticRoleRegistry<R, P>,
    role: R,
    name: &str,
    parents: Vec<String>,
    asked: &str,
    perms: Option<KeySet<P>>,
    perms_before: Option<KeySet<P>>,
    ups_defined: Vec<String>,
    ups_before: Vec<String>,
    ups_linked: Vec<String>,
)
    requires
        exists|registry: &mut StaticRoleRegistry<R, P>|
            *registry == before && *final(registry) == defined && #[trigger] call_ensures(
                StaticRoleRegistry::<R, P>::register,
                (registry, role),
                (),
            ),
        exists|registry: &mut StaticRoleRegistry<R, P>|
            *registry == before && *final(registry) == linked && #[trigger] call_ensures(
                StaticRoleRegistry::<R, P>::set_parents,
                (registry, name, parents),
                (),
            ),
        call_ensures(StaticRoleRegistry::<R, P>::get_role_permissions, (&before, asked), perms_before),
        call_ensures(StaticRoleRegistry::<R, P>::get_role_permissions, (&defined, asked), perms),
        call_ensures(StaticRoleRegistry::<R, P>::role_parents, (&before, asked), ups_before),
        call_ensures(StaticRoleRegistry::<R, P>::role_parents, (&defined, asked), ups_defined),
        call_ensures(StaticRoleRegistry::<R, P>::role_parents, (&linked, asked), ups_linked),
    ensures
        asked@ == role.name_text() ==> (perms matches Some(p) && p@ == role.granted()) && ups_defined@.len() == 0,
        asked@ != role.name_text() ==> {
            &&& perms is Some <==> perms_before is Some
            &&& perms matches Some(p) ==> p@ == perms_before->Some_0@
            &&& crate::rbac::traits::texts_of(ups_defined@) == crate::rbac::traits::texts_of(ups_before@)
        },
        asked@ == name@ ==> crate::rbac::traits::texts_of(ups_linked@) == crate::rbac::traits::texts_of(parents@),
        asked@ != name@ ==> crate::rbac::traits::texts_of(ups_linked@) == crate::rbac::traits::texts_of(ups_before@),
{
    assert(crate::rbac::traits::texts_of(ups_defined@).len() == ups_defined@.len());
}

/// A catalogue knows exactly what it was made of, and finds a permission by its name exactly if one of
/// them has it.
pub proof fn law_catalogue_knows_what_it_was_made_of<P: Permission>(
    permissions: KeySet<P>,
    registry: StaticPermissionRegistry<P>,
    all: KeySet<P>,
    name: &str,
    found: Option<P>,
)
    requires
        call_ensures(StaticPermissionRegistry::<P>::new, (permissions,), registry),
        call_ensures(StaticPermissionRegistry::<P>::all_permissions, (&registry,), all),
        call_ensures(StaticPermissionRegistry::<P>::get_permission, (&registry, name), found),
    ensures
        all@ == permissions@,
        found is Some <==> exists|i: int|
            0 <= i < permissions.items().len() && (#[trigger] permissions.items()[i]).name_text() == name@,
        found matches Some(p) ==> p.name_text() == name@ && permissions@.contains(p.id()),
{
    let names = names_of(permissions.items());
    assert(names.to_set().contains(name@) <==> names.contains(name@));
    if names.contains(name@) {
        let i = choose|i: int| 0 <= i < names.len() && names[i] == name@;
        assert(permissions.items()[i].name_text() == name@);
    }
    if exists|i: int|
        0 <= i < permissions.items().len() && (#[trigger] permissions.items()[i]).name_text() == name@ {
        let i = choose|i: int|
            0 <= i < permissions.items().len() && (#[trigger] permissions.items()[i]).name_text() == name@;
        assert(names[i] == name@);
    }
}

/// A role that is defined with its parents has what it grants and the parents that it declares; nothing
/// else changes.
pub proof fn law_definition_with_parents_is_read_back<P: Permission, R: crate::rbac::hierarchy::HierarchicalRole<P>>(
    before: StaticRoleRegistry<R, P>,
    after: StaticRoleRegistry<R, P>,
    role: R,
    asked: &str,
    was: Option<KeySet<P>>,
    is: Option<KeySet<P>>,
    ups_before: Vec<String>,
    ups: Vec<String>,
)
    requires
        exists|registry: &mut StaticRoleRegistry<R, P>|
            *registry == before && *final(registry) == after && #[trigger] call_ensures(
                StaticRoleRegistry::<R, P>::register_hierarchical,
                (registry, role),
                (),
            ),
        call_ensures(StaticRoleRegistry::<R, P>::get_role_permissions, (&before, asked), was),
        call_ensures(StaticRoleRegistry::<R, P>::get_role_permissions, (&after, asked), is),
        call_ensures(StaticRoleRegistry::<R, P>::role_parents, (&before, asked), ups_before),
        call_ensures(StaticRoleRegistry::<R, P>::role_parents, (&after, asked), ups),
    ensures
        asked@ == role.name_text() ==> (is matches Some(p) && p@ == role.granted()) && crate::rbac::traits::texts_of(ups@)
            == role.parent_texts(),
        asked@ != role.name_text() ==> {
            &&& is is Some <==> was is Some
            &&& is matches Some(p) ==> p@ == was->Some_0@
            &&& crate::rbac::traits::texts_of(ups@) == crate::rbac::traits::texts_of(ups_before@)
        },
{
}

/// A role has the name and the permissions that it was made with.
pub proof fn law_role_is_what_it_is_made<P: Permission>(
    name: &str,
    perms: KeySet<P>,
    role: SimpleRole<P>,
    shown: &str,
    granted: &KeySet<P>,
)
    requires
        call_ensures(SimpleRole::<P>::new, (name, perms), role),
        call_ensures(SimpleRole::<P>::role_name, (&role,), shown),
        call_ensures(SimpleRole::<P>::permissions, (&role,), granted),
    ensures
        shown@ == name@,
        granted@ == perms@,
{
}

/// A new registry defines no role; what a registry lists are the names under which it defines one, each once.
pub proof fn law_defined_roles_are_listed<P: Permission, R: Role<P>>(
    made: StaticRoleRegistry<R, P>,
    usual: StaticRoleRegistry<R, P>,
    registry: &StaticRoleRegistry<R, P>,
    listed: Vec<String>,
    name: Seq<char>,
)
    requires
        call_ensures(StaticRoleRegistry::<R, P>::new, (), made),
        call_ensures(StaticRoleRegistry::<R, P>::default, (), usual),
        call_ensures(StaticRoleRegistry::<R, P>::list_role_names, (registry,), listed),
    ensures
        !made.roles().contains_key(name) && !made.parent_lists().contains_key(name),
        !usual.roles().contains_key(name) && !usual.parent_lists().contains_key(name),
        registry.roles().contains_key(name) <==> exists|i: int| 0 <= i < listed@.len() && #[trigger] listed@[i]@ == name,
        forall|i: int, j: int| 0 <= i < j < listed@.len() ==> #[trigger] listed@[i]@ != #[trigger] listed@[j]@,
{
    let names = crate::rbac::traits::texts_of(listed@);
    assert(names.to_set().contains(name) <==> registry.roles().dom().contains(name));
    if names.contains(name) {
        let i = choose|i: int| 0 <= i < names.len() && names[i] == name;
        assert(listed@[i]@ == name);
    }
    if exists|i: int| 0 <= i < listed@.len() && #[trigger] listed@[i]@ == name {
        let i = choose|i: int| 0 <= i < listed@.len() && #[trigger] listed@[i]@ == name;
        assert(names[i] == name);
    }
    assert forall|i: int, j: int| 0 <= i < j < listed@.len() implies #[trigger] listed@[i]@ != #[trigger] listed@[j]@ by {
        assert(names[i] == listed@[i]@ && names[j] == listed@[j]@);
    }
}

} // verus!
