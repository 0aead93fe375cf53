//! The built-in roles.
use crate::collections::{Key, KeySet};
use crate::rbac::engine::RbacEngine;
use crate::rbac::memory::InMemoryAssignmentStore;
use crate::rbac::registry::{SimpleRole, StaticPermissionRegistry, StaticRoleRegistry};
use crate::rbac::subject::StringSubject;
use crate::rbac::traits::{AssignmentStore, Permission, PermissionRegistry, Role, RoleRegistry};
use crate::text::{ends_with, same_text};
use vstd::prelude::*;

verus! {

/// The engine with the built-in roles.
pub type DefaultEngine<P> = RbacEngine<
    StringSubject,
    P,
    InMemoryAssignmentStore<StringSubject, P>,
    StaticRoleRegistry<SimpleRole<P>, P>,
    StaticPermissionRegistry<P>,
>;

/// Whether an operator has a permission: everything but the system and the roles themselves.
pub open spec fn is_operators(domain: Seq<char>) -> bool {
    domain != "system"@ && domain != "rbac"@
}

/// Whether a member has a permission.
pub open spec fn is_members(name: Seq<char>) -> bool {
    ||| name == "provider.list"@
    ||| name == "provider.use"@
    ||| name == "mcp.list"@
    ||| name == "mcp.use"@
    ||| name == "agent.list"@
    ||| name == "agent.use"@
    ||| name == "channel.list"@
    ||| name == "channel.use"@
    ||| name == "workspace.list"@
    ||| name == "workspace.create"@
    ||| name == "device.list"@
    ||| name == "device.connect"@
}

/// Whether a viewer has a permission.
pub open spec fn is_viewers(name: Seq<char>) -> bool {
    crate::text::has_suffix(name, ".list"@) || name == "deploy.read"@
}

/// The test for an administrator.
pub open spec fn admin_test<P: Permission>() -> spec_fn(P) -> bool {
    |p: P| true
}

/// The test for an operator.
pub open spec fn operator_test<P: Permission>() -> spec_fn(P) -> bool {
    |p: P| is_operators(p.domain_text())
}

/// The test for a member.
pub open spec fn member_test<P: Permission>() -> spec_fn(P) -> bool {
    |p: P| is_members(p.name_text())
}

/// The test for a viewer.
pub open spec fn viewer_test<P: Permission>() -> spec_fn(P) -> bool {
    |p: P| is_viewers(p.name_text())
}

/// Whether a permission of an identity is in a catalogue and passes a test.
pub open spec fn is_chosen<P: Permission>(all: Seq<P>, test: spec_fn(P) -> bool, id: P::Id) -> bool {
    exists|i: int| 0 <= i < all.len() && (#[trigger] all[i]).id() == id && test(all[i])
}

/// The permissions of a catalogue that pass a test.
pub open spec fn chosen<P: Permission>(all: Seq<P>, test: spec_fn(P) -> bool) -> Set<P::Id> {
    Set::new(|id: P::Id| is_chosen(all, test, id))
}

/// The permissions of a catalogue that pass a test.
fn choose_where<P: Permission, F: Fn(&P) -> bool>(all: &Vec<P>, test: F, Ghost(passes): Ghost<spec_fn(P) -> bool>) -> (r: KeySet<
    P,
>)
    requires
        forall|p: &P| #[trigger] test.requires((p,)),
        forall|p: &P, b: bool| #[trigger] test.ensures((p,), b) ==> b == passes(*p),
    ensures
        r.wf(),
        r@ == chosen(all@, passes),
{
    let mut r: KeySet<P> = KeySet::new();
    let mut i: usize = 0;
    while i < all.len()
        invariant
            forall|p: &P| #[trigger] test.requires((p,)),
            forall|p: &P, b: bool| #[trigger] test.ensures((p,), b) ==> b == passes(*p),
            i <= all@.len(),
            r.wf(),
            forall|id: P::Id| #[trigger] r@.contains(id) <==> is_chosen(all@.take(i as int), passes, id),
        decreases all.len() - i,
    {
        let ghost before = r@;
        let ghost prefix = all@.take(i as int);
        let ghost longer = all@.take(i + 1);
        let p = &all[i];
        if test(p) {
            let _ = r.insert(p.duplicate());
        }
        proof {
            assert forall|id: P::Id| #[trigger] r@.contains(id) <==> is_chosen(longer, passes, id) by {
                if is_chosen(prefix, passes, id) {
                    let j = choose|j: int| 0 <= j < prefix.len() && (#[trigger] prefix[j]).id() == id && passes(prefix[j]);
                    assert(longer[j].id() == id && passes(longer[j]));
                }
                if is_chosen(longer, passes, id) {
                    let j = choose|j: int| 0 <= j < longer.len() && (#[trigger] longer[j]).id() == id && passes(longer[j]);
                    if j < i {
                        assert(prefix[j].id() == id && passes(prefix[j]));
                    }
                }
                assert(longer[i as int] == *p);
                assert(before.contains(id) <==> is_chosen(prefix, passes, id));
            }
        }
        i = i + 1;
    }
    assert(all@.take(all@.len() as int) =~= all@);
    assert(r@ =~= chosen(all@, passes));
    r
}

fn is_operator_domain(domain: &str) -> (r: bool)
    ensures
        r == is_operators(domain@),
{
    !same_text(domain, "system") && !same_text(domain, "rbac")
}

fn is_member_name(name: &str) -> (r: bool)
    ensures
        r == is_members(name@),
{
    same_text(name, "provider.list") || same_text(name, "provider.use") || same_text(name, "mcp.list") || same_text(
        name,
        "mcp.use",
    ) || same_text(name, "agent.list") || same_text(name, "agent.use") || same_text(name, "channel.list") || same_text(
        name,
        "channel.use",
    ) || same_text(name, "workspace.list") || same_text(name, "workspace.create") || same_text(name, "device.list")
        || same_text(name, "device.connect")
}

fn is_viewer_name(name: &str) -> (r: bool)
    ensures
        r == is_viewers(name@),
{
    ends_with(name, ".list") || same_text(name, "deploy.read")
}

/// The built-in roles over a catalogue.
pub open spec fn default_roles<P: Permission>(all: Seq<P>) -> Map<Seq<char>, Set<P::Id>> {
    Map::<Seq<char>, Set<P::Id>>::empty().insert("admin"@, chosen(all, admin_test())).insert(
        "operator"@,
        chosen(all, operator_test()),
    ).insert("member"@, chosen(all, member_test())).insert("viewer"@, chosen(all, viewer_test()))
}

/// Permissions that have the identities of a catalogue have its names.
proof fn lemma_names_of_all<P: Permission>(all: Seq<P>, items: Seq<P>)
    requires
        crate::collections::ids_of(items).to_set() == chosen(all, admin_test()),
    ensures
        crate::rbac::registry::names_of(items).to_set() == crate::rbac::registry::names_of(all).to_set(),
{
    let ids = crate::collections::ids_of(items);
    let some = crate::rbac::registry::names_of(items);
    let every = crate::rbac::registry::names_of(all);
    assert forall|name: Seq<char>| #[trigger] some.to_set().contains(name) <==> every.to_set().contains(name) by {
        if some.contains(name) {
            let i = choose|i: int| 0 <= i < some.len() && some[i] == name;
            assert(ids[i] == items[i].id());
            assert(ids.to_set().contains(ids[i]));
            let j = choose|j: int| 0 <= j < all.len() && (#[trigger] all[j]).id() == ids[i];
            P::identity_fixes_texts(&items[i], &all[j]);
            assert(every[j] == name);
        }
        if every.contains(name) {
            let j = choose|j: int| 0 <= j < every.len() && every[j] == name;
            assert(is_chosen(all, admin_test(), all[j].id()));
            assert(ids.to_set().contains(all[j].id()));
            let i = choose|i: int| 0 <= i < ids.len() && ids[i] == all[j].id();
            P::identity_fixes_texts(&items[i], &all[j]);
            assert(some[i] == name);
        }
    }
    assert(some.to_set() =~= every.to_set());
}

/// An engine over a catalogue of permissions, with the built-in roles and no assignments.
#[must_use]
pub fn build_default_engine<P: Permission>(all: &Vec<P>) -> (r: DefaultEngine<P>)
    ensures
        r.wf(),
        r.registry().roles() == default_roles(all@),
        r.registry().parent_lists() == Map::<Seq<char>, Seq<Seq<char>>>::empty(),
        r.catalogue().known() == chosen(all@, admin_test()),
        r.catalogue().known_names() == crate::rbac::registry::names_of(all@).to_set(),
        r.store().role_rows() == Map::<Seq<char>, Set<Seq<char>>>::empty(),
        r.store().extra_rows() == Map::<Seq<char>, Set<P::Id>>::empty(),
        r.store().denied_rows() == Map::<Seq<char>, Set<P::Id>>::empty(),
        r.memory()@ == crate::rbac::cache::Entries::empty(),
        r.memory().lifetime() == crate::rbac::engine::DEFAULT_CACHE_TTL,
        r.memory().cap() == crate::rbac::cache::DEFAULT_MAX_CACHE_ENTRIES,
{
    let everything = |p: &P| -> (b: bool)
        ensures
            b,
        { true };
    let operators = |p: &P| -> (b: bool)
        ensures
            b == is_operators(p.domain_text()),
        { is_operator_domain(p.domain()) };
    let members = |p: &P| -> (b: bool)
        ensures
            b == is_members(p.name_text()),
        { is_member_name(p.name()) };
    let viewers = |p: &P| -> (b: bool)
        ensures
            b == is_viewers(p.name_text()),
        { is_viewer_name(p.name()) };
    let mut roles: StaticRoleRegistry<SimpleRole<P>, P> = StaticRoleRegistry::new();
    let ghost none = Map::<Seq<char>, Seq<Seq<char>>>::empty();
    roles.register(SimpleRole::new("admin", choose_where(all, everything, Ghost(admin_test()))));
    assert(none.remove("admin"@) =~= none);
    roles.register(SimpleRole::new("operator", choose_where(all, operators, Ghost(operator_test()))));
    assert(none.remove("operator"@) =~= none);
    roles.register(SimpleRole::new("member", choose_where(all, members, Ghost(member_test()))));
    assert(none.remove("member"@) =~= none);
    roles.register(SimpleRole::new("viewer", choose_where(all, viewers, Ghost(viewer_test()))));
    assert(none.remove("viewer"@) =~= none);
    let permissions = choose_where(all, everything, Ghost(admin_test()));
    proof {
        lemma_names_of_all(all@, permissions.items());
    }
    let catalogue = StaticPermissionRegistry::new(permissions);
    let store: InMemoryAssignmentStore<StringSubject, P> = InMemoryAssignmentStore::new();
    RbacEngine::new(roles, catalogue, store)
}

/// The four built-in roles are there, and no other.
pub proof fn law_default_role_names<P: Permission>(all: Seq<P>, name: Seq<char>)
    ensures
        default_roles(all).contains_key(name) <==> name == "admin"@ || name == "operator"@ || name == "member"@ || name
            == "viewer"@,
{
}

/// Each built-in role has exactly what belongs to it, and an administrator has all of it.
pub proof fn law_default_roles<P: Permission>(all: Seq<P>, i: int)
    requires
        0 <= i < all.len(),
    ensures
        default_roles(all)["admin"@].contains(all[i].id()),
        is_operators(all[i].domain_text()) <==> default_roles(all)["operator"@].contains(all[i].id()),
        is_members(all[i].name_text()) <==> default_roles(all)["member"@].contains(all[i].id()),
        is_viewers(all[i].name_text()) <==> default_roles(all)["viewer"@].contains(all[i].id()),
{
    reveal_strlit("admin");
    reveal_strlit("operator");
    reveal_strlit("member");
    reveal_strlit("viewer");
    assert("admin"@.len() == 5 && "operator"@.len() == 8 && "member"@.len() == 6 && "viewer"@.len() == 6);
    assert("member"@[0] == 'm' && "viewer"@[0] == 'v');
    let id = all[i].id();
    assert(is_chosen(all, admin_test(), id));
    assert forall|j: int| 0 <= j < all.len() && (#[trigger] all[j]).id() == id implies all[j].name_text() == all[i].name_text()
        && all[j].domain_text() == all[i].domain_text() by {
        P::identity_fixes_texts(&all[j], &all[i]);
    }
    assert(operator_test()(all[i]) ==> is_chosen(all, operator_test(), id));
    assert(member_test()(all[i]) ==> is_chosen(all, member_test(), id));
    assert(viewer_test()(all[i]) ==> is_chosen(all, viewer_test(), id));
}

/// Whether a text ends in another.
pub open spec fn is_ended_by(text: Seq<char>, end: Seq<char>) -> bool {
    exists|front: Seq<char>| text == #[trigger] (front + end)
}

/// An engine that is built over a catalogue knows the permissions of it, and four roles: that of an
/// administrator with all of them, of an operator with those outside the domains of the system and of
/// the roles, of a member with twelve by name, and of a viewer with those that list and the reading of
/// deployments. Nobody has a role, or anything added or denied.
pub proof fn law_built_engine<P: Permission>(all: &Vec<P>, engine: DefaultEngine<P>, i: int, name: Seq<char>)
    requires
        call_ensures(build_default_engine::<P>, (all,), engine),
        0 <= i < all@.len(),
    ensures
        ({
            let roles = engine.registry().roles();
            let p = all@[i];
            let text = p.name_text();
            &&& roles.contains_key(name) <==> name == "admin"@ || name == "operator"@ || name == "member"@ || name
                == "viewer"@
            &&& roles["admin"@].contains(p.id())
            &&& roles["operator"@].contains(p.id()) <==> p.domain_text() != "system"@ && p.domain_text() != "rbac"@
            &&& roles["member"@].contains(p.id()) <==> {
                ||| text == "provider.list"@ || text == "provider.use"@
                ||| text == "mcp.list"@ || text == "mcp.use"@
                ||| text == "agent.list"@ || text == "agent.use"@
                ||| text == "channel.list"@ || text == "channel.use"@
                ||| text == "workspace.list"@ || text == "workspace.create"@
                ||| text == "device.list"@ || text == "device.connect"@
            }
            &&& roles["viewer"@].contains(p.id()) <==> is_ended_by(text, ".list"@) || text == "deploy.read"@
            &&& engine.catalogue().known().contains(p.id())
            &&& engine.catalogue().known_names().contains(text)
        }),
        engine.store().roles_read(name) == Ok::<Set<Seq<char>>, crate::error::ErrorView>(Set::empty()),
        engine.store().extra_read(name) == Ok::<Set<P::Id>, crate::error::ErrorView>(Set::empty()),
        engine.store().denied_read(name) == Ok::<Set<P::Id>, crate::error::ErrorView>(Set::empty()),
        engine.memory().lifetime() == 300_000_000_000,
        engine.memory().cap() == 10_000,
{
    law_default_roles(all@, i);
    let text = all@[i].name_text();
    let end = ".list"@;
    if crate::text::has_suffix(text, end) {
        assert(text =~= text.take(text.len() - end.len()) + end);
    }
    if is_ended_by(text, end) {
        let front = choose|front: Seq<char>| text == #[trigger] (front + end);
        assert(text.subrange(text.len() - end.len(), text.len() as int) =~= end);
    }
    assert(is_chosen(all@, admin_test(), all@[i].id()));
    let names = crate::rbac::registry::names_of(all@);
    assert(names[i] == text);
    assert(names.to_set().contains(text));
}

} // verus!
