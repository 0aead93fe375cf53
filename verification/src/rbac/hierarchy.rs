//! Role hierarchy: the permissions that a role inherits from every ancestor,
//! and cycles among the parent links.
//!
//! Parents only add permissions. A cycle stops neither walk: the union is taken
//! over every role that is reached, and the probe reports the cycle. A name that
//! the registry does not know contributes nothing and ends its branch.
use crate::collections::KeySet;
use crate::rbac::traits::{Permission, Role, RoleRegistry};
use vstd::prelude::*;

verus! {

/// The parent links: the names that each known role declares as parents.
pub type Links = Map<Seq<char>, Seq<Seq<char>>>;

/// The links of a registry.
pub open spec fn links_of<P: Permission, R: RoleRegistry<P>>(registry: &R) -> Links {
    Map::new(
        |n: Seq<char>| registry.roles().contains_key(n),
        |n: Seq<char>| registry.parent_names(n),
    )
}

/// Whether `a` is a known role that names `b` as a parent.
pub open spec fn is_parent(g: Links, a: Seq<char>, b: Seq<char>) -> bool {
    g.contains_key(a) && g[a].contains(b)
}

/// Whether `n` parent links lead from `a` to `b`.
pub open spec fn leads_in(g: Links, a: Seq<char>, b: Seq<char>, n: nat) -> bool
    decreases n,
{
    if n == 0 {
        a == b
    } else {
        exists|c: Seq<char>| #[trigger] is_parent(g, a, c) && leads_in(g, c, b, (n - 1) as nat)
    }
}

/// Whether `b` is `a` or an ancestor of it.
pub open spec fn leads_to(g: Links, a: Seq<char>, b: Seq<char>) -> bool {
    exists|n: nat| leads_in(g, a, b, n)
}

/// Whether one link or more lead from `a` to `b`.
pub open spec fn descends(g: Links, a: Seq<char>, b: Seq<char>) -> bool {
    exists|c: Seq<char>| #[trigger] is_parent(g, a, c) && leads_to(g, c, b)
}

/// Whether some role that `a` leads to is its own ancestor.
pub open spec fn meets_cycle(g: Links, a: Seq<char>) -> bool {
    exists|b: Seq<char>| leads_to(g, a, b) && descends(g, b, b)
}

/// The permissions of a role and of every ancestor.
pub open spec fn inherited<P: Permission, R: RoleRegistry<P>>(registry: &R, role: Seq<char>) -> Set<P::Id> {
    Set::new(
        |p: P::Id|
            exists|r: Seq<char>|
                {
                    &&& leads_to(links_of::<P, R>(registry), role, r)
                    &&& #[trigger] registry.roles().contains_key(r)
                    &&& registry.roles()[r].contains(p)
                },
    )
}

proof fn lemma_leads_refl(g: Links, a: Seq<char>)
    ensures
        leads_to(g, a, a),
{
    assert(leads_in(g, a, a, 0));
}

proof fn lemma_leads_in_trans(g: Links, a: Seq<char>, b: Seq<char>, c: Seq<char>, n: nat, m: nat)
    requires
        leads_in(g, a, b, n),
        leads_in(g, b, c, m),
    ensures
        leads_in(g, a, c, n + m),
    decreases n,
{
    if n > 0 {
        let x = choose|x: Seq<char>| #[trigger] is_parent(g, a, x) && leads_in(g, x, b, (n - 1) as nat);
        lemma_leads_in_trans(g, x, b, c, (n - 1) as nat, m);
        assert((n + m - 1) as nat == (n - 1) as nat + m);
    }
}

proof fn lemma_leads_trans(g: Links, a: Seq<char>, b: Seq<char>, c: Seq<char>)
    requires
        leads_to(g, a, b),
        leads_to(g, b, c),
    ensures
        leads_to(g, a, c),
{
    let n = choose|n: nat| leads_in(g, a, b, n);
    let m = choose|m: nat| leads_in(g, b, c, m);
    lemma_leads_in_trans(g, a, b, c, n, m);
}

proof fn lemma_parent_leads(g: Links, a: Seq<char>, b: Seq<char>)
    requires
        is_parent(g, a, b),
    ensures
        leads_to(g, a, b),
        descends(g, a, b),
{
    lemma_leads_refl(g, b);
    assert(leads_in(g, b, b, 0));
    assert(leads_in(g, a, b, 1));
}

proof fn lemma_leads_first(g: Links, a: Seq<char>, b: Seq<char>)
    requires
        leads_to(g, a, b),
        a != b,
    ensures
        descends(g, a, b),
{
    let n = choose|n: nat| leads_in(g, a, b, n);
    assert(n > 0);
    let c = choose|c: Seq<char>| #[trigger] is_parent(g, a, c) && leads_in(g, c, b, (n - 1) as nat);
    assert(leads_to(g, c, b));
}

/// A set that holds a role and the parents of each of its members holds every ancestor.
proof fn lemma_closed_set(g: Links, seen: Set<Seq<char>>, a: Seq<char>, b: Seq<char>, n: nat)
    requires
        seen.contains(a),
        forall|x: Seq<char>, y: Seq<char>|
            seen.contains(x) && #[trigger] is_parent(g, x, y) ==> seen.contains(y),
        leads_in(g, a, b, n),
    ensures
        seen.contains(b),
    decreases n,
{
    if n > 0 {
        let c = choose|c: Seq<char>| #[trigger] is_parent(g, a, c) && leads_in(g, c, b, (n - 1) as nat);
        lemma_closed_set(g, seen, c, b, (n - 1) as nat);
    }
}

/// The permissions of the known roles of a set.
spec fn collected<P: Permission, R: RoleRegistry<P>>(registry: &R, seen: Set<Seq<char>>) -> Set<P::Id> {
    Set::new(
        |p: P::Id|
            exists|r: Seq<char>|
                {
                    &&& seen.contains(r)
                    &&& #[trigger] registry.roles().contains_key(r)
                    &&& registry.roles()[r].contains(p)
                },
    )
}

/// The permissions of a role and of every ancestor that the registry knows.
#[must_use]
pub fn resolve_role_chain<P: Permission, R: RoleRegistry<P>>(role_name: &str, registry: &R) -> (perms: KeySet<P>)
    requires
        registry.wf(),
    ensures
        perms.wf(),
        perms@ == inherited::<P, R>(registry, role_name@),
{
    let ghost g = links_of::<P, R>(registry);
    let names = registry.list_role_names();
    let ghost known = registry.roles().dom();
    proof {
        assert(known.finite()) by {
            crate::rbac::traits::texts_of(names@).unique_seq_to_set();
        }
    }
    let mut all: KeySet<P> = KeySet::new();
    let mut visited: KeySet<String> = KeySet::new();
    let mut stack: Vec<String> = Vec::new();
    stack.push(role_name.to_owned());
    proof {
        lemma_leads_refl(g, role_name@);
        assert(stack@[0]@ == role_name@);
        assert(all@ =~= collected::<P, R>(registry, visited@));
    }
    while stack.len() > 0
        invariant
            registry.wf(),
            g == links_of::<P, R>(registry),
            known == registry.roles().dom(),
            known.finite(),
            all.wf(),
            visited.wf(),
            all@ == collected::<P, R>(registry, visited@),
            visited@.contains(role_name@) || exists|i: int|
                0 <= i < stack@.len() && #[trigger] stack@[i]@ == role_name@,
            forall|x: Seq<char>| #[trigger] visited@.contains(x) ==> leads_to(g, role_name@, x),
            forall|i: int| 0 <= i < stack@.len() ==> leads_to(g, role_name@, #[trigger] stack@[i]@),
            forall|x: Seq<char>, y: Seq<char>|
                visited@.contains(x) && #[trigger] is_parent(g, x, y) ==> visited@.contains(y) || exists|i: int|
                    0 <= i < stack@.len() && #[trigger] stack@[i]@ == y,
        decreases known.difference(visited@).len(), stack.len(),
    {
        let ghost stack0 = stack@;
        let ghost seen0 = visited@;
        let current = stack.pop().unwrap();
        assert forall|i: int| 0 <= i < stack0.len() implies #[trigger] stack0[i]@ == current@ || (i < stack@.len()
            && stack@[i]@ == stack0[i]@) by {}
        if !visited.contains(&current) {
            let _ = visited.insert(current.clone());
            match registry.get_role_permissions(current.as_str()) {
                Some(perms) => {
                    all.insert_all(&perms);
                    proof {
                        assert(all@ =~= collected::<P, R>(registry, visited@)) by {
                            assert(registry.roles().contains_key(current@));
                        }
                    }
                    let parents = registry.role_parents(current.as_str());
                    let ghost names = crate::rbac::traits::texts_of(parents@);
                    let ghost stack1 = stack@;
                    let mut i: usize = 0;
                    while i < parents.len()
                        invariant
                            i <= parents@.len(),
                            visited.wf(),
                            names == crate::rbac::traits::texts_of(parents@),
                            names == g[current@],
                            g.contains_key(current@),
                            leads_to(g, role_name@, current@),
                            stack1.len() <= stack@.len(),
                            forall|j: int| 0 <= j < stack1.len() ==> #[trigger] stack@[j] == stack1[j],
                            forall|j: int|
                                stack1.len() <= j < stack@.len() ==> leads_to(g, role_name@, #[trigger] stack@[j]@),
                            forall|k: int|
                                0 <= k < i ==> visited@.contains(#[trigger] names[k]) || exists|j: int|
                                    0 <= j < stack@.len() && #[trigger] stack@[j]@ == names[k],
                        decreases parents.len() - i,
                    {
                        let ghost stack2 = stack@;
                        if !visited.contains(&parents[i]) {
                            stack.push(parents[i].clone());
                            proof {
                                assert(names.contains(names[i as int]));
                                lemma_parent_leads(g, current@, names[i as int]);
                                lemma_leads_trans(g, role_name@, current@, names[i as int]);
                                assert(stack@[stack@.len() - 1]@ == names[i as int]);
                                assert forall|k: int| 0 <= k < i implies visited@.contains(#[trigger] names[k])
                                    || exists|j: int| 0 <= j < stack@.len() && #[trigger] stack@[j]@ == names[k] by {
                                    if !visited@.contains(names[k]) {
                                        let j = choose|j: int| 0 <= j < stack2.len() && #[trigger] stack2[j]@ == names[k];
                                        assert(stack@[j] == stack2[j]);
                                    }
                                }
                            }
                        }
                        i = i + 1;
                    }
                    proof {
                        assert(known.contains(current@));
                        assert(known.difference(visited@) =~= known.difference(seen0).remove(current@));
                        assert forall|x: Seq<char>, y: Seq<char>|
                            visited@.contains(x) && #[trigger] is_parent(g, x, y) implies visited@.contains(y)
                            || exists|i: int| 0 <= i < stack@.len() && #[trigger] stack@[i]@ == y by {
                            if x == current@ {
                                let k = choose|k: int| 0 <= k < names.len() && names[k] == y;
                                assert(visited@.contains(names[k]) || exists|j: int|
                                    0 <= j < stack@.len() && #[trigger] stack@[j]@ == names[k]);
                            } else if !seen0.contains(y) {
                                let i = choose|i: int| 0 <= i < stack0.len() && #[trigger] stack0[i]@ == y;
                                if y != current@ {
                                    assert(stack1[i]@ == y);
                                    assert(stack@[i] == stack1[i]);
                                }
                            }
                        }
                        assert forall|i: int| 0 <= i < stack@.len() implies leads_to(g, role_name@, #[trigger] stack@[i]@) by {
                            if i < stack1.len() {
                                assert(stack@[i] == stack1[i]);
                                assert(stack1[i] == stack0[i]);
                            }
                        }
                        if !visited@.contains(role_name@) {
                            let i = choose|i: int| 0 <= i < stack0.len() && #[trigger] stack0[i]@ == role_name@;
                            assert(stack1[i]@ == role_name@);
                            assert(stack@[i] == stack1[i]);
                        }
                    }
                },
                None => {
                    proof {
                        assert(all@ =~= collected::<P, R>(registry, visited@));
                        assert(!known.contains(current@));
                        assert(known.difference(visited@) =~= known.difference(seen0));
                        assert forall|x: Seq<char>, y: Seq<char>|
                            visited@.contains(x) && #[trigger] is_parent(g, x, y) implies visited@.contains(y)
                            || exists|i: int| 0 <= i < stack@.len() && #[trigger] stack@[i]@ == y by {
                            if !seen0.contains(y) && y != current@ {
                                let i = choose|i: int| 0 <= i < stack0.len() && #[trigger] stack0[i]@ == y;
                                assert(stack@[i]@ == y);
                            }
                        }
                        if !visited@.contains(role_name@) {
                            let i = choose|i: int| 0 <= i < stack0.len() && #[trigger] stack0[i]@ == role_name@;
                            assert(stack@[i]@ == role_name@);
                        }
                    }
                },
            }
        } else {
            proof {
                assert forall|x: Seq<char>, y: Seq<char>|
                    visited@.contains(x) && #[trigger] is_parent(g, x, y) implies visited@.contains(y) || exists|i: int|
                    0 <= i < stack@.len() && #[trigger] stack@[i]@ == y by {
                    if !visited@.contains(y) {
                        let i = choose|i: int| 0 <= i < stack0.len() && #[trigger] stack0[i]@ == y;
                        assert(stack@[i]@ == y);
                    }
                }
                if !visited@.contains(role_name@) {
                    let i = choose|i: int| 0 <= i < stack0.len() && #[trigger] stack0[i]@ == role_name@;
                    assert(stack@[i]@ == role_name@);
                }
            }
        }
    }
    proof {
        assert forall|x: Seq<char>| leads_to(g, role_name@, x) implies visited@.contains(x) by {
            let n = choose|n: nat| leads_in(g, role_name@, x, n);
            lemma_closed_set(g, visited@, role_name@, x, n);
        }
        assert(all@ =~= inherited::<P, R>(registry, role_name@));
    }
    all
}

/// A role meets a cycle exactly if one of its parents does.
proof fn lemma_cycle_through_parent(g: Links, a: Seq<char>)
    requires
        meets_cycle(g, a),
    ensures
        exists|c: Seq<char>| #[trigger] is_parent(g, a, c) && meets_cycle(g, c),
{
    let b = choose|b: Seq<char>| leads_to(g, a, b) && descends(g, b, b);
    if a == b {
        let c = choose|c: Seq<char>| #[trigger] is_parent(g, a, c) && leads_to(g, c, a);
        assert(leads_to(g, c, a) && descends(g, a, a));
        assert(is_parent(g, a, c) && meets_cycle(g, c));
    } else {
        lemma_leads_first(g, a, b);
        let c = choose|c: Seq<char>| #[trigger] is_parent(g, a, c) && leads_to(g, c, b);
        assert(leads_to(g, c, b) && descends(g, b, b));
        assert(is_parent(g, a, c) && meets_cycle(g, c));
    }
}

proof fn lemma_cycle_from_parent(g: Links, a: Seq<char>, c: Seq<char>)
    requires
        is_parent(g, a, c),
        meets_cycle(g, c),
    ensures
        meets_cycle(g, a),
{
    let b = choose|b: Seq<char>| leads_to(g, c, b) && descends(g, b, b);
    lemma_parent_leads(g, a, c);
    lemma_leads_trans(g, a, c, b);
}

/// Depth-first probe behind [`detect_cycle`].
///
/// `path` holds the roles of the current path, each of which descends to `name`;
/// `visited` holds the roles that were entered, and those that were also left
/// meet no cycle.
fn dfs<P: Permission, R: RoleRegistry<P>>(
    name: &str,
    registry: &R,
    visited: &mut KeySet<String>,
    path: &mut KeySet<String>,
) -> (found: bool)
    requires
        registry.wf(),
        registry.roles().dom().finite(),
        old(visited).wf(),
        old(path).wf(),
        forall|p: Seq<char>|
            #[trigger] old(path)@.contains(p) ==> descends(links_of::<P, R>(registry), p, name@),
        forall|x: Seq<char>|
            #[trigger] old(visited)@.contains(x) ==> old(path)@.contains(x) || !meets_cycle(
                links_of::<P, R>(registry),
                x,
            ),
    ensures
        found == meets_cycle(links_of::<P, R>(registry), name@),
        final(visited).wf(),
        final(path).wf(),
        !found ==> final(path)@ == old(path)@,
        !found ==> forall|x: Seq<char>|
            #[trigger] final(visited)@.contains(x) ==> final(path)@.contains(x) || !meets_cycle(
                links_of::<P, R>(registry),
                x,
            ),
    decreases registry.roles().dom().difference(old(path)@).len(),
{
    let ghost g = links_of::<P, R>(registry);
    let ghost known = registry.roles().dom();
    let ghost path0 = path@;
    let key = name.to_owned();
    if path.contains(&key) {
        proof {
            lemma_leads_refl(g, name@);
            assert(leads_to(g, name@, name@) && descends(g, name@, name@));
        }
        return true;
    }
    if visited.contains(&key) {
        return false;
    }
    let _ = visited.insert(name.to_owned());
    let _ = path.insert(name.to_owned());
    if registry.get_role_permissions(name).is_some() {
        let parents = registry.role_parents(name);
        let ghost names = crate::rbac::traits::texts_of(parents@);
        proof {
            assert(known.contains(name@));
            assert(known.difference(path0.insert(name@)) =~= known.difference(path0).remove(name@));
        }
        let mut i: usize = 0;
        while i < parents.len()
            invariant
                i <= parents@.len(),
                registry.wf(),
                g == links_of::<P, R>(registry),
                known == registry.roles().dom(),
                known.finite(),
                path0 == old(path)@,
                known.difference(path0.insert(name@)).len() < known.difference(path0).len(),
                g.contains_key(name@),
                names == crate::rbac::traits::texts_of(parents@),
                names == g[name@],
                visited.wf(),
                path.wf(),
                path@ == path0.insert(name@),
                forall|p: Seq<char>| #[trigger] path0.contains(p) ==> descends(g, p, name@),
                forall|x: Seq<char>|
                    #[trigger] visited@.contains(x) ==> path@.contains(x) || !meets_cycle(g, x),
                forall|k: int| 0 <= k < i ==> !meets_cycle(g, #[trigger] names[k]),
            decreases parents.len() - i,
        {
            let ghost parent = names[i as int];
            proof {
                assert(names.contains(parent));
                assert(is_parent(g, name@, parent));
                lemma_parent_leads(g, name@, parent);
                assert forall|p: Seq<char>| #[trigger] path@.contains(p) implies descends(g, p, parent) by {
                    if p != name@ {
                        let c = choose|c: Seq<char>| #[trigger] is_parent(g, p, c) && leads_to(g, c, name@);
                        lemma_leads_trans(g, c, name@, parent);
                        assert(is_parent(g, p, c) && leads_to(g, c, parent));
                    }
                }
            }
            if dfs::<P, R>(parents[i].as_str(), registry, visited, path) {
                proof {
                    lemma_cycle_from_parent(g, name@, parent);
                }
                return true;
            }
            i = i + 1;
        }
        proof {
            if meets_cycle(g, name@) {
                lemma_cycle_through_parent(g, name@);
                let c = choose|c: Seq<char>| #[trigger] is_parent(g, name@, c) && meets_cycle(g, c);
                let k = choose|k: int| 0 <= k < names.len() && names[k] == c;
                assert(!meets_cycle(g, names[k]));
            }
        }
    } else {
        proof {
            if meets_cycle(g, name@) {
                lemma_cycle_through_parent(g, name@);
            }
        }
    }
    let _ = path.remove(&key);
    assert(path@ =~= path0);
    false
}

/// Whether a role meets a cycle of parent links, itself among its ancestors or further up.
#[must_use]
pub fn detect_cycle<P: Permission, R: RoleRegistry<P>>(role_name: &str, registry: &R) -> (found: bool)
    requires
        registry.wf(),
    ensures
        found == meets_cycle(links_of::<P, R>(registry), role_name@),
{
    let names = registry.list_role_names();
    proof {
        crate::rbac::traits::texts_of(names@).unique_seq_to_set();
    }
    let mut visited: KeySet<String> = KeySet::new();
    let mut path: KeySet<String> = KeySet::new();
    dfs::<P, R>(role_name, registry, &mut visited, &mut path)
}

/// A role that inherits from named parent roles.
pub trait HierarchicalRole<P: Permission>: Role<P> {
    /// The names of the parents.
    open spec fn parent_texts(&self) -> Seq<Seq<char>> {
        arbitrary()
    }

    /// Names of the roles that this role inherits from.
    fn parent_roles(&self) -> (r: Vec<String>)
        ensures
            crate::rbac::traits::texts_of(r@) == self.parent_texts(),
    ;
}

/// A role name, the permissions held directly, and the names of the parents.
pub struct HierarchyNode<P> {
    name: String,
    permissions: KeySet<P>,
    parents: Vec<String>,
}

impl<P: Permission> HierarchyNode<P> {
    /// A node with the given direct permissions and no parents.
    pub fn new(name: &str, permissions: KeySet<P>) -> (r: Self)
        requires
            permissions.wf(),
        ensures
            r.wf(),
            r.name_text() == name@,
            r.granted() == permissions@,
            r.parent_texts() == Seq::<Seq<char>>::empty(),
    {
        let r = HierarchyNode { name: name.to_owned(), permissions, parents: Vec::new() };
        assert(r.parent_texts() =~= Seq::<Seq<char>>::empty());
        r
    }

    /// The node with the given parent names in place of those that it had.
    #[must_use]
    pub fn with_parents(self, parents: Vec<String>) -> (r: Self)
        requires
            self.wf(),
        ensures
            r.wf(),
            r.name_text() == self.name_text(),
            r.granted() == self.granted(),
            r.parent_texts() == crate::rbac::traits::texts_of(parents@),
    {
        HierarchyNode { name: self.name, permissions: self.permissions, parents }
    }
}

impl<P: Permission> Role<P> for HierarchyNode<P> {
    closed spec fn wf(&self) -> bool {
        self.permissions.wf()
    }

    closed spec fn name_text(&self) -> Seq<char> {
        self.name@
    }

    closed spec fn granted(&self) -> Set<P::Id> {
        self.permissions@
    }

    fn role_name(&self) -> (r: &str) {
        self.name.as_str()
    }

    fn permissions(&self) -> (r: &KeySet<P>) {
        &self.permissions
    }
}

impl<P: Permission> HierarchicalRole<P> for HierarchyNode<P> {
    closed spec fn parent_texts(&self) -> Seq<Seq<char>> {
        crate::rbac::traits::texts_of(self.parents@)
    }

    fn parent_roles(&self) -> (r: Vec<String>) {
        crate::text::copy_texts(&self.parents)
    }
}

/// Parents only add: a known role keeps its own permissions, and inherits all that any
/// role it leads to inherits.
pub proof fn law_parents_only_add<P: Permission, R: RoleRegistry<P>>(registry: &R, role: Seq<char>, up: Seq<char>)
    requires
        leads_to(links_of::<P, R>(registry), role, up),
    ensures
        registry.roles().contains_key(role) ==> registry.roles()[role].subset_of(
            inherited::<P, R>(registry, role),
        ),
        inherited::<P, R>(registry, up).subset_of(inherited::<P, R>(registry, role)),
{
    let g = links_of::<P, R>(registry);
    lemma_leads_refl(g, role);
    assert forall|p: P::Id| inherited::<P, R>(registry, up).contains(p) implies inherited::<P, R>(
        registry,
        role,
    ).contains(p) by {
        let r = choose|r: Seq<char>|
            {
                &&& leads_to(g, up, r)
                &&& #[trigger] registry.roles().contains_key(r)
                &&& registry.roles()[r].contains(p)
            };
        lemma_leads_trans(g, role, up, r);
    }
}

/// Roles of one cycle inherit the same permissions.
pub proof fn law_cycle_members_agree<P: Permission, R: RoleRegistry<P>>(registry: &R, a: Seq<char>, b: Seq<char>)
    requires
        leads_to(links_of::<P, R>(registry), a, b),
        leads_to(links_of::<P, R>(registry), b, a),
    ensures
        inherited::<P, R>(registry, a) == inherited::<P, R>(registry, b),
{
    law_parents_only_add::<P, R>(registry, a, b);
    law_parents_only_add::<P, R>(registry, b, a);
    assert(inherited::<P, R>(registry, a) =~= inherited::<P, R>(registry, b));
}

/// A name that the registry does not know inherits nothing and meets no cycle.
pub proof fn law_unknown_role_grants_nothing<P: Permission, R: RoleRegistry<P>>(registry: &R, role: Seq<char>)
    requires
        !registry.roles().contains_key(role),
    ensures
        inherited::<P, R>(registry, role) == Set::<P::Id>::empty(),
        !meets_cycle(links_of::<P, R>(registry), role),
{
    let g = links_of::<P, R>(registry);
    assert forall|b: Seq<char>| leads_to(g, role, b) implies b == role by {
        if b != role {
            lemma_leads_first(g, role, b);
        }
    }
    assert(inherited::<P, R>(registry, role) =~= Set::<P::Id>::empty());
    if meets_cycle(g, role) {
        lemma_cycle_through_parent(g, role);
    }
}

/// Whether a list of names is a line of descent in a registry: each but the last is a known role,
/// and the next is one of its declared parents.
pub open spec fn is_line<P: Permission, R: RoleRegistry<P>>(registry: &R, line: Seq<Seq<char>>) -> bool {
    &&& line.len() > 0
    &&& forall|i: int|
        0 <= i < line.len() - 1 ==> registry.roles().contains_key(#[trigger] line[i]) && registry.parent_names(
            line[i],
        ).contains(line[i + 1])
}

/// As many links as lead to a role make up a line of descent.
proof fn lemma_line_of_links<P: Permission, R: RoleRegistry<P>>(registry: &R, a: Seq<char>, b: Seq<char>, n: nat) -> (line:
    Seq<Seq<char>>)
    requires
        leads_in(links_of::<P, R>(registry), a, b, n),
    ensures
        is_line::<P, R>(registry, line),
        line.len() == n + 1,
        line[0] == a,
        line.last() == b,
    decreases n,
{
    let g = links_of::<P, R>(registry);
    if n == 0 {
        seq![a]
    } else {
        let c = choose|c: Seq<char>| #[trigger] is_parent(g, a, c) && leads_in(g, c, b, (n - 1) as nat);
        let rest = lemma_line_of_links::<P, R>(registry, c, b, (n - 1) as nat);
        let line = seq![a] + rest;
        assert forall|i: int| 0 <= i < line.len() - 1 implies registry.roles().contains_key(#[trigger] line[i])
            && registry.parent_names(line[i]).contains(line[i + 1]) by {
            if i > 0 {
                assert(line[i] == rest[i - 1] && line[i + 1] == rest[i]);
            } else {
                assert(line[1] == rest[0]);
            }
        }
        assert(line.last() == rest.last());
        line
    }
}

/// A line of descent is as many links as it has steps.
proof fn lemma_links_of_line<P: Permission, R: RoleRegistry<P>>(registry: &R, line: Seq<Seq<char>>, i: int, j: int)
    requires
        is_line::<P, R>(registry, line),
        0 <= i <= j < line.len(),
    ensures
        leads_in(links_of::<P, R>(registry), line[i], line[j], (j - i) as nat),
    decreases j - i,
{
    if i < j {
        lemma_links_of_line::<P, R>(registry, line, i + 1, j);
        assert(is_parent(links_of::<P, R>(registry), line[i], line[i + 1]));
    }
}

/// A role has a permission with inheritance exactly if a line of descent leads from it to a known
/// role that is defined with the permission.
pub proof fn law_inherited_along_lines<P: Permission, R: RoleRegistry<P>>(
    registry: &R,
    role: &str,
    perms: KeySet<P>,
    permission: P::Id,
)
    requires
        call_ensures(resolve_role_chain::<P, R>, (role, registry), perms),
    ensures
        perms@.contains(permission) <==> exists|line: Seq<Seq<char>>| #[trigger]
            is_line::<P, R>(registry, line) && line[0] == role@ && registry.roles().contains_key(line.last())
                && registry.roles()[line.last()].contains(permission),
{
    lemma_inherited_lines::<P, R>(registry, role@, permission);
}

pub(crate) proof fn lemma_inherited_lines<P: Permission, R: RoleRegistry<P>>(registry: &R, role: Seq<char>, permission: P::Id)
    ensures
        inherited::<P, R>(registry, role).contains(permission) <==> exists|line: Seq<Seq<char>>| #[trigger]
            is_line::<P, R>(registry, line) && line[0] == role && registry.roles().contains_key(line.last())
                && registry.roles()[line.last()].contains(permission),
{
    let g = links_of::<P, R>(registry);
    if inherited::<P, R>(registry, role).contains(permission) {
        let r = choose|r: Seq<char>|
            {
                &&& leads_to(g, role, r)
                &&& #[trigger] registry.roles().contains_key(r)
                &&& registry.roles()[r].contains(permission)
            };
        let n = choose|n: nat| leads_in(g, role, r, n);
        let line = lemma_line_of_links::<P, R>(registry, role, r, n);
        assert(is_line::<P, R>(registry, line));
    }
    if exists|line: Seq<Seq<char>>| #[trigger]
        is_line::<P, R>(registry, line) && line[0] == role && registry.roles().contains_key(line.last())
            && registry.roles()[line.last()].contains(permission) {
        let line = choose|line: Seq<Seq<char>>| #[trigger]
            is_line::<P, R>(registry, line) && line[0] == role && registry.roles().contains_key(line.last())
                && registry.roles()[line.last()].contains(permission);
        lemma_links_of_line::<P, R>(registry, line, 0, line.len() - 1);
        assert(leads_to(g, role, line.last()));
    }
}

/// A cycle is reported of a role exactly if some line of descent from it comes by one name twice.
pub proof fn law_cycle_is_a_name_met_twice<P: Permission, R: RoleRegistry<P>>(registry: &R, role: &str, found: bool)
    requires
        call_ensures(detect_cycle::<P, R>, (role, registry), found),
    ensures
        found <==> exists|line: Seq<Seq<char>>, i: int, j: int|
            #![trigger is_line::<P, R>(registry, line), line[i], line[j]]
            is_line::<P, R>(registry, line) && line[0] == role@ && 0 <= i < j < line.len() && line[i] == line[j],
{
    let g = links_of::<P, R>(registry);
    if found {
        let b = choose|b: Seq<char>| leads_to(g, role@, b) && descends(g, b, b);
        let n = choose|n: nat| leads_in(g, role@, b, n);
        let c = choose|c: Seq<char>| #[trigger] is_parent(g, b, c) && leads_to(g, c, b);
        let m = choose|m: nat| leads_in(g, c, b, m);
        let first = lemma_line_of_links::<P, R>(registry, role@, b, n);
        let second = lemma_line_of_links::<P, R>(registry, c, b, m);
        let line = first + second;
        assert forall|i: int| 0 <= i < line.len() - 1 implies registry.roles().contains_key(#[trigger] line[i])
            && registry.parent_names(line[i]).contains(line[i + 1]) by {
            if i < n {
                assert(line[i] == first[i] && line[i + 1] == first[i + 1]);
            } else if i == n {
                assert(line[i] == b && line[i + 1] == second[0]);
            } else {
                assert(line[i] == second[i - n - 1] && line[i + 1] == second[i - n]);
            }
        }
        assert(is_line::<P, R>(registry, line));
        assert(line[n as int] == b && line[line.len() - 1] == b);
        assert(line[0] == first[0]);
    }
    if exists|line: Seq<Seq<char>>, i: int, j: int|
        #![trigger is_line::<P, R>(registry, line), line[i], line[j]]
        is_line::<P, R>(registry, line) && line[0] == role@ && 0 <= i < j < line.len() && line[i] == line[j] {
        let (line, i, j) = choose|line: Seq<Seq<char>>, i: int, j: int|
            #![trigger is_line::<P, R>(registry, line), line[i], line[j]]
            is_line::<P, R>(registry, line) && line[0] == role@ && 0 <= i < j < line.len() && line[i] == line[j];
        lemma_links_of_line::<P, R>(registry, line, 0, i);
        lemma_links_of_line::<P, R>(registry, line, i + 1, j);
        assert(is_parent(g, line[i], line[i + 1]));
        assert(leads_to(g, role@, line[i]));
        assert(leads_to(g, line[i + 1], line[i]));
        assert(descends(g, line[i], line[i]));
    }
}

/// A node has the name, the permissions and the parents that it was last given.
pub proof fn law_node_is_what_it_is_made<P: Permission>(
    name: &str,
    perms: KeySet<P>,
    made: HierarchyNode<P>,
    parents: Vec<String>,
    linked: HierarchyNode<P>,
    shown: &str,
    granted: &KeySet<P>,
    ups: Vec<String>,
    none: Vec<String>,
)
    requires
        call_ensures(HierarchyNode::<P>::new, (name, perms), made),
        call_ensures(HierarchyNode::<P>::with_parents, (made, parents), linked),
        call_ensures(HierarchyNode::<P>::role_name, (&linked,), shown),
        call_ensures(HierarchyNode::<P>::permissions, (&linked,), granted),
        call_ensures(HierarchyNode::<P>::parent_roles, (&linked,), ups),
        call_ensures(HierarchyNode::<P>::parent_roles, (&made,), none),
    ensures
        shown@ == name@,
        granted@ == perms@,
        crate::rbac::traits::texts_of(ups@) == crate::rbac::traits::texts_of(parents@),
        none@.len() == 0,
{
    assert(crate::rbac::traits::texts_of(none@).len() == none@.len());
}

} // verus!
