//! Role hierarchies.
use kirino::collections::{Key, KeySet};
use kirino::rbac::hierarchy::{detect_cycle, resolve_role_chain, HierarchicalRole, HierarchyNode};
use kirino::rbac::registry::StaticRoleRegistry;
use kirino::rbac::traits::{Permission, Role, RoleRegistry};

#[derive(Debug, Clone, Copy, PartialEq, Eq)]
enum TestPerm {
    Read,
    Write,
    Delete,
    Admin,
}

impl Key for TestPerm {
    type Id = ();

    fn same(&self, other: &Self) -> bool {
        self == other
    }

    fn duplicate(&self) -> Self {
        *self
    }
}

impl Permission for TestPerm {
    fn name(&self) -> &str {
        match self {
            TestPerm::Read => "read",
            TestPerm::Write => "write",
            TestPerm::Delete => "delete",
            TestPerm::Admin => "admin",
        }
    }

    fn domain(&self) -> &str {
        ""
    }

    fn ancestry_names(&self) -> Vec<&str> {
        vec![self.name()]
    }

    fn is_branch(&self) -> bool {
        false
    }

    fn identity_fixes_texts(_: &Self, _: &Self) {}
}

fn perms(items: &[TestPerm]) -> KeySet<TestPerm> {
    KeySet::from_items(&items.to_vec())
}

type Registry = StaticRoleRegistry<HierarchyNode<TestPerm>, TestPerm>;

fn node(name: &str, items: &[TestPerm]) -> HierarchyNode<TestPerm> {
    HierarchyNode::new(name, perms(items))
}

fn child(name: &str, items: &[TestPerm], parents: &[&str]) -> HierarchyNode<TestPerm> {
    node(name, items).with_parents(parents.iter().map(|p| p.to_string()).collect())
}

fn build_hierarchy() -> Registry {
    let mut reg = StaticRoleRegistry::new();
    reg.register_hierarchical(child("admin", &[TestPerm::Admin], &["operator", "auditor"]));
    reg.register_hierarchical(child("operator", &[TestPerm::Write, TestPerm::Delete], &["viewer"]));
    reg.register(node("auditor", &[TestPerm::Read]));
    reg.register(node("viewer", &[TestPerm::Read]));
    reg
}

#[test]
fn test_resolve_chain_admin() {
    let reg = build_hierarchy();
    let perms = resolve_role_chain("admin", &reg);
    assert!(perms.contains(&TestPerm::Admin));
    assert!(perms.contains(&TestPerm::Write));
    assert!(perms.contains(&TestPerm::Delete));
    assert!(perms.contains(&TestPerm::Read));
}

#[test]
fn test_resolve_chain_operator() {
    let reg = build_hierarchy();
    let perms = resolve_role_chain("operator", &reg);
    assert!(perms.contains(&TestPerm::Write));
    assert!(perms.contains(&TestPerm::Delete));
    assert!(perms.contains(&TestPerm::Read));
    assert!(!perms.contains(&TestPerm::Admin));
}

#[test]
fn test_resolve_chain_viewer() {
    let reg = build_hierarchy();
    let perms = resolve_role_chain("viewer", &reg);
    assert!(perms.contains(&TestPerm::Read));
    assert!(!perms.contains(&TestPerm::Write));
}

#[test]
fn test_resolve_chain_nonexistent() {
    let reg = build_hierarchy();
    let perms = resolve_role_chain("nonexistent", &reg);
    assert!(perms.is_empty());
}

#[test]
fn test_detect_no_cycle() {
    let reg = build_hierarchy();
    assert!(!detect_cycle("admin", &reg));
    assert!(!detect_cycle("viewer", &reg));
}

#[test]
fn test_detect_cycle() {
    let mut reg = StaticRoleRegistry::new();
    reg.register_hierarchical(child("a", &[TestPerm::Read], &["b"]));
    reg.register_hierarchical(child("b", &[TestPerm::Write], &["a"]));
    assert!(detect_cycle("a", &reg));
    assert!(detect_cycle("b", &reg));
}

#[test]
fn test_detect_self_cycle() {
    let mut reg = StaticRoleRegistry::new();
    reg.register_hierarchical(child("self_ref", &[TestPerm::Read], &["self_ref"]));
    assert!(detect_cycle("self_ref", &reg));
}

#[test]
fn test_resolve_chain_with_cycle_terminates() {
    let mut reg = StaticRoleRegistry::new();
    reg.register_hierarchical(child("a", &[TestPerm::Read], &["b"]));
    reg.register_hierarchical(child("b", &[TestPerm::Write], &["a"]));
    let perms = resolve_role_chain("a", &reg);
    assert!(perms.contains(&TestPerm::Read));
    assert!(perms.contains(&TestPerm::Write));
}

#[test]
fn test_three_way_cycle() {
    let mut reg = StaticRoleRegistry::new();
    reg.register_hierarchical(child("a", &[TestPerm::Read], &["b"]));
    reg.register_hierarchical(child("b", &[TestPerm::Write], &["c"]));
    reg.register_hierarchical(child("c", &[TestPerm::Delete], &["a"]));
    assert!(detect_cycle("a", &reg));
    assert!(detect_cycle("b", &reg));
    assert!(detect_cycle("c", &reg));

    let perms = resolve_role_chain("a", &reg);
    assert_eq!(perms.len(), 3);
}

#[test]
fn test_deep_chain() {
    let mut reg = StaticRoleRegistry::new();
    reg.register_hierarchical(child("level0", &[TestPerm::Admin], &["level1"]));
    for i in 1..10 {
        reg.register(node(&format!("level{i}"), &[TestPerm::Read]));
    }
    let perms = resolve_role_chain("level0", &reg);
    assert!(perms.contains(&TestPerm::Admin));
    assert!(perms.contains(&TestPerm::Read));
}

#[test]
fn test_diamond_inheritance() {
    let mut reg = StaticRoleRegistry::new();
    reg.register_hierarchical(child("root", &[TestPerm::Admin], &["left", "right"]));
    reg.register_hierarchical(child("left", &[TestPerm::Read], &["base"]));
    reg.register_hierarchical(child("right", &[TestPerm::Write], &["base"]));
    reg.register(node("base", &[TestPerm::Delete]));

    let perms = resolve_role_chain("root", &reg);
    assert!(perms.contains(&TestPerm::Admin));
    assert!(perms.contains(&TestPerm::Read));
    assert!(perms.contains(&TestPerm::Write));
    assert!(perms.contains(&TestPerm::Delete));
    assert_eq!(perms.len(), 4);

    assert!(!detect_cycle("root", &reg));
}

#[test]
fn test_detect_cycle_nonexistent_role() {
    let reg: Registry = StaticRoleRegistry::new();
    assert!(!detect_cycle("nonexistent", &reg));
}

#[test]
fn a_cycle_above_a_role_is_found_from_below() {
    let mut reg = StaticRoleRegistry::new();
    reg.register_hierarchical(child("leaf", &[TestPerm::Admin], &["a"]));
    reg.register_hierarchical(child("a", &[TestPerm::Read], &["b"]));
    reg.register_hierarchical(child("b", &[TestPerm::Write], &["a"]));
    assert!(detect_cycle("leaf", &reg));
    assert_eq!(resolve_role_chain("leaf", &reg).len(), 3);
    // Members of one cycle resolve to the same permissions.
    assert_eq!(resolve_role_chain("a", &reg).len(), 2);
    assert_eq!(resolve_role_chain("b", &reg).len(), 2);
}

#[test]
fn a_parent_that_is_not_registered_grants_nothing() {
    let mut reg = StaticRoleRegistry::new();
    reg.register_hierarchical(child("a", &[TestPerm::Read], &["missing"]));
    assert_eq!(resolve_role_chain("a", &reg).len(), 1);
    assert!(!detect_cycle("a", &reg));
}

#[test]
fn an_added_parent_takes_nothing_away() {
    let mut reg = build_hierarchy();
    let before = resolve_role_chain("viewer", &reg);
    reg.set_parents("viewer", vec!["operator".to_string()]);
    let after = resolve_role_chain("viewer", &reg);
    for item in before.to_items() {
        assert!(after.contains(&item));
    }
    assert!(after.contains(&TestPerm::Delete));
    assert_eq!(reg.role_parents("viewer"), vec!["operator".to_string()]);
    assert!(detect_cycle("viewer", &reg));
}

#[test]
fn a_node_tells_its_name_permissions_and_parents() {
    let n = child("operator", &[TestPerm::Write], &["viewer", "auditor"]);
    assert_eq!(n.role_name(), "operator");
    assert!(n.permissions().contains(&TestPerm::Write));
    assert_eq!(n.parent_roles(), vec!["viewer".to_string(), "auditor".to_string()]);
}
