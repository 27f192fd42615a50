use godot_codegen::error::ContextError;
use godot_codegen::inheritance::InheritanceTree;
use godot_codegen::names::TyName;

fn class(name: &str) -> TyName {
    TyName::new(name, name)
}

fn rust_names(bases: &[TyName]) -> Vec<String> {
    bases.iter().map(|base| base.rust_ty.clone()).collect()
}

fn three_levels() -> InheritanceTree {
    let mut tree = InheritanceTree::new();
    assert!(tree.insert(class("Leaf"), class("Mid")).is_ok());
    assert!(tree.insert(class("Mid"), class("Base")).is_ok());
    tree
}

#[test]
fn class_without_parent_has_no_bases() {
    let tree = three_levels();
    assert!(tree.collect_all_bases(&class("Base")).is_empty());
    assert!(tree.collect_all_bases(&class("Elsewhere")).is_empty());
}

#[test]
fn empty_tree_gives_no_bases() {
    let tree = InheritanceTree::default();
    assert!(tree.collect_all_bases(&class("Node")).is_empty());
}

#[test]
fn direct_child_of_a_root_has_one_base() {
    let tree = three_levels();
    let bases = tree.collect_all_bases(&class("Mid"));
    assert_eq!(rust_names(&bases), vec!["Base".to_string()]);
}

#[test]
fn bases_come_nearest_first() {
    let tree = three_levels();
    let bases = tree.collect_all_bases(&class("Leaf"));
    assert_eq!(rust_names(&bases), vec!["Mid".to_string(), "Base".to_string()]);
}

#[test]
fn bases_keep_the_engine_names_of_the_edges() {
    let mut tree = InheritanceTree::new();
    assert!(tree.insert(TyName::new("GDScript", "GdScript"), TyName::new("Script", "Script")).is_ok());
    let bases = tree.collect_all_bases(&TyName::new("GDScript", "GdScript"));
    assert_eq!(bases.len(), 1);
    assert_eq!(bases[0].godot_ty, "Script");
    assert_eq!(bases[0].rust_ty, "Script");
}

#[test]
fn second_edge_for_a_class_is_refused() {
    let mut tree = three_levels();
    let refused = tree.insert(class("Leaf"), class("Other"));
    match refused {
        Err(ContextError::DuplicateInheritance(name)) => assert_eq!(name.rust_ty, "Leaf"),
        other => panic!("expected a duplicate edge, got {:?}", other),
    }
}

#[test]
fn refused_edge_leaves_the_tree_as_it_was() {
    let mut tree = three_levels();
    assert!(tree.insert(class("Leaf"), class("Other")).is_err());
    let bases = tree.collect_all_bases(&class("Leaf"));
    assert_eq!(rust_names(&bases), vec!["Mid".to_string(), "Base".to_string()]);
}

#[test]
fn same_edge_twice_is_refused_too() {
    let mut tree = three_levels();
    assert!(matches!(
        tree.insert(class("Mid"), class("Base")),
        Err(ContextError::DuplicateInheritance(_))
    ));
}

#[test]
fn a_class_is_known_by_its_normalized_name() {
    let mut tree = InheritanceTree::new();
    assert!(tree.insert(TyName::new("GDScript", "GdScript"), class("Script")).is_ok());
    let refused = tree.insert(TyName::new("GdScript", "GdScript"), class("Object"));
    assert!(matches!(refused, Err(ContextError::DuplicateInheritance(_))));
    let bases = tree.collect_all_bases(&TyName::new("gdscript", "GdScript"));
    assert_eq!(rust_names(&bases), vec!["Script".to_string()]);
}

#[test]
fn a_base_may_be_shared() {
    let mut tree = three_levels();
    assert!(tree.insert(class("Twig"), class("Mid")).is_ok());
    let bases = tree.collect_all_bases(&class("Twig"));
    assert_eq!(rust_names(&bases), vec!["Mid".to_string(), "Base".to_string()]);
}

#[test]
fn edges_may_come_in_any_order() {
    let mut tree = InheritanceTree::new();
    assert!(tree.insert(class("Mid"), class("Base")).is_ok());
    assert!(tree.insert(class("Root"), class("Object")).is_ok());
    assert!(tree.insert(class("Base"), class("Root")).is_ok());
    assert!(tree.insert(class("Leaf"), class("Mid")).is_ok());
    let bases = tree.collect_all_bases(&class("Leaf"));
    assert_eq!(
        rust_names(&bases),
        vec!["Mid".to_string(), "Base".to_string(), "Root".to_string(), "Object".to_string()]
    );
}

#[test]
fn guarded_walk_gives_the_same_bases() {
    let tree = three_levels();
    let bases = tree.try_collect_all_bases(&class("Leaf")).expect("a rooted class");
    assert_eq!(rust_names(&bases), vec!["Mid".to_string(), "Base".to_string()]);
    let bases = tree.try_collect_all_bases(&class("Mid")).expect("a rooted class");
    assert_eq!(rust_names(&bases), vec!["Base".to_string()]);
    let bases = tree.try_collect_all_bases(&class("Base")).expect("a rooted class");
    assert!(bases.is_empty());
    let bases = tree.try_collect_all_bases(&class("Elsewhere")).expect("a rooted class");
    assert!(bases.is_empty());
}

#[test]
fn guarded_walk_of_an_empty_tree_gives_no_bases() {
    let tree = InheritanceTree::new();
    let bases = tree.try_collect_all_bases(&class("Node")).expect("a rooted class");
    assert!(bases.is_empty());
}

#[test]
fn guarded_walk_follows_a_chain_as_long_as_the_tree() {
    let mut tree = InheritanceTree::new();
    for level in 0..50 {
        let derived = class(&format!("C{}", level));
        let base = class(&format!("C{}", level + 1));
        assert!(tree.insert(derived, base).is_ok());
    }
    let bases = tree.try_collect_all_bases(&class("C0")).expect("a rooted class");
    assert_eq!(bases.len(), 50);
    assert_eq!(bases[0].rust_ty, "C1");
    assert_eq!(bases[49].rust_ty, "C50");
}

#[test]
fn guarded_walk_gives_nothing_on_a_cycle() {
    let mut tree = InheritanceTree::new();
    assert!(tree.insert(class("A"), class("B")).is_ok());
    assert!(tree.insert(class("B"), class("A")).is_ok());
    assert!(tree.insert(class("C"), class("C")).is_ok());
    assert!(tree.insert(class("D"), class("A")).is_ok());
    assert!(tree.insert(class("E"), class("F")).is_ok());
    assert!(tree.try_collect_all_bases(&class("A")).is_none());
    assert!(tree.try_collect_all_bases(&class("B")).is_none());
    assert!(tree.try_collect_all_bases(&class("C")).is_none());
    assert!(tree.try_collect_all_bases(&class("D")).is_none());
    let bases = tree.try_collect_all_bases(&class("E")).expect("a rooted class");
    assert_eq!(rust_names(&bases), vec!["F".to_string()]);
}

#[test]
fn classes_of_a_tree_without_cycle_are_rooted() {
    let tree = three_levels();
    assert!(tree.is_rooted(&class("Leaf")));
    assert!(tree.is_rooted(&class("Mid")));
    assert!(tree.is_rooted(&class("Base")));
    assert!(tree.is_rooted(&class("Elsewhere")));
    assert!(InheritanceTree::new().is_rooted(&class("Leaf")));
}

#[test]
fn classes_on_a_cycle_and_below_it_are_not_rooted() {
    let mut tree = three_levels();
    assert!(tree.insert(class("Base"), class("Leaf")).is_ok());
    assert!(tree.insert(class("Twig"), class("Mid")).is_ok());
    assert!(tree.insert(class("Apart"), class("Alone")).is_ok());
    assert!(!tree.is_rooted(&class("Leaf")));
    assert!(!tree.is_rooted(&class("Mid")));
    assert!(!tree.is_rooted(&class("Base")));
    assert!(!tree.is_rooted(&class("Twig")));
    assert!(tree.is_rooted(&class("Apart")));
    assert!(tree.is_rooted(&class("Alone")));
}

#[test]
fn names_compare_by_their_normalized_form() {
    assert_eq!(TyName::new("GDScript", "GdScript"), TyName::new("GdScript", "GdScript"));
    assert_ne!(TyName::new("Node", "Node"), TyName::new("Node", "Node2"));
    let copy = TyName::new("GDScript", "GdScript").clone();
    assert_eq!(copy.godot_ty, "GDScript");
    assert_eq!(copy.rust_ty, "GdScript");
}
