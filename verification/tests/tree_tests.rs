//! Tests for the arena tree: identities, relations and document-order
//! traversal.

use dialogue_rs::tree::Tree;

const DATA_A: &str = "A";
const DATA_B: &str = "B";
const DATA_C: &str = "C";
const DATA_D: &str = "D";
const DATA_E: &str = "E";

#[test]
fn test_tree_method_first() {
    let mut tree = Tree::new();
    let id_a = tree.push(DATA_A);
    let first_id = tree.first().unwrap();
    assert_eq!(id_a, first_id);
    assert_eq!(Some(&DATA_A), tree.get_by_id(first_id));

    let _id_b = tree.push(DATA_B);
    assert_eq!(id_a, tree.first().unwrap());
    assert_eq!(Some(&DATA_A), tree.get_by_id(id_a));
}

#[test]
fn test_tree_method_next() {
    let mut tree = Tree::new();
    let id_a = tree.push(DATA_A);
    let id_b = tree.push(DATA_B);
    let id_c = tree.push(DATA_C);

    let id = tree.first().unwrap();
    assert_eq!(id_a, id);
    assert_eq!(Some(&DATA_A), tree.get_by_id(id));

    let id = tree.next(id).unwrap();
    assert_eq!(id_b, id);
    assert_eq!(Some(&DATA_B), tree.get_by_id(id));

    let id = tree.next(id).unwrap();
    assert_eq!(id_c, id);
    assert_eq!(Some(&DATA_C), tree.get_by_id(id));

    assert!(tree.next(id).is_none());
}

#[test]
fn test_tree_method_push() {
    let mut tree = Tree::new();
    let id_a = tree.push(DATA_A);
    let id_b = tree.push(DATA_B);
    let id_c = tree.push(DATA_C);

    assert_eq!(Some(&DATA_A), tree.get_by_id(id_a));
    assert_eq!(Some(&DATA_B), tree.get_by_id(id_b));
    assert_eq!(Some(&DATA_C), tree.get_by_id(id_c));
    assert_ne!(id_a, id_b);
    assert_ne!(id_b, id_c);
}

#[test]
fn test_tree_method_push_with_parent() {
    let mut tree = Tree::new();
    let id_a = tree.push(DATA_A);
    let id_b = tree.push_with_parent(DATA_B, id_a);
    let id_c = tree.push_with_parent(DATA_C, id_b);

    assert_eq!(Some(&DATA_A), tree.get_by_id(id_a));
    assert_eq!(Some(&DATA_B), tree.get_by_id(id_b));
    assert_eq!(Some(&DATA_C), tree.get_by_id(id_c));

    assert_eq!(Some(id_a), tree.parent_of(id_b));
    assert_eq!(Some(id_b), tree.parent_of(id_c));
}

#[test]
fn test_tree_method_get_by_id() {
    let mut tree = Tree::new();
    let id_a = tree.push(DATA_A);
    let id_b = tree.push(DATA_B);
    let id_c = tree.push(DATA_C);

    assert_eq!(Some(&DATA_B), tree.get_by_id(id_b));
    assert_eq!(Some(&DATA_C), tree.get_by_id(id_c));
    assert_eq!(Some(&DATA_A), tree.get_by_id(id_a));
}

#[test]
fn test_tree_method_parent_of() {
    let mut tree = Tree::new();
    let id_a = tree.push(DATA_A);
    let id_b = tree.push_with_parent(DATA_B, id_a);
    let id_c = tree.push_with_parent(DATA_C, id_b);
    let id_d = tree.push_with_parent(DATA_D, id_c);
    let id_e = tree.push_with_parent(DATA_E, id_d);

    assert_eq!(None, tree.parent_of(id_a));
    assert_eq!(Some(id_a), tree.parent_of(id_b));
    assert_eq!(Some(id_b), tree.parent_of(id_c));
    assert_eq!(Some(id_c), tree.parent_of(id_d));
    assert_eq!(Some(id_d), tree.parent_of(id_e));
}

#[test]
fn test_tree_method_siblings_of() {
    let mut tree = Tree::new();
    let id_a = tree.push(DATA_A);
    let id_b = tree.push_with_parent(DATA_B, id_a);
    let id_c = tree.push_with_parent(DATA_C, id_a);
    let id_d = tree.push_with_parent(DATA_D, id_b);
    let id_e = tree.push_with_parent(DATA_E, id_b);

    assert_eq!(vec![id_c], tree.siblings_of(id_b).unwrap());
    assert_eq!(vec![id_b], tree.siblings_of(id_c).unwrap());
    assert_eq!(vec![id_e], tree.siblings_of(id_d).unwrap());
    assert_eq!(vec![id_d], tree.siblings_of(id_e).unwrap());
}

#[test]
fn test_tree_method_next_sibling_of() {
    let mut tree = Tree::new();
    let id_a = tree.push(DATA_A);
    let id_b = tree.push_with_parent(DATA_B, id_a);
    let id_c = tree.push_with_parent(DATA_C, id_a);
    let id_d = tree.push_with_parent(DATA_D, id_b);
    let id_e = tree.push_with_parent(DATA_E, id_b);

    assert_eq!(None, tree.next_sibling_of(id_a));
    assert_eq!(Some(id_c), tree.next_sibling_of(id_b));
    assert_eq!(None, tree.next_sibling_of(id_c));
    assert_eq!(Some(id_e), tree.next_sibling_of(id_d));
    assert_eq!(None, tree.next_sibling_of(id_e));
}

#[test]
fn test_tree_method_previous_sibling_of() {
    let mut tree = Tree::new();
    let id_a = tree.push(DATA_A);
    let id_b = tree.push_with_parent(DATA_B, id_a);
    let id_c = tree.push_with_parent(DATA_C, id_a);
    let id_d = tree.push_with_parent(DATA_D, id_b);
    let id_e = tree.push_with_parent(DATA_E, id_b);

    assert_eq!(None, tree.previous_sibling_of(id_a));
    assert_eq!(None, tree.previous_sibling_of(id_b));
    assert_eq!(Some(id_b), tree.previous_sibling_of(id_c));
    assert_eq!(None, tree.previous_sibling_of(id_d));
    assert_eq!(Some(id_d), tree.previous_sibling_of(id_e));
}

#[test]
fn test_tree_method_find_by() {
    let mut tree = Tree::new();
    let id_a = tree.push(DATA_A);
    let id_b = tree.push_with_parent(DATA_B, id_a);
    let id_c = tree.push_with_parent(DATA_C, id_a);
    let id_d = tree.push_with_parent(DATA_D, id_b);
    let id_e = tree.push_with_parent(DATA_E, id_b);

    assert_eq!(Some(id_a), tree.find_by(|data| data == &DATA_A));
    assert_eq!(Some(id_b), tree.find_by(|data| data == &DATA_B));
    assert_eq!(Some(id_c), tree.find_by(|data| data == &DATA_C));
    assert_eq!(Some(id_d), tree.find_by(|data| data == &DATA_D));
    assert_eq!(Some(id_e), tree.find_by(|data| data == &DATA_E));
}

#[test]
fn test_tree_next_descends_from_roots() {
    let mut tree = Tree::new();
    let id_a = tree.push(DATA_A);
    let id_b = tree.push_with_parent(DATA_B, id_a);
    let id_c = tree.push(DATA_C);

    // The next of a last child climbs back out to the following root.
    assert_eq!(Some(id_c), tree.next(id_b));
    assert_eq!(None, tree.next(id_c));
}

#[test]
fn test_tree_children_of() {
    let mut tree = Tree::new();
    let id_a = tree.push(DATA_A);
    let id_b = tree.push_with_parent(DATA_B, id_a);
    let id_c = tree.push_with_parent(DATA_C, id_a);

    assert_eq!(vec![id_b, id_c], tree.children_of(id_a));
    assert_eq!(Vec::<dialogue_rs::tree::NodeId>::new(), tree.children_of(id_b));
}
