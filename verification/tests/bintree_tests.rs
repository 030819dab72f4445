use bintree::BinTree;

/// Root `0` with a three-node left subtree (`1` with children `2` and `3`)
/// and no right child.
fn tree_with_left_subtree() -> BinTree<i32> {
    let mut root = BinTree::new(0);
    root.set_left(Some(1));
    let left = root.get_left_mut().unwrap();
    left.set_left(Some(2));
    left.set_right(Some(3));
    root
}

#[test]
fn test_new_is_single_leaf() {
    let t: BinTree<i32> = BinTree::new(8);
    assert_eq!(t.len(), 1);
    assert!(t.get_left().is_none());
    assert!(t.get_right().is_none());
    assert_eq!(t.get_inner(), &8);
}

#[test]
fn test_new_with_nodes_builds_three_leaves() {
    let t: BinTree<i32> = BinTree::new_with_nodes(1, 2, 3);
    assert_eq!(t.get_inner(), &1);
    assert_eq!(t.get_left().unwrap().get_inner(), &2);
    assert_eq!(t.get_right().unwrap().get_inner(), &3);
    assert_eq!(t.len(), 3);
    assert!(t.get_left().unwrap().get_left().is_none());
    assert!(t.get_left().unwrap().get_right().is_none());
}

#[test]
fn test_set_then_clear_left_empties_slot() {
    let mut t = BinTree::new(1);
    t.set_left(Some(7));
    assert_eq!(t.get_left().unwrap().get_inner(), &7);
    t.clear_left();
    assert!(t.get_left().is_none());
    assert_eq!(t.get_inner(), &1);
}

#[test]
fn test_set_then_clear_right_empties_slot() {
    let mut t = BinTree::new_with_nodes(1, 2, 3);
    t.set_right(Some(7));
    assert_eq!(t.get_right().unwrap().get_inner(), &7);
    t.clear_right();
    assert!(t.get_right().is_none());
    assert_eq!(t.get_inner(), &1);
    assert_eq!(t.get_left().unwrap().get_inner(), &2);
}

#[test]
fn test_set_left_none_clears() {
    let mut t = BinTree::new_with_nodes(1, 2, 3);
    t.set_left(None);
    assert!(t.get_left().is_none());
    assert_eq!(t.len(), 2);
}

#[test]
fn test_pop_then_set_discards_subtree() {
    let mut root = tree_with_left_subtree();
    assert_eq!(root.len(), 4);

    let popped = root.pop_left().expect("left slot was filled");
    assert_eq!(popped.len(), 3);
    assert!(root.get_left().is_none());
    assert_eq!(root.len(), 1);

    // Re-setting puts only a fresh leaf in the slot: the popped three-node
    // subtree is not reattached, so the total size shrinks accordingly.
    root.set_left(Some(1));
    assert_eq!(root.len(), 2);
    assert_eq!(root.get_left().unwrap().get_inner(), &1);
    assert!(root.get_left().unwrap().get_left().is_none());
}

#[test]
fn test_pop_left_on_empty_slot() {
    let mut t = BinTree::new(5);
    assert!(t.pop_left().is_none());
    assert!(t.pop_right().is_none());
    assert_eq!(t.len(), 1);
}

#[test]
fn test_collect_nodes_order_left_before_right() {
    // Root 0; left subtree 1 -> (2, 3); right child 4.
    let mut root = tree_with_left_subtree();
    root.set_right(Some(4));

    let nodes = root.collect_nodes();
    let values: Vec<i32> = nodes.iter().map(|n| *n.get_inner()).collect();
    // Left child first, then all of its descendants, then the right child:
    // every left-subtree entry precedes every right-subtree entry.
    assert_eq!(values, vec![1, 2, 3, 4]);
    assert_eq!(nodes.len(), root.len() - 1);
}

#[test]
fn test_collect_all_values_starts_with_root() {
    let mut root = tree_with_left_subtree();
    root.set_right(Some(4));

    let values = root.collect_all_values();
    assert_eq!(values.len(), root.len());
    assert_eq!(values[0], root.get_inner());
    let owned: Vec<i32> = values.iter().map(|v| **v).collect();
    assert_eq!(owned, vec![0, 1, 2, 3, 4]);
}

#[test]
fn test_into_fast_iter_matches_collect_all_values() {
    let t: BinTree<i32> = BinTree::new_with_nodes(1, 2, 3);
    let collected: Vec<i32> = t.into_fast_iter().copied().collect();
    assert_eq!(collected, vec![1, 2, 3]);
}

#[test]
fn test_leftmost_rightmost_on_leaf_is_root() {
    let t: BinTree<i32> = BinTree::new(42);
    assert_eq!(t.leftmost().get_inner(), &42);
    assert_eq!(t.rightmost().get_inner(), &42);
}

#[test]
fn test_leftmost_follows_chain() {
    // Chain of depth 3 to the left: 0 -> 1 -> 2 -> 3.
    let mut root = BinTree::new(0);
    root.set_left(Some(1));
    root.get_left_mut().unwrap().set_left(Some(2));
    root.get_left_mut().unwrap().get_left_mut().unwrap().set_left(Some(3));
    assert_eq!(root.leftmost().get_inner(), &3);
    // The right chain is empty, so the rightmost node is the root itself.
    assert_eq!(root.rightmost().get_inner(), &0);
}

#[test]
fn test_rightmost_follows_chain() {
    let mut root = BinTree::new_with_nodes(-77, 36, 128);
    let right = root.get_right_mut().unwrap();
    right.set_right(Some(79));
    assert_eq!(root.rightmost().get_inner(), &79);
    assert_eq!(root.leftmost().get_inner(), &36);
}

#[test]
fn test_scenario_three_node_tree() {
    let t: BinTree<i32> = BinTree::new_with_nodes(1, 2, 3);
    assert_eq!(t.len(), 3);
    assert_eq!(t.get_left().unwrap().get_inner(), &2);
    assert_eq!(t.get_right().unwrap().get_inner(), &3);
    let descendants: Vec<i32> = t.collect_nodes().iter().map(|n| *n.get_inner()).collect();
    assert_eq!(descendants, vec![2, 3]);
    assert_eq!(t.leftmost().get_inner(), &2);
    assert_eq!(t.rightmost().get_inner(), &3);
}

#[test]
fn test_scenario_deep_left() {
    let mut t: BinTree<i32> = BinTree::new_with_nodes(-77, 31, 128);
    let left = t.get_left_mut().unwrap();
    left.set_left(Some(69));
    assert_eq!(t.leftmost().get_inner(), &69);
    assert_eq!(t.len(), 4);
}

#[test]
fn test_clone_is_deep_and_independent() {
    let original: BinTree<i32> = BinTree::new_with_nodes(1, 2, 3);
    let mut copy = original.clone();

    assert_eq!(copy.len(), 3);
    assert_eq!(copy.get_inner(), &1);
    assert_eq!(copy.get_left().unwrap().get_inner(), &2);
    assert_eq!(copy.get_right().unwrap().get_inner(), &3);

    copy.set_inner(99);
    copy.get_left_mut().unwrap().set_inner(88);

    assert_eq!(original.get_inner(), &1);
    assert_eq!(original.get_left().unwrap().get_inner(), &2);
    assert_eq!(original.get_right().unwrap().get_inner(), &3);
    assert_eq!(copy.get_inner(), &99);
}

#[test]
fn test_set_inner_and_get_inner_mut() {
    let mut t = BinTree::new(8);
    assert_eq!(t.get_inner(), &8);
    t.set_inner(9);
    assert_eq!(t.get_inner(), &9);
    let inner = t.get_inner_mut();
    *inner = 99;
    assert_eq!(t.get_inner(), &99);
}

#[test]
fn test_take_inner_consumes_node() {
    let t = BinTree::new(1);
    assert_eq!(t.take_inner(), 1);
    let t2 = BinTree::new_with_nodes(5, 6, 7);
    assert_eq!(t2.take_inner(), 5);
}

#[test]
fn test_take_left_and_right() {
    let t: BinTree<i32> = BinTree::new_with_nodes(1, 2, 3);
    let left = t.take_left().unwrap();
    assert_eq!(left.get_inner(), &2);

    let t2: BinTree<i32> = BinTree::new_with_nodes(1, 2, 3);
    let right = t2.take_right().unwrap();
    assert_eq!(right.get_inner(), &3);

    let t3: BinTree<i32> = BinTree::new(1);
    assert!(t3.take_left().is_none());
}

#[test]
fn test_boxed_keeps_value() {
    let t: BinTree<i32> = BinTree::new(25);
    let boxed: Box<BinTree<i32>> = t.boxed();
    assert_eq!(boxed.get_inner(), &25);
}

#[test]
fn test_collect_values_takes_immediate_children_only() {
    let t: BinTree<i32> = BinTree::new_with_nodes(-77, 31, 128);
    let numbers = t.collect_values();
    assert_eq!(numbers.0, -77);
    assert_eq!(numbers.1, Some(31));
    assert_eq!(numbers.2, Some(128));

    // Grandchildren are discarded: only the immediate child's value comes out.
    let deep = tree_with_left_subtree();
    let numbers = deep.collect_values();
    assert_eq!(numbers.0, 0);
    assert_eq!(numbers.1, Some(1));
    assert_eq!(numbers.2, None);
}

#[test]
fn test_clone_accessors() {
    let t: BinTree<String> = BinTree::new_with_nodes(
        String::from("root"),
        String::from("left"),
        String::from("right"),
    );
    assert_eq!(t.clone_inner(), "root");
    assert_eq!(t.clone_left(), Some(String::from("left")));
    assert_eq!(t.clone_right(), Some(String::from("right")));

    let leaf: BinTree<String> = BinTree::new(String::from("only"));
    assert_eq!(leaf.clone_left(), None);
    assert_eq!(leaf.clone_right(), None);
}

#[test]
fn test_get_child_mut_edits_subtree() {
    let mut t: BinTree<i32> = BinTree::new_with_nodes(1, 2, 3);
    t.get_left_mut().unwrap().set_inner(99);
    assert_eq!(t.get_left().unwrap().get_inner(), &99);
    t.get_right_mut().unwrap().set_inner(-1);
    assert_eq!(t.get_right().unwrap().get_inner(), &-1);
    let only: &mut BinTree<i32> = &mut BinTree::new(4);
    assert!(only.get_left_mut().is_none());
}
