use ntfs_parser::ntfs::tree::{Arena, NtfsTree};

#[test]
fn ordered_nodes_walk_the_tree_from_the_root() {
    let mut tree = NtfsTree::new();
    tree.add_entry(".", 5, 5);
    tree.add_entry("Windows", 30, 5);
    tree.add_entry("System32", 31, 30);
    tree.add_entry("orphan", 40, 99);
    tree.add_entry("late", 99, 30);
    assert_eq!(tree.get_ordered_nodes(), vec![0, 1, 2, 4, 3]);
    assert_eq!(tree.get(3).parent, Some(4));
    assert_eq!(tree.get(4).children, vec![3]);
    assert_eq!(tree.get(1).children, vec![2, 4]);
    assert_eq!(tree.get(0).parent, None);
    assert_eq!(tree.get(2).name, "System32");
    assert_eq!(tree.get(2).mft_record, 31);
}

#[test]
fn no_root_no_order() {
    let mut tree = NtfsTree::new();
    tree.add_entry("a", 1, 2);
    assert_eq!(tree.get_ordered_nodes(), Vec::<usize>::new());
    assert!(Arena::new().nodes.is_empty());
}

#[test]
fn a_link_that_would_close_a_cycle_is_refused() {
    let mut tree = NtfsTree::new();
    tree.add_entry("a", 50, 51);
    tree.add_entry("b", 51, 50);
    assert_eq!(tree.get(1).parent, Some(0));
    assert_eq!(tree.get(0).parent, None);
    assert_eq!(tree.get(0).children, vec![1]);
    assert!(tree.get(1).children.is_empty());
}

#[test]
fn waiting_children_follow_their_parent() {
    let mut tree = NtfsTree::new();
    tree.add_entry("x", 7, 3);
    tree.add_entry("y", 8, 3);
    tree.add_entry("root", 3, 3);
    assert_eq!(tree.get(2).children, vec![0, 1]);
    assert_eq!(tree.get_ordered_nodes(), vec![2, 0, 1]);
}

#[test]
fn waiting_nodes_join_the_children_of_their_parent() {
    let mut t = NtfsTree::new();
    t.add_entry("root", 5, 5);
    t.add_entry("y", 8, 7);
    t.add_entry("x", 7, 5);
    t.add_entry("z", 9, 5);
    assert_eq!(t.get_ordered_nodes(), vec![0, 2, 1, 3]);
    assert_eq!(t.get(0).children, vec![2, 3]);
    assert_eq!(t.get(2).children, vec![1]);
}
