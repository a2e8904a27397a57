use ream_lib::gindex::{
    is_in_tree, is_leaf, left_child, level_of, on_path_to_root, parent, pow2_u64, right_child,
    sibling, MAX_DEPTH,
};

#[test]
fn parent_halves_the_index() {
    assert_eq!(parent(1), 0);
    assert_eq!(parent(2), 1);
    assert_eq!(parent(3), 1);
    assert_eq!(parent(10), 5);
    assert_eq!(parent(13), 6);
    assert_eq!(parent(u64::MAX), u64::MAX / 2);
}

#[test]
fn sibling_flips_the_last_bit() {
    assert_eq!(sibling(2), 3);
    assert_eq!(sibling(3), 2);
    assert_eq!(sibling(10), 11);
    assert_eq!(sibling(13), 12);
    assert_eq!(sibling(0), 1);
    assert_eq!(sibling(u64::MAX), u64::MAX - 1);
    assert_eq!(sibling(u64::MAX - 1), u64::MAX);
}

#[test]
fn sibling_is_its_own_inverse_and_shares_the_parent() {
    for i in 2u64..2000 {
        assert_eq!(sibling(sibling(i)), i);
        assert_ne!(sibling(i), i);
        assert_eq!(parent(sibling(i)), parent(i));
    }
}

#[test]
fn children_double_the_index() {
    assert_eq!(left_child(1), Some(2));
    assert_eq!(right_child(1), Some(3));
    assert_eq!(left_child(5), Some(10));
    assert_eq!(right_child(6), Some(13));
    assert_eq!(left_child(u64::MAX / 2), Some(u64::MAX - 1));
    assert_eq!(right_child(u64::MAX / 2), Some(u64::MAX));
    assert_eq!(left_child(u64::MAX / 2 + 1), None);
    assert_eq!(right_child(u64::MAX / 2 + 1), None);
    assert_eq!(left_child(u64::MAX), None);
}

#[test]
fn parent_undoes_child() {
    for i in 1u64..2000 {
        assert_eq!(parent(left_child(i).unwrap()), i);
        assert_eq!(parent(right_child(i).unwrap()), i);
        assert_eq!(sibling(left_child(i).unwrap()), right_child(i).unwrap());
    }
}

#[test]
fn level_counts_steps_to_the_root() {
    assert_eq!(level_of(0), 0);
    assert_eq!(level_of(1), 0);
    assert_eq!(level_of(2), 1);
    assert_eq!(level_of(3), 1);
    assert_eq!(level_of(8), 3);
    assert_eq!(level_of(15), 3);
    assert_eq!(level_of(16), 4);
    assert_eq!(level_of(1u64 << 63), 63);
    assert_eq!(level_of(u64::MAX), 63);
}

#[test]
fn powers_of_two() {
    assert_eq!(pow2_u64(0), 1);
    assert_eq!(pow2_u64(1), 2);
    assert_eq!(pow2_u64(6), 64);
    assert_eq!(pow2_u64(MAX_DEPTH), 1 << 30);
    assert_eq!(pow2_u64(63), 1u64 << 63);
}

#[test]
fn tree_range_at_the_depth_boundaries() {
    assert!(!is_in_tree(0, 3));
    assert!(is_in_tree(1, 3));
    assert!(is_in_tree(15, 3));
    assert!(!is_in_tree(16, 3));
    assert!(is_in_tree(1, 0));
    assert!(!is_in_tree(2, 0));
    assert!(is_in_tree(u64::MAX, 63));
    assert!(!is_in_tree(0, 63));
    assert!(is_in_tree(u64::MAX, 200));
    assert!(!is_in_tree(1u64 << 63, 61));
    assert!(is_in_tree((1u64 << 63) - 1, 62));
    assert!(!is_in_tree(1u64 << 63, 62));
}

#[test]
fn leaf_range_at_the_depth_boundaries() {
    assert!(!is_leaf(7, 3));
    assert!(is_leaf(8, 3));
    assert!(is_leaf(15, 3));
    assert!(!is_leaf(16, 3));
    assert!(is_leaf(1, 0));
    assert!(!is_leaf(0, 0));
    assert!(!is_leaf(2, 0));
    assert!(is_leaf(1u64 << 63, 63));
    assert!(is_leaf(u64::MAX, 63));
    assert!(!is_leaf((1u64 << 63) - 1, 63));
    assert!(!is_leaf(u64::MAX, 64));
    assert!(!is_leaf(u64::MAX, 1000));
}

#[test]
fn paths_to_the_root() {
    assert!(on_path_to_root(10, 10));
    assert!(on_path_to_root(5, 10));
    assert!(on_path_to_root(2, 10));
    assert!(on_path_to_root(1, 10));
    assert!(!on_path_to_root(3, 10));
    assert!(!on_path_to_root(4, 10));
    assert!(!on_path_to_root(11, 10));
    assert!(!on_path_to_root(20, 10));
    assert!(!on_path_to_root(0, 10));
    assert!(!on_path_to_root(0, 0));
    assert!(!on_path_to_root(1, 0));
    assert!(on_path_to_root(1, u64::MAX));
}
