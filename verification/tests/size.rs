use file_manager::error::SizeError;
use file_manager::tree::Tree;
use file_manager::walk::{Entry, DEPTH_LIMIT};

/// `/r` holds `a` (100 bytes) and `d`; `d` holds `b` (50 bytes) and `e`; `e` holds `c` (10 bytes).
fn sample() -> Tree {
    let e = Tree::Directory(vec![Entry::File(10)]);
    let d = Tree::Directory(vec![Entry::File(50), Entry::Directory(e)]);
    Tree::Directory(vec![Entry::File(100), Entry::Directory(d)])
}

fn denied() -> String {
    String::from("Permission denied (os error 13)")
}

#[test]
fn nested_tree_at_depth_three() {
    assert_eq!(sample().total_size(3), Ok(160));
}

#[test]
fn depth_limit_is_three_levels() {
    assert_eq!(DEPTH_LIMIT, 3);
    assert_eq!(sample().total_size(DEPTH_LIMIT), Ok(160));
}

#[test]
fn nested_tree_at_depth_two_leaves_the_third_level_out() {
    assert_eq!(sample().total_size(2), Ok(150));
}

#[test]
fn nested_tree_at_depth_one_counts_the_root_directory_only() {
    assert_eq!(sample().total_size(1), Ok(100));
}

#[test]
fn nested_tree_at_depth_zero() {
    assert_eq!(sample().total_size(0), Ok(0));
}

#[test]
fn deeper_bound_than_the_tree_changes_nothing() {
    assert_eq!(sample().total_size(4), Ok(160));
    assert_eq!(sample().total_size(usize::MAX), Ok(160));
}

#[test]
fn directory_of_files_is_their_sum() {
    let tree = Tree::Directory(vec![Entry::File(1), Entry::File(20), Entry::File(300)]);
    assert_eq!(tree.total_size(1), Ok(321));
    let tree = Tree::Directory(vec![Entry::File(1), Entry::File(20), Entry::File(300)]);
    assert_eq!(tree.total_size(7), Ok(321));
}

#[test]
fn empty_directory_is_zero() {
    assert_eq!(Tree::Directory(vec![]).total_size(3), Ok(0));
}

#[test]
fn directory_at_depth_zero_is_zero_whatever_it_holds() {
    let tree = Tree::Directory(vec![Entry::File(5), Entry::Failed(denied())]);
    assert_eq!(tree.total_size(0), Ok(0));
    assert_eq!(Tree::Locked(denied()).total_size(0), Ok(0));
}

#[test]
fn file_is_its_length_at_any_depth() {
    assert_eq!(Tree::File(4096).total_size(0), Ok(4096));
    assert_eq!(Tree::File(4096).total_size(3), Ok(4096));
    assert_eq!(Tree::File(0).total_size(1), Ok(0));
    assert_eq!(Tree::File(u64::MAX).total_size(9), Ok(u64::MAX));
}

#[test]
fn missing_root_is_not_found_at_any_depth() {
    assert_eq!(Tree::Missing.total_size(0), Err(SizeError::NotFound));
    assert_eq!(Tree::Missing.total_size(3), Err(SizeError::NotFound));
}

#[test]
fn file_whose_length_cannot_be_read_fails() {
    assert_eq!(Tree::Failed(denied()).total_size(3), Err(SizeError::Io(denied())));
    assert_eq!(Tree::Failed(denied()).total_size(0), Err(SizeError::Io(denied())));
}

#[test]
fn directory_that_cannot_be_read_fails() {
    assert_eq!(Tree::Locked(denied()).total_size(1), Err(SizeError::Io(denied())));
}

#[test]
fn unreadable_file_deep_in_the_tree_fails_the_whole_sum() {
    let e = Tree::Directory(vec![Entry::File(10), Entry::Failed(denied())]);
    let d = Tree::Directory(vec![Entry::File(50), Entry::Directory(e)]);
    let root = Tree::Directory(vec![Entry::File(100), Entry::Directory(d)]);
    assert_eq!(root.total_size(3), Err(SizeError::Io(denied())));
}

#[test]
fn unreadable_directory_deep_in_the_tree_fails_the_whole_sum() {
    let d = Tree::Directory(vec![Entry::File(50), Entry::Directory(Tree::Locked(denied()))]);
    let root = Tree::Directory(vec![Entry::File(100), Entry::Directory(d)]);
    assert_eq!(root.total_size(3), Err(SizeError::Io(denied())));
}

#[test]
fn failure_beyond_the_bound_is_not_met() {
    let e = Tree::Directory(vec![Entry::File(10), Entry::Failed(denied())]);
    let d = Tree::Directory(vec![Entry::File(50), Entry::Directory(e)]);
    let root = Tree::Directory(vec![Entry::File(100), Entry::Directory(d)]);
    assert_eq!(root.total_size(2), Ok(150));
}

#[test]
fn entry_that_could_not_be_enumerated_is_passed_over() {
    let tree = Tree::Directory(vec![
        Entry::File(7),
        Entry::Unreadable(String::from("Input/output error (os error 5)")),
        Entry::File(8),
    ]);
    assert_eq!(tree.total_size(1), Ok(15));
}

#[test]
fn directory_that_vanished_before_its_visit_is_not_found() {
    let root = Tree::Directory(vec![Entry::File(100), Entry::Directory(Tree::Missing)]);
    assert_eq!(root.total_size(2), Err(SizeError::NotFound));
}

#[test]
fn failure_in_a_listing_comes_before_failures_below_it() {
    let first = Tree::Locked(String::from("below"));
    let root = Tree::Directory(vec![
        Entry::Directory(first),
        Entry::Failed(String::from("first in the listing")),
        Entry::Failed(String::from("second in the listing")),
    ]);
    assert_eq!(root.total_size(2), Err(SizeError::Io(String::from("first in the listing"))));
}

#[test]
fn directories_are_added_up_in_their_order() {
    let root = Tree::Directory(vec![
        Entry::Directory(Tree::Directory(vec![Entry::File(1)])),
        Entry::Directory(Tree::Locked(String::from("one"))),
        Entry::Directory(Tree::Locked(String::from("two"))),
    ]);
    assert_eq!(root.total_size(2), Err(SizeError::Io(String::from("one"))));
}

#[test]
fn visit_shows_the_root() {
    assert_eq!(Tree::Missing.visit(true), file_manager::walk::Found::Missing);
    assert_eq!(Tree::File(3).visit(false), file_manager::walk::Found::File(3));
    assert_eq!(
        Tree::Locked(denied()).visit(true),
        file_manager::walk::Found::Failed(denied())
    );
    assert_eq!(
        Tree::Locked(denied()).visit(false),
        file_manager::walk::Found::Directory(vec![])
    );
    assert_eq!(
        Tree::Directory(vec![Entry::File(1)]).visit(true),
        file_manager::walk::Found::Directory(vec![Entry::File(1)])
    );
    assert_eq!(
        Tree::Directory(vec![Entry::File(1)]).visit(false),
        file_manager::walk::Found::Directory(vec![])
    );
}

#[test]
fn message_of_each_error() {
    assert_eq!(SizeError::NotFound.message(), "Path does not exist");
    assert_eq!(SizeError::Io(denied()).message(), "Permission denied (os error 13)");
}
